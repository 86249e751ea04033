//! Range validation and the layout selector.
//!
//! A range `[min, max]` of 128-bit signed integers is *supported* when it is
//! non-empty and either consists of a single value (stored in zero bytes) or
//! fits one of the native integer kinds of at most eight bytes.  The layout
//! selector walks a fixed ladder of kinds, signed before unsigned at each
//! width, and picks the first that brackets the range.

use vstd::prelude::*;

verus! {

/// Whether an operation on ranges is legal.  Mirrors a boolean, but carries
/// its meaning in the name.
#[derive(Clone, Copy, Debug, PartialEq, Eq, Structural)]
pub enum OperationPossibility {
    /// The operation would violate a range-level rule.
    Forbidden,
    /// The operation is legal.
    Allowed,
}

/// The physical storage kind chosen for a range: a zero-size kind for a
/// single-valued range, or the narrowest bracketing native integer kind.
#[derive(Clone, Copy, Debug, PartialEq, Eq, Structural)]
pub enum LayoutKind {
    /// `min == max`: the value is implied by the range, nothing is stored.
    Trivial,
    /// Signed one-byte kind.
    I8,
    /// Unsigned one-byte kind.
    U8,
    /// Signed two-byte kind.
    I16,
    /// Unsigned two-byte kind.
    U16,
    /// Signed four-byte kind.
    I32,
    /// Unsigned four-byte kind.
    U32,
    /// Signed eight-byte kind.
    I64,
    /// Unsigned eight-byte kind.
    U64,
}

/// Number of bytes a layout kind occupies.
pub open spec fn kind_width(k: LayoutKind) -> nat {
    match k {
        LayoutKind::Trivial => 0,
        LayoutKind::I8 => 1,
        LayoutKind::U8 => 1,
        LayoutKind::I16 => 2,
        LayoutKind::U16 => 2,
        LayoutKind::I32 => 4,
        LayoutKind::U32 => 4,
        LayoutKind::I64 => 8,
        LayoutKind::U64 => 8,
    }
}

/// Smallest value a layout kind can hold.  `Trivial` stores nothing, so its
/// nominal native range is the single value 0.
pub open spec fn kind_min(k: LayoutKind) -> int {
    match k {
        LayoutKind::Trivial => 0,
        LayoutKind::I8 => i8::MIN as int,
        LayoutKind::U8 => 0,
        LayoutKind::I16 => i16::MIN as int,
        LayoutKind::U16 => 0,
        LayoutKind::I32 => i32::MIN as int,
        LayoutKind::U32 => 0,
        LayoutKind::I64 => i64::MIN as int,
        LayoutKind::U64 => 0,
    }
}

/// Largest value a layout kind can hold.
pub open spec fn kind_max(k: LayoutKind) -> int {
    match k {
        LayoutKind::Trivial => 0,
        LayoutKind::I8 => i8::MAX as int,
        LayoutKind::U8 => u8::MAX as int,
        LayoutKind::I16 => i16::MAX as int,
        LayoutKind::U16 => u16::MAX as int,
        LayoutKind::I32 => i32::MAX as int,
        LayoutKind::U32 => u32::MAX as int,
        LayoutKind::I64 => i64::MAX as int,
        LayoutKind::U64 => u64::MAX as int,
    }
}

/// Whether a mathematical integer is representable as an `i128`.
pub open spec fn in_irang(x: int) -> bool {
    i128::MIN <= x <= i128::MAX
}

/// The layout chosen for `[min, max]`: `Trivial` for a single value,
/// otherwise the first kind of the ladder `I8, U8, I16, U16, I32, U32, I64,
/// U64` that brackets the range, signed favoured over unsigned at each width.
/// `None` when the range is empty or too wide for every kind of the ladder.
pub open spec fn spec_select(min: int, max: int) -> Option<LayoutKind> {
    if !in_irang(min) || !in_irang(max) || min > max {
        None
    } else if min == max {
        Some(LayoutKind::Trivial)
    } else if i8::MIN <= min && max <= i8::MAX {
        Some(LayoutKind::I8)
    } else if 0 <= min && max <= u8::MAX {
        Some(LayoutKind::U8)
    } else if i16::MIN <= min && max <= i16::MAX {
        Some(LayoutKind::I16)
    } else if 0 <= min && max <= u16::MAX {
        Some(LayoutKind::U16)
    } else if i32::MIN <= min && max <= i32::MAX {
        Some(LayoutKind::I32)
    } else if 0 <= min && max <= u32::MAX {
        Some(LayoutKind::U32)
    } else if i64::MIN <= min && max <= i64::MAX {
        Some(LayoutKind::I64)
    } else if 0 <= min && max <= u64::MAX {
        Some(LayoutKind::U64)
    } else {
        None
    }
}

/// Whether `[min, max]` has a layout at all.
pub open spec fn spec_supported(min: int, max: int) -> bool {
    spec_select(min, max) is Some
}

/// Byte width reported by `memlayout`: the width of the selected kind, or
/// the out-of-ladder sentinel 16 when no kind fits.
pub open spec fn spec_memlayout(min: int, max: int) -> int {
    match spec_select(min, max) {
        Some(k) => kind_width(k) as int,
        None => 16,
    }
}

/// The layout selector as an executable function.
pub fn select_layout(min: i128, max: i128) -> (r: Option<LayoutKind>)
    ensures
        r == spec_select(min as int, max as int),
{
    if min > max {
        None
    } else if min == max {
        Some(LayoutKind::Trivial)
    } else if i8::MIN as i128 <= min && max <= i8::MAX as i128 {
        Some(LayoutKind::I8)
    } else if 0 <= min && max <= u8::MAX as i128 {
        Some(LayoutKind::U8)
    } else if i16::MIN as i128 <= min && max <= i16::MAX as i128 {
        Some(LayoutKind::I16)
    } else if 0 <= min && max <= u16::MAX as i128 {
        Some(LayoutKind::U16)
    } else if i32::MIN as i128 <= min && max <= i32::MAX as i128 {
        Some(LayoutKind::I32)
    } else if 0 <= min && max <= u32::MAX as i128 {
        Some(LayoutKind::U32)
    } else if i64::MIN as i128 <= min && max <= i64::MAX as i128 {
        Some(LayoutKind::I64)
    } else if 0 <= min && max <= u64::MAX as i128 {
        Some(LayoutKind::U64)
    } else {
        None
    }
}

/// Convert a boolean test to an [`OperationPossibility`].
pub fn allow_if(cond: bool) -> (r: OperationPossibility)
    ensures
        r == OperationPossibility::Allowed <==> cond,
{
    if cond {
        OperationPossibility::Allowed
    } else {
        OperationPossibility::Forbidden
    }
}

/// Byte width of the layout for `[min, max]`: 0 for a single value, the
/// width of the narrowest bracketing native kind otherwise, and the sentinel
/// 16 when the range is empty or fits no kind of the ladder.
pub fn memlayout(min: i128, max: i128) -> (r: usize)
    ensures
        r as int == spec_memlayout(min as int, max as int),
{
    match select_layout(min, max) {
        Some(k) => match k {
            LayoutKind::Trivial => 0,
            LayoutKind::I8 => 1,
            LayoutKind::U8 => 1,
            LayoutKind::I16 => 2,
            LayoutKind::U16 => 2,
            LayoutKind::I32 => 4,
            LayoutKind::U32 => 4,
            LayoutKind::I64 => 8,
            LayoutKind::U64 => 8,
        },
        None => 16,
    }
}

/// Whether a byte width reported by [`memlayout`] denotes a supported range.
pub fn allow_range(sz: usize) -> (r: OperationPossibility)
    ensures
        r == OperationPossibility::Allowed <==> sz <= 8,
{
    allow_if(sz <= 8)
}

/// Whether the value `v` may inhabit the range `[min, max]`.
pub fn allow_creation(min: i128, v: i128, max: i128) -> (r: OperationPossibility)
    ensures
        r == OperationPossibility::Allowed <==> min <= v <= max,
{
    allow_if(min <= v && v <= max)
}

/// Widening a range never shrinks its physical layout: when the wider range
/// `[min2, max2]` has a layout, so does the narrower `[min1, max1]`, and the
/// narrower layout occupies at most as many bytes.
pub proof fn lemma_layout_monotone(min1: int, max1: int, min2: int, max2: int)
    requires
        min2 <= min1 <= max1 <= max2,
        spec_supported(min2, max2),
    ensures
        spec_supported(min1, max1),
        spec_memlayout(min1, max1) <= spec_memlayout(min2, max2),
{
}

} // verus!

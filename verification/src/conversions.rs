//! Conversions between ranges and between [`Ranged`] and native integers.
//!
//! Widening (`expand`) is a pure relabelling, legal only when the target
//! range contains the source range.  Narrowing (`fit` and its siblings)
//! checks the concrete value against the target range and reports failure
//! when it does not fit.  The comparison-driven conversions
//! (`fit_less_than` and its siblings) narrow a bound using a just-proven
//! inequality against another value.

use vstd::prelude::*;
use vstd::string::StringSliceAdditionalSpecFns;

use crate::arithmetics::{iabs, tmod};
use crate::value_check::{in_irang, spec_supported, OperationPossibility};
use crate::Ranged;

verus! {

/// Whether a byte is an ASCII decimal digit.
pub open spec fn is_digit_byte(c: u8) -> bool {
    48 <= c <= 57
}

/// Whether every byte of `s` is a decimal digit.
pub open spec fn all_digit_bytes(s: Seq<u8>) -> bool {
    forall|i: int| 0 <= i < s.len() ==> is_digit_byte(#[trigger] s[i])
}

/// Value of the first `i` bytes of `s` read as decimal digits.
pub open spec fn digits_val(s: Seq<u8>, i: int) -> int
    decreases i,
{
    if i <= 0 {
        0
    } else {
        digits_val(s, i - 1) * 10 + (s[i - 1] - 48)
    }
}

/// Whether `s` is a decimal integer numeral: an optional sign followed by
/// at least one digit, and nothing else.
pub open spec fn spec_is_int_literal(s: Seq<u8>) -> bool {
    if s.len() == 0 {
        false
    } else if s[0] == 43 || s[0] == 45 {
        s.len() > 1 && all_digit_bytes(s.subrange(1, s.len() as int))
    } else {
        all_digit_bytes(s)
    }
}

/// The integer a numeral denotes.
pub open spec fn spec_literal_value(s: Seq<u8>) -> int {
    if s.len() > 0 && s[0] == 45 {
        -digits_val(s.subrange(1, s.len() as int), s.len() - 1)
    } else if s.len() > 0 && s[0] == 43 {
        digits_val(s.subrange(1, s.len() as int), s.len() - 1)
    } else {
        digits_val(s, s.len() as int)
    }
}

/// A digit string's value is non-negative and grows (weakly) with every
/// digit read.
proof fn lemma_digits_val_mono(s: Seq<u8>, k: int, j: int)
    requires
        0 <= k <= j <= s.len(),
        all_digit_bytes(s),
    ensures
        0 <= digits_val(s, k) <= digits_val(s, j),
    decreases j,
{
    if j > 0 {
        if k == j {
            lemma_digits_val_mono(s, j - 1, j - 1);
        } else {
            lemma_digits_val_mono(s, k, j - 1);
        }
    }
}

/// Failure to parse a [`Ranged`] from text.  `out_of_range` is set when
/// the text is a well-formed numeral whose value falls outside the
/// requested range (or outside the 128-bit domain altogether), and clear
/// when the text is not a numeral at all.
#[derive(Clone, Copy, Debug, PartialEq, Eq, Structural)]
pub struct ParseRangedError {
    /// `true`: a numeral out of range; `false`: not a numeral.
    pub out_of_range: bool,
}

impl Ranged {
    /// Parse a decimal numeral into the range `[min, max]`, distinguishing
    /// text that is not a numeral from a numeral whose value is out of
    /// range.
    pub fn from_str(min: i128, max: i128, s: &str) -> (r: Result<Ranged, ParseRangedError>)
        requires
            spec_supported(min as int, max as int),
        ensures
            r is Ok <==> (spec_is_int_literal(s.spec_bytes()) && in_irang(
                spec_literal_value(s.spec_bytes()),
            ) && min as int <= spec_literal_value(s.spec_bytes()) <= max as int),
            r is Ok ==> {
                &&& r->Ok_0.wf()
                &&& r->Ok_0.rmin() == min as int
                &&& r->Ok_0.rmax() == max as int
                &&& r->Ok_0.value() == spec_literal_value(s.spec_bytes())
            },
            r is Err ==> (r->Err_0.out_of_range <==> spec_is_int_literal(s.spec_bytes())),
    {
        let bytes = s.as_bytes();
        let n = bytes.len();
        if n == 0 {
            return Err(ParseRangedError { out_of_range: false });
        }
        let c0 = bytes[0];
        let start: usize = if c0 == 43 || c0 == 45 {
            1
        } else {
            0
        };
        let neg = c0 == 45;
        if start >= n {
            proof {
                assert(!spec_is_int_literal(bytes@));
            }
            return Err(ParseRangedError { out_of_range: false });
        }
        let ghost dsub = bytes@.subrange(start as int, n as int);
        let mut i = start;
        while i < n
            invariant
                start <= i <= n,
                n as int == bytes@.len(),
                start == 0 || start == 1,
                start == 1 <==> (bytes@[0] == 43 || bytes@[0] == 45),
                neg <==> bytes@[0] == 45,
                start < n,
                bytes@ == s.spec_bytes(),
                dsub == bytes@.subrange(start as int, n as int),
                forall|j: int| 0 <= j < i - start ==> is_digit_byte(#[trigger] dsub[j]),
            decreases n - i,
        {
            let c = bytes[i];
            if c < 48 || c > 57 {
                proof {
                    assert(!is_digit_byte(dsub[i - start]));
                    assert(!all_digit_bytes(dsub));
                    if start == 0 {
                        assert(dsub =~= bytes@);
                    } else {
                        assert(dsub =~= bytes@.subrange(1, bytes@.len() as int));
                    }
                    assert(!spec_is_int_literal(bytes@));
                }
                return Err(ParseRangedError { out_of_range: false });
            }
            i = i + 1;
        }
        proof {
            assert(all_digit_bytes(dsub));
            assert(n as int == bytes@.len());
            if start == 0 {
                assert(dsub =~= bytes@);
            } else {
                assert(dsub =~= bytes@.subrange(1, bytes@.len() as int));
            }
            assert(spec_is_int_literal(bytes@));
        }
        let mut acc: i128 = 0;
        let mut k = start;
        while k < n
            invariant
                start <= k <= n,
                n as int == bytes@.len(),
                start == 0 || start == 1,
                start == 1 <==> (bytes@[0] == 43 || bytes@[0] == 45),
                neg <==> bytes@[0] == 45,
                start < n,
                bytes@ == s.spec_bytes(),
                dsub == bytes@.subrange(start as int, n as int),
                all_digit_bytes(dsub),
                spec_is_int_literal(bytes@),
                i128::MIN <= acc <= 0,
                acc as int == -digits_val(dsub, k - start),
            decreases n - k,
        {
            proof {
                assert(is_digit_byte(dsub[k - start]));
                assert(dsub[k - start] == bytes@[k as int]);
            }
            let d = (bytes[k] - 48) as i128;
            let stepped = match acc.checked_mul(10) {
                Some(a10) => a10.checked_sub(d),
                None => None,
            };
            match stepped {
                Some(next_acc) => {
                    acc = next_acc;
                },
                None => {
                    proof {
                        if start == 0 {
                            assert(dsub =~= bytes@);
                        } else {
                            assert(dsub =~= bytes@.subrange(1, bytes@.len() as int));
                        }
                        lemma_digits_val_mono(dsub, k - start + 1, n - start);
                        assert(digits_val(dsub, k - start + 1) == digits_val(dsub, k - start) * 10
                            + (dsub[k - start] - 48));
                        assert(spec_literal_value(bytes@) == if neg {
                            -digits_val(dsub, n - start)
                        } else {
                            digits_val(dsub, n - start)
                        });
                    }
                    return Err(ParseRangedError { out_of_range: true });
                },
            }
            k = k + 1;
        }
        proof {
            lemma_digits_val_mono(dsub, n - start, n - start);
            assert(spec_literal_value(bytes@) == if neg {
                acc as int
            } else {
                -(acc as int)
            });
        }
        let v: i128 = if neg {
            acc
        } else if acc == i128::MIN {
            return Err(ParseRangedError { out_of_range: true });
        } else {
            -acc
        };
        if min <= v && v <= max {
            Ok(Ranged::unchecked_new(min, max, v))
        } else {
            Err(ParseRangedError { out_of_range: true })
        }
    }
}

/// Whether `[s_min, s_max]` may be relabelled to `[r_min, r_max]`: the
/// target must contain the source.
pub fn expansion_possible(s_min: i128, s_max: i128, r_min: i128, r_max: i128) -> (r:
    OperationPossibility)
    ensures
        r == OperationPossibility::Allowed <==> (r_min <= s_min && r_max >= s_max),
{
    crate::value_check::allow_if(r_min <= s_min && r_max >= s_max)
}

/// Strict-order test as an [`OperationPossibility`].
pub fn lessthan(a: i128, b: i128) -> (r: OperationPossibility)
    ensures
        r == OperationPossibility::Allowed <==> a < b,
{
    crate::value_check::allow_if(a < b)
}

/// Non-strict-order test as an [`OperationPossibility`].
pub fn lesseq(a: i128, b: i128) -> (r: OperationPossibility)
    ensures
        r == OperationPossibility::Allowed <==> a <= b,
{
    crate::value_check::allow_if(a <= b)
}

impl Ranged {
    /// Relabel the value with the wider range `[r_min, r_max]`; the value
    /// itself never changes.
    pub fn expand(self, r_min: i128, r_max: i128) -> (r: Ranged)
        requires
            self.wf(),
            spec_supported(r_min as int, r_max as int),
            r_min as int <= self.rmin(),
            r_max as int >= self.rmax(),
        ensures
            r.wf(),
            r.rmin() == r_min as int,
            r.rmax() == r_max as int,
            r.value() == self.value(),
    {
        Ranged::unchecked_new(r_min, r_max, self.get())
    }

    /// Move the value to the range `[r_min, r_max]`; `None` exactly when
    /// the value lies outside it.  On success the value is unchanged.
    pub fn fit(self, r_min: i128, r_max: i128) -> (r: Option<Ranged>)
        requires
            self.wf(),
            spec_supported(r_min as int, r_max as int),
        ensures
            r is Some <==> r_min as int <= self.value() <= r_max as int,
            r is Some ==> {
                &&& r->0.wf()
                &&& r->0.rmin() == r_min as int
                &&& r->0.rmax() == r_max as int
                &&& r->0.value() == self.value()
            },
    {
        Ranged::new(r_min, r_max, self.get())
    }

    /// Replace the upper bound by `r_max`; `None` exactly when the value
    /// exceeds it.
    pub fn fit_max(self, r_max: i128) -> (r: Option<Ranged>)
        requires
            self.wf(),
            spec_supported(self.rmin(), r_max as int),
        ensures
            r is Some <==> self.value() <= r_max as int,
            r is Some ==> {
                &&& r->0.wf()
                &&& r->0.rmin() == self.rmin()
                &&& r->0.rmax() == r_max as int
                &&& r->0.value() == self.value()
            },
    {
        Ranged::new(self.bound_min(), r_max, self.get())
    }

    /// Replace the lower bound by `r_min`; `None` exactly when the value
    /// falls below it.
    pub fn fit_min(self, r_min: i128) -> (r: Option<Ranged>)
        requires
            self.wf(),
            spec_supported(r_min as int, self.rmax()),
        ensures
            r is Some <==> r_min as int <= self.value(),
            r is Some ==> {
                &&& r->0.wf()
                &&& r->0.rmin() == r_min as int
                &&& r->0.rmax() == self.rmax()
                &&& r->0.value() == self.value()
            },
    {
        Ranged::new(r_min, self.bound_max(), self.get())
    }

    /// If the value is less than `other`, return it with its upper bound
    /// tightened to `other`'s; `None` exactly when the comparison fails.
    /// Offered only for ranges that interleave.
    pub fn fit_less_than(self, other: Ranged) -> (r: Option<Ranged>)
        requires
            self.wf(),
            other.wf(),
            other.rmax() < self.rmax(),
            self.rmin() < other.rmax(),
            spec_supported(self.rmin(), other.rmax()),
        ensures
            r is Some <==> self.value() < other.value(),
            r is Some ==> {
                &&& r->0.wf()
                &&& r->0.rmin() == self.rmin()
                &&& r->0.rmax() == other.rmax()
                &&& r->0.value() == self.value()
            },
    {
        if self.get() < other.get() {
            Some(Ranged::unchecked_new(self.bound_min(), other.bound_max(), self.get()))
        } else {
            None
        }
    }

    /// If the value is at most `other`, return it with its upper bound
    /// tightened to `other`'s; `None` exactly when the comparison fails.
    pub fn fit_less_eq(self, other: Ranged) -> (r: Option<Ranged>)
        requires
            self.wf(),
            other.wf(),
            other.rmax() < self.rmax(),
            self.rmin() <= other.rmax(),
            spec_supported(self.rmin(), other.rmax()),
        ensures
            r is Some <==> self.value() <= other.value(),
            r is Some ==> {
                &&& r->0.wf()
                &&& r->0.rmin() == self.rmin()
                &&& r->0.rmax() == other.rmax()
                &&& r->0.value() == self.value()
            },
    {
        if self.get() <= other.get() {
            Some(Ranged::unchecked_new(self.bound_min(), other.bound_max(), self.get()))
        } else {
            None
        }
    }

    /// If the value is greater than `other`, return it with its lower
    /// bound tightened to `other`'s; `None` exactly when the comparison
    /// fails.
    pub fn fit_greater_than(self, other: Ranged) -> (r: Option<Ranged>)
        requires
            self.wf(),
            other.wf(),
            self.rmin() < other.rmin(),
            other.rmin() < self.rmax(),
            spec_supported(other.rmin(), self.rmax()),
        ensures
            r is Some <==> self.value() > other.value(),
            r is Some ==> {
                &&& r->0.wf()
                &&& r->0.rmin() == other.rmin()
                &&& r->0.rmax() == self.rmax()
                &&& r->0.value() == self.value()
            },
    {
        if self.get() > other.get() {
            Some(Ranged::unchecked_new(other.bound_min(), self.bound_max(), self.get()))
        } else {
            None
        }
    }

    /// If the value is at least `other`, return it with its lower bound
    /// tightened to `other`'s; `None` exactly when the comparison fails.
    pub fn fit_greater_eq(self, other: Ranged) -> (r: Option<Ranged>)
        requires
            self.wf(),
            other.wf(),
            self.rmin() < other.rmin(),
            other.rmin() <= self.rmax(),
            spec_supported(other.rmin(), self.rmax()),
        ensures
            r is Some <==> self.value() >= other.value(),
            r is Some ==> {
                &&& r->0.wf()
                &&& r->0.rmin() == other.rmin()
                &&& r->0.rmax() == self.rmax()
                &&& r->0.value() == self.value()
            },
    {
        if self.get() >= other.get() {
            Some(Ranged::unchecked_new(other.bound_min(), self.bound_max(), self.get()))
        } else {
            None
        }
    }

    /// The value as `i8`; offered when the whole range fits `i8`.
    pub fn i8(self) -> (r: i8)
        requires
            self.wf(),
            i8::MIN <= self.rmin(),
            self.rmax() <= i8::MAX,
        ensures
            r as int == self.value(),
    {
        self.get() as i8
    }

    /// The value as `u8`; offered when the whole range fits `u8`.
    pub fn u8(self) -> (r: u8)
        requires
            self.wf(),
            0 <= self.rmin(),
            self.rmax() <= u8::MAX,
        ensures
            r as int == self.value(),
    {
        self.get() as u8
    }

    /// The value as `i16`; offered when the whole range fits `i16`.
    pub fn i16(self) -> (r: i16)
        requires
            self.wf(),
            i16::MIN <= self.rmin(),
            self.rmax() <= i16::MAX,
        ensures
            r as int == self.value(),
    {
        self.get() as i16
    }

    /// The value as `u16`; offered when the whole range fits `u16`.
    pub fn u16(self) -> (r: u16)
        requires
            self.wf(),
            0 <= self.rmin(),
            self.rmax() <= u16::MAX,
        ensures
            r as int == self.value(),
    {
        self.get() as u16
    }

    /// The value as `i32`; offered when the whole range fits `i32`.
    pub fn i32(self) -> (r: i32)
        requires
            self.wf(),
            i32::MIN <= self.rmin(),
            self.rmax() <= i32::MAX,
        ensures
            r as int == self.value(),
    {
        self.get() as i32
    }

    /// The value as `u32`; offered when the whole range fits `u32`.
    pub fn u32(self) -> (r: u32)
        requires
            self.wf(),
            0 <= self.rmin(),
            self.rmax() <= u32::MAX,
        ensures
            r as int == self.value(),
    {
        self.get() as u32
    }

    /// The value as `i64`; offered when the whole range fits `i64`.
    pub fn i64(self) -> (r: i64)
        requires
            self.wf(),
            i64::MIN <= self.rmin(),
            self.rmax() <= i64::MAX,
        ensures
            r as int == self.value(),
    {
        self.get() as i64
    }

    /// The value as `u64`; offered when the whole range fits `u64`.
    pub fn u64(self) -> (r: u64)
        requires
            self.wf(),
            0 <= self.rmin(),
            self.rmax() <= u64::MAX,
        ensures
            r as int == self.value(),
    {
        self.get() as u64
    }

    /// The value as `i128`; always offered.
    pub fn i128(self) -> (r: i128)
        requires
            self.wf(),
        ensures
            r as int == self.value(),
    {
        self.get()
    }

    /// The value as `usize`; offered when the whole range fits `usize`.
    pub fn usize(self) -> (r: usize)
        requires
            self.wf(),
            0 <= self.rmin(),
            self.rmax() <= usize::MAX,
        ensures
            r as int == self.value(),
    {
        self.get() as usize
    }

    /// The value as `isize`; offered when the whole range fits `isize`.
    pub fn isize(self) -> (r: isize)
        requires
            self.wf(),
            isize::MIN <= self.rmin(),
            self.rmax() <= isize::MAX,
        ensures
            r as int == self.value(),
    {
        self.get() as isize
    }
}

/// The outcome of splitting a range at a pivot: the value, relabelled into
/// whichever sub-range it inhabits.
#[derive(Clone, Copy, Debug)]
pub enum RangedSplit {
    /// The value lies below the pivot, in `[min, pivot - 1]`.
    Lower(Ranged),
    /// The value lies at or above the pivot, in `[pivot, max]`.
    Upper(Ranged),
}

impl Ranged {
    /// Case analysis at a pivot strictly inside the range: the value comes
    /// back tagged with the sub-range it lies in, unchanged.
    pub fn split(self, pivot: i128) -> (r: RangedSplit)
        requires
            self.wf(),
            self.rmin() < pivot as int <= self.rmax(),
        ensures
            match r {
                RangedSplit::Lower(l) => {
                    &&& self.value() < pivot as int
                    &&& l.wf()
                    &&& l.rmin() == self.rmin()
                    &&& l.rmax() == pivot as int - 1
                    &&& l.value() == self.value()
                },
                RangedSplit::Upper(u) => {
                    &&& self.value() >= pivot as int
                    &&& u.wf()
                    &&& u.rmin() == pivot as int
                    &&& u.rmax() == self.rmax()
                    &&& u.value() == self.value()
                },
            },
    {
        proof {
            crate::value_check::lemma_layout_monotone(
                self.rmin(),
                pivot as int - 1,
                self.rmin(),
                self.rmax(),
            );
            crate::value_check::lemma_layout_monotone(
                pivot as int,
                self.rmax(),
                self.rmin(),
                self.rmax(),
            );
        }
        let v = self.get();
        if v < pivot {
            RangedSplit::Lower(Ranged::unchecked_new(self.bound_min(), pivot - 1, v))
        } else {
            RangedSplit::Upper(Ranged::unchecked_new(pivot, self.bound_max(), v))
        }
    }

    /// As [`Ranged::split`], but the upper branch is rebased at zero: the
    /// pivot is subtracted from the value and both its bounds.
    pub fn split_subtract(self, pivot: i128) -> (r: RangedSplit)
        requires
            self.wf(),
            self.rmin() < pivot as int <= self.rmax(),
        ensures
            match r {
                RangedSplit::Lower(l) => {
                    &&& self.value() < pivot as int
                    &&& l.wf()
                    &&& l.rmin() == self.rmin()
                    &&& l.rmax() == pivot as int - 1
                    &&& l.value() == self.value()
                },
                RangedSplit::Upper(u) => {
                    &&& self.value() >= pivot as int
                    &&& u.wf()
                    &&& u.rmin() == 0
                    &&& u.rmax() == self.rmax() - pivot as int
                    &&& u.value() == self.value() - pivot as int
                },
            },
    {
        proof {
            crate::value_check::lemma_layout_monotone(
                self.rmin(),
                pivot as int - 1,
                self.rmin(),
                self.rmax(),
            );
        }
        let v = self.get();
        if v < pivot {
            RangedSplit::Lower(Ranged::unchecked_new(self.bound_min(), pivot - 1, v))
        } else {
            RangedSplit::Upper(Ranged::unchecked_new(0, self.bound_max() - pivot, v - pivot))
        }
    }
}

/// Remainder of a signed native integer by a single-valued [`Ranged`]
/// divisor: the result carries the range `[1 - |d|, |d| - 1]`.
pub fn int_rem(n: i128, rhs: Ranged) -> (r: Ranged)
    requires
        rhs.wf(),
        rhs.rmin() == rhs.rmax(),
        rhs.value() != 0,
        rhs.rmin() > i128::MIN,
        spec_supported(1 - iabs(rhs.value()), iabs(rhs.value()) - 1),
    ensures
        r.wf(),
        r.rmin() == 1 - iabs(rhs.value()),
        r.rmax() == iabs(rhs.value()) - 1,
        r.value() == tmod(n as int, rhs.value()),
{
    proof {
        crate::arithmetics::lemma_tmod_bounds(n as int, rhs.value());
    }
    let d = rhs.get();
    let ad = if d < 0 { -d } else { d };
    let v = crate::arithmetics::rem_tr(n, d);
    Ranged::unchecked_new(1 - ad, ad - 1, v)
}

/// Remainder of an unsigned native integer by a single-valued [`Ranged`]
/// divisor: the result carries the range `[0, |d| - 1]`.
pub fn uint_rem(n: u64, rhs: Ranged) -> (r: Ranged)
    requires
        rhs.wf(),
        rhs.rmin() == rhs.rmax(),
        rhs.value() != 0,
        rhs.rmin() > i128::MIN,
        spec_supported(0, iabs(rhs.value()) - 1),
    ensures
        r.wf(),
        r.rmin() == 0,
        r.rmax() == iabs(rhs.value()) - 1,
        r.value() == tmod(n as int, rhs.value()),
{
    proof {
        crate::arithmetics::lemma_tmod_bounds(n as int, rhs.value());
    }
    let d = rhs.get();
    let ad = if d < 0 { -d } else { d };
    let v = crate::arithmetics::rem_tr(n as i128, d);
    Ranged::unchecked_new(0, ad - 1, v)
}

/// Convert a native integer to a [`Ranged`] carrying the native type's own
/// bounds.
pub trait AsRanged: Sized {
    /// Lower bound of the native type, as a mathematical integer.
    spec fn native_min() -> int;

    /// Upper bound of the native type, as a mathematical integer.
    spec fn native_max() -> int;

    /// The converted value, as a mathematical integer.
    spec fn as_int(self) -> int;

    /// Wrap the value in a [`Ranged`] spanning the native type's range.
    fn as_ranged(self) -> (r: Ranged)
        ensures
            r.wf(),
            r.rmin() == Self::native_min(),
            r.rmax() == Self::native_max(),
            r.value() == self.as_int(),
    ;
}

impl AsRanged for i8 {
    open spec fn native_min() -> int {
        i8::MIN as int
    }

    open spec fn native_max() -> int {
        i8::MAX as int
    }

    open spec fn as_int(self) -> int {
        self as int
    }

    fn as_ranged(self) -> (r: Ranged) {
        Ranged::unchecked_new(i8::MIN as i128, i8::MAX as i128, self as i128)
    }
}

impl AsRanged for u8 {
    open spec fn native_min() -> int {
        0
    }

    open spec fn native_max() -> int {
        u8::MAX as int
    }

    open spec fn as_int(self) -> int {
        self as int
    }

    fn as_ranged(self) -> (r: Ranged) {
        Ranged::unchecked_new(0, u8::MAX as i128, self as i128)
    }
}

impl AsRanged for i16 {
    open spec fn native_min() -> int {
        i16::MIN as int
    }

    open spec fn native_max() -> int {
        i16::MAX as int
    }

    open spec fn as_int(self) -> int {
        self as int
    }

    fn as_ranged(self) -> (r: Ranged) {
        Ranged::unchecked_new(i16::MIN as i128, i16::MAX as i128, self as i128)
    }
}

impl AsRanged for u16 {
    open spec fn native_min() -> int {
        0
    }

    open spec fn native_max() -> int {
        u16::MAX as int
    }

    open spec fn as_int(self) -> int {
        self as int
    }

    fn as_ranged(self) -> (r: Ranged) {
        Ranged::unchecked_new(0, u16::MAX as i128, self as i128)
    }
}

impl AsRanged for i32 {
    open spec fn native_min() -> int {
        i32::MIN as int
    }

    open spec fn native_max() -> int {
        i32::MAX as int
    }

    open spec fn as_int(self) -> int {
        self as int
    }

    fn as_ranged(self) -> (r: Ranged) {
        Ranged::unchecked_new(i32::MIN as i128, i32::MAX as i128, self as i128)
    }
}

impl AsRanged for u32 {
    open spec fn native_min() -> int {
        0
    }

    open spec fn native_max() -> int {
        u32::MAX as int
    }

    open spec fn as_int(self) -> int {
        self as int
    }

    fn as_ranged(self) -> (r: Ranged) {
        Ranged::unchecked_new(0, u32::MAX as i128, self as i128)
    }
}

impl AsRanged for i64 {
    open spec fn native_min() -> int {
        i64::MIN as int
    }

    open spec fn native_max() -> int {
        i64::MAX as int
    }

    open spec fn as_int(self) -> int {
        self as int
    }

    fn as_ranged(self) -> (r: Ranged) {
        Ranged::unchecked_new(i64::MIN as i128, i64::MAX as i128, self as i128)
    }
}

impl AsRanged for u64 {
    open spec fn native_min() -> int {
        0
    }

    open spec fn native_max() -> int {
        u64::MAX as int
    }

    open spec fn as_int(self) -> int {
        self as int
    }

    fn as_ranged(self) -> (r: Ranged) {
        Ranged::unchecked_new(0, u64::MAX as i128, self as i128)
    }
}

impl AsRanged for isize {
    open spec fn native_min() -> int {
        isize::MIN as int
    }

    open spec fn native_max() -> int {
        isize::MAX as int
    }

    open spec fn as_int(self) -> int {
        self as int
    }

    fn as_ranged(self) -> (r: Ranged) {
        Ranged::unchecked_new(isize::MIN as i128, isize::MAX as i128, self as i128)
    }
}

impl AsRanged for usize {
    open spec fn native_min() -> int {
        0
    }

    open spec fn native_max() -> int {
        usize::MAX as int
    }

    open spec fn as_int(self) -> int {
        self as int
    }

    fn as_ranged(self) -> (r: Ranged) {
        Ranged::unchecked_new(0, usize::MAX as i128, self as i128)
    }
}

} // verus!

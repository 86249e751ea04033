//! Bounded integers with verified range propagation.
//!
//! A [`Ranged`] value carries an inclusive range `[min, max]` of 128-bit
//! signed integers together with a value proved to lie inside it.  The
//! companion modules provide:
//!
//! - a layout selector that maps a range to the narrowest native integer
//!   kind able to hold it ([`value_check`]);
//! - a storage codec that encodes a value into that kind's little-endian
//!   two's-complement byte pattern and back ([`holder`]);
//! - arithmetic whose result ranges are computed from the operand ranges and
//!   proved to contain every reachable result ([`arithmetics`]);
//! - conversions that move a value between ranges, either widening (always
//!   value-preserving) or narrowing under a containment check
//!   ([`conversions`]);
//! - ascending iteration over a range ([`iter`]); and
//! - decimal formatting and parsing ([`text`]).

use vstd::prelude::*;

pub mod value_check;

pub mod holder;

pub mod arithmetics;

pub mod conversions;

pub mod iter;

pub mod text;

use crate::holder::{decode_spec, RangedRepr};
use crate::value_check::{kind_max, kind_min, spec_select, spec_supported, LayoutKind};

verus! {

/// A 128-bit signed integer confined to an inclusive range.
///
/// The range is part of the value; the payload is stored in the byte pattern
/// of the narrowest native kind that brackets the range, or in no bytes at
/// all when the range has a single inhabitant.
#[derive(Clone, Copy, Debug, Hash)]
pub struct Ranged {
    min: i128,
    max: i128,
    v: RangedRepr,
}

impl Ranged {
    /// Lower bound of the range.
    pub closed spec fn rmin(self) -> int {
        self.min as int
    }

    /// Upper bound of the range.
    pub closed spec fn rmax(self) -> int {
        self.max as int
    }

    /// The confined value: implied by a single-valued range, read back
    /// from the stored byte pattern otherwise, and zero for a value whose
    /// range has no layout at all (no such value is well-formed).
    pub closed spec fn value(self) -> int {
        if self.min == self.max {
            self.min as int
        } else {
            match spec_select(self.min as int, self.max as int) {
                Some(k) => decode_spec(k, self.v@),
                None => 0,
            }
        }
    }

    /// Well-formedness: the range has a layout and the value lies inside it.
    pub open spec fn wf(self) -> bool {
        &&& spec_supported(self.rmin(), self.rmax())
        &&& self.rmin() <= self.value() <= self.rmax()
    }

    /// Wrap a value already known to lie in the range.
    pub(crate) fn unchecked_new(min: i128, max: i128, n: i128) -> (r: Ranged)
        requires
            spec_supported(min as int, max as int),
            min <= n <= max,
        ensures
            r.wf(),
            r.rmin() == min as int,
            r.rmax() == max as int,
            r.value() == n as int,
    {
        if min == max {
            Ranged { min, max, v: RangedRepr::new() }
        } else {
            let k = match select_layout_checked(min, max) {
                Some(k) => k,
                None => LayoutKind::Trivial,
            };
            proof {
                assert(k == spec_select(min as int, max as int)->Some_0);
                assert(kind_min(k) <= min as int && max as int <= kind_max(k));
            }
            Ranged { min, max, v: RangedRepr::from_irang(k, n) }
        }
    }

    /// Create a value after checking it against the range; `None` exactly
    /// when `n` lies outside `[min, max]`.
    pub fn new(min: i128, max: i128, n: i128) -> (r: Option<Ranged>)
        requires
            spec_supported(min as int, max as int),
        ensures
            r is Some <==> min <= n <= max,
            r is Some ==> {
                &&& r->0.wf()
                &&& r->0.rmin() == min as int
                &&& r->0.rmax() == max as int
                &&& r->0.value() == n as int
            },
    {
        if min <= n && n <= max {
            Some(Self::unchecked_new(min, max, n))
        } else {
            None
        }
    }

    /// Create a value whose membership in the range is established up
    /// front; out-of-range values are rejected before the call can be made.
    pub fn create_const(min: i128, max: i128, v: i128) -> (r: Ranged)
        requires
            spec_supported(min as int, max as int),
            min <= v <= max,
        ensures
            r.wf(),
            r.rmin() == min as int,
            r.rmax() == max as int,
            r.value() == v as int,
    {
        Self::unchecked_new(min, max, v)
    }

    /// Read the confined value back as a native integer.
    pub fn get(self) -> (r: i128)
        ensures
            r as int == self.value(),
    {
        if self.min == self.max {
            self.min
        } else {
            match crate::value_check::select_layout(self.min, self.max) {
                Some(k) => self.v.to_irang(k),
                None => 0,
            }
        }
    }

    /// Lower bound of the range as a native integer.
    pub fn bound_min(self) -> (r: i128)
        ensures
            r as int == self.rmin(),
    {
        self.min
    }

    /// Upper bound of the range as a native integer.
    pub fn bound_max(self) -> (r: i128)
        ensures
            r as int == self.rmax(),
    {
        self.max
    }
}

/// The layout selector, specialised to ranges already known to be supported.
fn select_layout_checked(min: i128, max: i128) -> (r: Option<LayoutKind>)
    requires
        spec_supported(min as int, max as int),
    ensures
        r == spec_select(min as int, max as int),
        r is Some,
{
    crate::value_check::select_layout(min, max)
}

} // verus!

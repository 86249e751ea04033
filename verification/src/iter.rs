//! Ascending iteration over a range, one [`Ranged`] value at a time.

use vstd::prelude::*;

use crate::value_check::{spec_supported, OperationPossibility};
use crate::Ranged;

verus! {
/// An iterator that walks from a current value up to the upper bound of
/// its range, inclusively.
#[derive(Clone, Copy)]
pub struct Iter {
    current: Option<Ranged>,
}

/// An inclusive range `min ..= max` from which an iterator of [`Ranged`]
/// values can be made.
#[derive(Clone, Copy)]
pub struct ConstInclusiveRange {
    min: i128,
    max: i128,
}

/// How one step of iteration leaves the iterator: exhausted after the
/// yielded value reaches the upper bound, else holding the successor.
pub open spec fn next_step(c: Ranged, after: Option<Ranged>) -> bool {
    &&& c.value() == c.rmax() ==> after is None
    &&& c.value() < c.rmax() ==> {
        &&& after is Some
        &&& after->0.wf()
        &&& after->0.rmin() == c.rmin()
        &&& after->0.rmax() == c.rmax()
        &&& after->0.value() == c.value() + 1
    }
}

impl Iter {
    /// The next value to be yielded, if any.
    pub closed spec fn spec_current(self) -> Option<Ranged> {
        self.current
    }

    /// Well-formedness: a pending value is itself well-formed.
    pub open spec fn wf(self) -> bool {
        self.spec_current() is Some ==> self.spec_current()->0.wf()
    }

    /// Yield the current value and step to its successor; `None` once the
    /// upper bound has been passed.
    pub fn next(&mut self) -> (r: Option<Ranged>)
        requires
            old(self).wf(),
        ensures
            final(self).wf(),
            r == old(self).spec_current(),
            old(self).spec_current() is None ==> final(self).spec_current() is None,
            old(self).spec_current() is Some ==> next_step(
                old(self).spec_current()->0,
                final(self).spec_current(),
            ),
    {
        match self.current {
            None => None,
            Some(curr) => {
                let cval = curr.get();
                if cval == curr.bound_max() {
                    self.current = None;
                } else {
                    self.current = Some(
                        Ranged::unchecked_new(curr.bound_min(), curr.bound_max(), cval + 1),
                    );
                }
                Some(curr)
            },
        }
    }

    /// Skip `n` values, then yield as [`Iter::next`] does: the value `n`
    /// above the current one, or `None` when that passes the upper bound.
    pub fn nth(&mut self, n: usize) -> (r: Option<Ranged>)
        requires
            old(self).wf(),
        ensures
            final(self).wf(),
            old(self).spec_current() is None ==> (r is None && final(self).spec_current()
                is None),
            old(self).spec_current() is Some ==> {
                let c = old(self).spec_current()->0;
                let t = c.value() + n as int;
                &&& t > c.rmax() ==> (r is None && final(self).spec_current() is None)
                &&& t <= c.rmax() ==> {
                    &&& r is Some
                    &&& r->0.wf()
                    &&& r->0.rmin() == c.rmin()
                    &&& r->0.rmax() == c.rmax()
                    &&& r->0.value() == t
                    &&& t == c.rmax() ==> final(self).spec_current() is None
                    &&& t < c.rmax() ==> (final(self).spec_current() is Some
                        && final(self).spec_current()->0.value() == t + 1)
                }
            },
    {
        match self.current {
            None => None,
            Some(curr) => {
                let cval = curr.get();
                match cval.checked_add(n as i128) {
                    Some(target) => {
                        if target <= curr.bound_max() {
                            self.current = Some(
                                Ranged::unchecked_new(curr.bound_min(), curr.bound_max(), target),
                            );
                            self.next()
                        } else {
                            self.current = None;
                            None
                        }
                    },
                    None => {
                        self.current = None;
                        None
                    },
                }
            },
        }
    }
}

impl ConstInclusiveRange {
    /// Lower end of the range.
    pub closed spec fn spec_min(self) -> int {
        self.min as int
    }

    /// Upper end of the range.
    pub closed spec fn spec_max(self) -> int {
        self.max as int
    }

    /// Well-formedness: the range has a layout.
    pub open spec fn wf(self) -> bool {
        spec_supported(self.spec_min(), self.spec_max())
    }

    /// Make the inclusive range `min ..= max`.
    pub fn new(min: i128, max: i128) -> (r: Self)
        requires
            spec_supported(min as int, max as int),
        ensures
            r.wf(),
            r.spec_min() == min as int,
            r.spec_max() == max as int,
    {
        ConstInclusiveRange { min, max }
    }

    /// An iterator that yields the whole range in ascending order.
    pub fn into_iter(self) -> (it: Iter)
        requires
            self.wf(),
        ensures
            it.wf(),
            it.spec_current() is Some,
            it.spec_current()->0.wf(),
            it.spec_current()->0.rmin() == self.spec_min(),
            it.spec_current()->0.rmax() == self.spec_max(),
            it.spec_current()->0.value() == self.spec_min(),
    {
        Iter { current: Some(Ranged::unchecked_new(self.min, self.max, self.min)) }
    }
}

impl Ranged {
    /// An iterator from the current value up to the range's upper bound,
    /// inclusively.
    pub fn iter_up(self) -> (it: Iter)
        requires
            self.wf(),
        ensures
            it.wf(),
            it.spec_current() == Some(self),
    {
        Iter { current: Some(self) }
    }
}

pub fn range_fits_usize(min: i128, max: i128) -> (r: OperationPossibility)
    requires
        crate::value_check::in_irang((max as int) - (min as int)),
    ensures
        r == OperationPossibility::Allowed <==> (max as int) - (min as int) < (usize::MAX as int),
{
    crate::value_check::allow_if(max - min < usize::MAX as i128)
}

} // verus!

//! Decimal text for [`Ranged`] values: rendering the value, and rendering
//! the conventional constructor notation that names the range as well.

use vstd::prelude::*;
use vstd::string::StringExecFns;

use crate::Ranged;

verus! {

/// The character of one decimal digit.
pub open spec fn digit_char(d: int) -> char {
    if d == 0 {
        '0'
    } else if d == 1 {
        '1'
    } else if d == 2 {
        '2'
    } else if d == 3 {
        '3'
    } else if d == 4 {
        '4'
    } else if d == 5 {
        '5'
    } else if d == 6 {
        '6'
    } else if d == 7 {
        '7'
    } else if d == 8 {
        '8'
    } else {
        '9'
    }
}

/// Decimal digits of a non-negative integer, most significant first.
pub open spec fn dec_digits(n: int) -> Seq<char>
    recommends
        n >= 0,
    decreases n,
{
    if n < 10 {
        seq![digit_char(n)]
    } else {
        dec_digits(n / 10) + seq![digit_char(n % 10)]
    }
}

/// Decimal rendering of an integer, with a leading minus sign when
/// negative.
pub open spec fn dec_str(v: int) -> Seq<char> {
    if v < 0 {
        seq!['-'] + dec_digits(-v)
    } else {
        dec_digits(v)
    }
}

/// One digit as a string slice.
fn digit_str(d: u128) -> (r: &'static str)
    requires
        d < 10,
    ensures
        r@ == seq![digit_char(d as int)],
{
    let r: &'static str = match d {
        0 => "0",
        1 => "1",
        2 => "2",
        3 => "3",
        4 => "4",
        5 => "5",
        6 => "6",
        7 => "7",
        8 => "8",
        _ => "9",
    };
    proof {
        reveal_strlit("0");
        reveal_strlit("1");
        reveal_strlit("2");
        reveal_strlit("3");
        reveal_strlit("4");
        reveal_strlit("5");
        reveal_strlit("6");
        reveal_strlit("7");
        reveal_strlit("8");
        reveal_strlit("9");
        assert(r@ =~= seq![digit_char(d as int)]);
    }
    r
}

/// Append the decimal digits of `m` to `s`, most significant first.
fn push_digits(s: &mut String, m: u128)
    ensures
        final(s)@ == old(s)@ + dec_digits(m as int),
    decreases m,
{
    if m < 10 {
        s.append(digit_str(m));
    } else {
        let q = m / 10;
        let d = m % 10;
        push_digits(s, q);
        s.append(digit_str(d));
        proof {
            assert(s@ =~= old(s)@ + dec_digits(m as int));
        }
    }
}

/// Append the decimal rendering of `v` to `s`.
fn push_irang(s: &mut String, v: i128)
    ensures
        final(s)@ == old(s)@ + dec_str(v as int),
{
    if v < 0 {
        s.append("-");
        let m: u128 = ((-(v + 1)) as u128) + 1;
        push_digits(s, m);
        proof {
            reveal_strlit("-");
            assert(("-")@ =~= seq!['-']);
            assert(s@ =~= old(s)@ + dec_str(v as int));
        }
    } else {
        push_digits(s, v as u128);
    }
}

impl Ranged {
    /// The value rendered in decimal.
    pub fn to_string(self) -> (r: String)
        requires
            self.wf(),
        ensures
            r@ == dec_str(self.value()),
    {
        let mut s = String::new();
        push_irang(&mut s, self.get());
        proof {
            assert(s@ =~= dec_str(self.value()));
        }
        s
    }

    /// The value and its range in the conventional constructor notation:
    /// `r!(v)` for a single-valued range, `r!([min max] v)` otherwise.
    pub fn fmt_debug(self) -> (r: String)
        requires
            self.wf(),
        ensures
            r@ == debug_repr(self.rmin(), self.rmax(), self.value()),
    {
        let mut s = String::new();
        if self.bound_min() == self.bound_max() {
            s.append("r!(");
            push_irang(&mut s, self.get());
            s.append(")");
        } else {
            s.append("r!([");
            push_irang(&mut s, self.bound_min());
            s.append(" ");
            push_irang(&mut s, self.bound_max());
            s.append("] ");
            push_irang(&mut s, self.get());
            s.append(")");
        }
        proof {
            assert(s@ =~= debug_repr(self.rmin(), self.rmax(), self.value()));
        }
        s
    }
}

/// The constructor notation for a value `v` in the range `[min, max]`.
pub open spec fn debug_repr(min: int, max: int, v: int) -> Seq<char> {
    if min == max {
        ("r!(")@ + dec_str(v) + (")")@
    } else {
        ("r!([")@ + dec_str(min) + (" ")@ + dec_str(max) + ("] ")@ + dec_str(v) + (")")@
    }
}

} // verus!

//! The bound-propagation arithmetic engine.
//!
//! Every operation first computes the range of its result from the ranges of
//! its operands; the public proof functions state the soundness law: for any
//! operands inside their ranges, the result of the operation lies inside the
//! propagated range.  For division and remainder the divisor range must not
//! be able to contain zero; the remainder ranges are conservative supersets
//! of the reachable values, exact when the divisor is a single constant and
//! the dividend does not cross a multiple of it.

use vstd::arithmetic::div_mod::{
    lemma_basic_div, lemma_div_is_ordered, lemma_div_is_ordered_by_denominator,
    lemma_div_multiples_vanish, lemma_div_nonincreasing, lemma_div_pos_is_pos,
    lemma_fundamental_div_mod, lemma_fundamental_div_mod_converse_div,
    lemma_fundamental_div_mod_converse_mod, lemma_mod_bound, lemma_small_mod,
};
use vstd::arithmetic::mul::{
    lemma_mul_inequality, lemma_mul_is_commutative, lemma_mul_nonnegative,
    lemma_mul_unary_negation,
};
use vstd::prelude::*;

use crate::value_check::{in_irang, spec_supported, OperationPossibility};
use crate::Ranged;

verus! {

/// Absolute value, on mathematical integers.
pub open spec fn iabs(x: int) -> int {
    if x < 0 {
        -x
    } else {
        x
    }
}

/// Smaller of two integers.
pub open spec fn min2(x: int, y: int) -> int {
    if x < y {
        x
    } else {
        y
    }
}

/// Larger of two integers.
pub open spec fn max2(x: int, y: int) -> int {
    if x > y {
        x
    } else {
        y
    }
}

/// Smallest of four integers.
pub open spec fn min4(a: int, b: int, c: int, d: int) -> int {
    min2(min2(a, b), min2(c, d))
}

/// Largest of four integers.
pub open spec fn max4(a: int, b: int, c: int, d: int) -> int {
    max2(max2(a, b), max2(c, d))
}

/// Truncating division, the semantics of native signed division: the
/// quotient is rounded toward zero.
pub open spec fn tdiv(x: int, d: int) -> int
    recommends
        d != 0,
{
    if x == 0 {
        0
    } else if x > 0 && d > 0 {
        x / d
    } else if x < 0 && d < 0 {
        (-x) / (-d)
    } else if x < 0 {
        -((-x) / d)
    } else {
        -(x / (-d))
    }
}

/// Truncating remainder, the semantics of native signed remainder: its sign
/// follows the dividend.
pub open spec fn tmod(x: int, d: int) -> int
    recommends
        d != 0,
{
    if x == 0 {
        0
    } else if x > 0 && d > 0 {
        x % d
    } else if x < 0 && d < 0 {
        -((-x) % (-d))
    } else if x < 0 {
        -((-x) % d)
    } else {
        x % (-d)
    }
}

/// Largest of the four corner products of `[a_min, a_max]` and
/// `[b_min, b_max]`.
pub open spec fn spec_max_cross(a_min: int, a_max: int, b_min: int, b_max: int) -> int {
    max4(a_min * b_min, a_min * b_max, a_max * b_min, a_max * b_max)
}

/// Smallest of the four corner products.
pub open spec fn spec_min_cross(a_min: int, a_max: int, b_min: int, b_max: int) -> int {
    min4(a_min * b_min, a_min * b_max, a_max * b_min, a_max * b_max)
}

/// Whether division by any value of `[b_min, b_max]` is legal: the range
/// must lie strictly on one side of zero.
pub open spec fn spec_allow_division(b_min: int, b_max: int) -> bool {
    (b_min > 0 && b_max > 0) || (b_min < 0 && b_max < 0)
}

/// For one factor held fixed, the product over an interval of the other
/// factor is bracketed by the products at the interval's ends.
proof fn lemma_mul_fixed_left(x: int, b0: int, b: int, b1: int)
    requires
        b0 <= b <= b1,
    ensures
        min2(x * b0, x * b1) <= x * b <= max2(x * b0, x * b1),
{
    if x >= 0 {
        lemma_mul_inequality(b0, b, x);
        lemma_mul_inequality(b, b1, x);
    } else {
        lemma_mul_inequality(b0, b, -x);
        lemma_mul_inequality(b, b1, -x);
        lemma_mul_unary_negation(x, b0);
        lemma_mul_unary_negation(x, b);
        lemma_mul_unary_negation(x, b1);
    }
}

/// Soundness of the corner-product range: every product of in-range factors
/// lies between the smallest and largest corner product.
pub proof fn lemma_mul_in_cross(a0: int, a1: int, b0: int, b1: int, a: int, b: int)
    requires
        a0 <= a <= a1,
        b0 <= b <= b1,
    ensures
        spec_min_cross(a0, a1, b0, b1) <= a * b <= spec_max_cross(a0, a1, b0, b1),
{
    lemma_mul_fixed_left(a, b0, b, b1);
    lemma_mul_fixed_left(b0, a0, a, a1);
    lemma_mul_fixed_left(b1, a0, a, a1);
    assert(a * b0 == b0 * a && a0 * b0 == b0 * a0 && a1 * b0 == b0 * a1) by {
        lemma_mul_is_commutative(a, b0);
        lemma_mul_is_commutative(a0, b0);
        lemma_mul_is_commutative(a1, b0);
    }
    assert(a * b1 == b1 * a && a0 * b1 == b1 * a0 && a1 * b1 == b1 * a1) by {
        lemma_mul_is_commutative(a, b1);
        lemma_mul_is_commutative(a0, b1);
        lemma_mul_is_commutative(a1, b1);
    }
}

/// Largest corner product, executable.
pub fn max_cross(a_min: i128, a_max: i128, b_min: i128, b_max: i128) -> (r: i128)
    requires
        in_irang(a_min * b_min),
        in_irang(a_min * b_max),
        in_irang(a_max * b_min),
        in_irang(a_max * b_max),
    ensures
        r as int == spec_max_cross(a_min as int, a_max as int, b_min as int, b_max as int),
{
    let p1 = a_min * b_min;
    let p2 = a_min * b_max;
    let p3 = a_max * b_min;
    let p4 = a_max * b_max;
    let m1 = if p1 > p2 { p1 } else { p2 };
    let m2 = if p3 > p4 { p3 } else { p4 };
    if m1 > m2 { m1 } else { m2 }
}

/// Smallest corner product, executable.
pub fn min_cross(a_min: i128, a_max: i128, b_min: i128, b_max: i128) -> (r: i128)
    requires
        in_irang(a_min * b_min),
        in_irang(a_min * b_max),
        in_irang(a_max * b_min),
        in_irang(a_max * b_max),
    ensures
        r as int == spec_min_cross(a_min as int, a_max as int, b_min as int, b_max as int),
{
    let p1 = a_min * b_min;
    let p2 = a_min * b_max;
    let p3 = a_max * b_min;
    let p4 = a_max * b_max;
    let m1 = if p1 < p2 { p1 } else { p2 };
    let m2 = if p3 < p4 { p3 } else { p4 };
    if m1 < m2 { m1 } else { m2 }
}

/// The division guard: `Allowed` exactly when the divisor range cannot
/// contain zero.
pub fn allow_division(b_min: i128, b_max: i128) -> (r: OperationPossibility)
    ensures
        r == OperationPossibility::Allowed <==> spec_allow_division(b_min as int, b_max as int),
{
    if ((b_min > 0) && (b_max > 0)) || ((b_min < 0) && (b_max < 0)) {
        OperationPossibility::Allowed
    } else {
        OperationPossibility::Forbidden
    }
}

/// Smallest of the four corner quotients under truncating division.
pub open spec fn spec_div_min(a0: int, a1: int, b0: int, b1: int) -> int {
    min4(tdiv(a0, b0), tdiv(a0, b1), tdiv(a1, b0), tdiv(a1, b1))
}

/// Largest of the four corner quotients under truncating division.
pub open spec fn spec_div_max(a0: int, a1: int, b0: int, b1: int) -> int {
    max4(tdiv(a0, b0), tdiv(a0, b1), tdiv(a1, b0), tdiv(a1, b1))
}

/// Smallest of the four corner quotients under Euclidean division.
pub open spec fn spec_div_euclid_min(a0: int, a1: int, b0: int, b1: int) -> int {
    min4(a0 / b0, a0 / b1, a1 / b0, a1 / b1)
}

/// Largest of the four corner quotients under Euclidean division.
pub open spec fn spec_div_euclid_max(a0: int, a1: int, b0: int, b1: int) -> int {
    max4(a0 / b0, a0 / b1, a1 / b0, a1 / b1)
}

/// Dividing by a negated divisor negates the Euclidean quotient and keeps
/// the Euclidean remainder.
proof fn lemma_ediv_neg(x: int, d: int)
    requires
        d > 0,
    ensures
        x / (-d) == -(x / d),
        x % (-d) == x % d,
{
    lemma_fundamental_div_mod(x, -d);
    let q = x / (-d);
    let r = x % (-d);
    assert(0 <= r < d);
    assert((-d) * q == -(d * q)) by {
        lemma_mul_unary_negation(d, q);
    }
    assert((-q) * d == -(q * d)) by {
        lemma_mul_unary_negation(q, d);
    }
    assert(q * d == d * q) by {
        lemma_mul_is_commutative(q, d);
    }
    assert(x == (-q) * d + r);
    lemma_fundamental_div_mod_converse_div(x, d, -q, r);
    lemma_fundamental_div_mod_converse_mod(x, d, -q, r);
}

/// For a negative dividend the Euclidean quotient grows with the divisor.
proof fn lemma_ediv_neg_num_mono_den(x: int, b0: int, b1: int)
    requires
        x < 0,
        0 < b0 <= b1,
    ensures
        x / b0 <= x / b1,
{
    lemma_fundamental_div_mod(x, b0);
    let q = x / b0;
    let r = x % b0;
    assert(0 <= r < b0);
    assert(q < 0) by {
        if q >= 0 {
            lemma_mul_nonnegative(b0, q);
        }
    }
    assert(q * b1 <= q * b0) by {
        lemma_mul_inequality(b0, b1, -q);
        lemma_mul_unary_negation(q, b0);
        lemma_mul_unary_negation(q, b1);
        lemma_mul_is_commutative(q, b0);
        lemma_mul_is_commutative(q, b1);
    }
    assert(q * b0 == b0 * q) by {
        lemma_mul_is_commutative(q, b0);
    }
    assert(q * b1 <= x);
    assert((q * b1) / b1 == q) by {
        lemma_div_multiples_vanish(q, b1);
        lemma_mul_is_commutative(q, b1);
    }
    lemma_div_is_ordered(q * b1, x, b1);
}

/// For a positive divisor interval, the Euclidean quotient of a fixed
/// dividend is bracketed by the quotients at the interval's ends.
proof fn lemma_ediv_den_range(x: int, b0: int, b: int, b1: int)
    requires
        0 < b0 <= b <= b1,
    ensures
        min2(x / b0, x / b1) <= x / b <= max2(x / b0, x / b1),
{
    if x >= 0 {
        lemma_div_is_ordered_by_denominator(x, b0, b);
        lemma_div_is_ordered_by_denominator(x, b, b1);
    } else {
        lemma_ediv_neg_num_mono_den(x, b0, b);
        lemma_ediv_neg_num_mono_den(x, b, b1);
    }
}

/// Soundness of the Euclidean corner-quotient range.
pub proof fn lemma_div_euclid_in_cross(a0: int, a1: int, b0: int, b1: int, a: int, b: int)
    requires
        a0 <= a <= a1,
        b0 <= b <= b1,
        spec_allow_division(b0, b1),
    ensures
        spec_div_euclid_min(a0, a1, b0, b1) <= a / b <= spec_div_euclid_max(a0, a1, b0, b1),
{
    if b0 > 0 {
        lemma_ediv_den_range(a, b0, b, b1);
        lemma_div_is_ordered(a0, a, b0);
        lemma_div_is_ordered(a, a1, b0);
        lemma_div_is_ordered(a0, a, b1);
        lemma_div_is_ordered(a, a1, b1);
    } else {
        lemma_ediv_neg(a, -b);
        lemma_ediv_neg(a0, -b0);
        lemma_ediv_neg(a0, -b1);
        lemma_ediv_neg(a1, -b0);
        lemma_ediv_neg(a1, -b1);
        lemma_ediv_den_range(a, -b1, -b, -b0);
        lemma_div_is_ordered(a0, a, -b0);
        lemma_div_is_ordered(a, a1, -b0);
        lemma_div_is_ordered(a0, a, -b1);
        lemma_div_is_ordered(a, a1, -b1);
    }
}

/// Truncating division by a negated divisor negates the quotient.
proof fn lemma_tdiv_neg(x: int, d: int)
    requires
        d > 0,
    ensures
        tdiv(x, -d) == -tdiv(x, d),
{
}

/// Truncating division is monotone in the dividend, for a positive divisor.
proof fn lemma_tdiv_mono_num(x: int, y: int, d: int)
    requires
        x <= y,
        d > 0,
    ensures
        tdiv(x, d) <= tdiv(y, d),
{
    if x >= 0 {
        lemma_basic_div(0, d);
        lemma_div_is_ordered(x, y, d);
    } else if y <= 0 {
        lemma_basic_div(0, d);
        lemma_div_is_ordered(-y, -x, d);
    } else {
        lemma_div_pos_is_pos(y, d);
        lemma_div_pos_is_pos(-x, d);
    }
}

/// For a positive divisor interval, the truncating quotient of a fixed
/// dividend is bracketed by the quotients at the interval's ends.
proof fn lemma_tdiv_den_range(x: int, b0: int, b: int, b1: int)
    requires
        0 < b0 <= b <= b1,
    ensures
        min2(tdiv(x, b0), tdiv(x, b1)) <= tdiv(x, b) <= max2(tdiv(x, b0), tdiv(x, b1)),
{
    if x > 0 {
        lemma_div_is_ordered_by_denominator(x, b0, b);
        lemma_div_is_ordered_by_denominator(x, b, b1);
    } else if x < 0 {
        lemma_div_is_ordered_by_denominator(-x, b0, b);
        lemma_div_is_ordered_by_denominator(-x, b, b1);
    }
}

/// Soundness of the truncating corner-quotient range.
pub proof fn lemma_div_in_cross(a0: int, a1: int, b0: int, b1: int, a: int, b: int)
    requires
        a0 <= a <= a1,
        b0 <= b <= b1,
        spec_allow_division(b0, b1),
    ensures
        spec_div_min(a0, a1, b0, b1) <= tdiv(a, b) <= spec_div_max(a0, a1, b0, b1),
{
    if b0 > 0 {
        lemma_tdiv_den_range(a, b0, b, b1);
        lemma_tdiv_mono_num(a0, a, b0);
        lemma_tdiv_mono_num(a, a1, b0);
        lemma_tdiv_mono_num(a0, a, b1);
        lemma_tdiv_mono_num(a, a1, b1);
    } else {
        lemma_tdiv_neg(a, -b);
        lemma_tdiv_neg(a0, -b0);
        lemma_tdiv_neg(a0, -b1);
        lemma_tdiv_neg(a1, -b0);
        lemma_tdiv_neg(a1, -b1);
        lemma_tdiv_den_range(a, -b1, -b, -b0);
        lemma_tdiv_mono_num(a0, a, -b0);
        lemma_tdiv_mono_num(a, a1, -b0);
        lemma_tdiv_mono_num(a0, a, -b1);
        lemma_tdiv_mono_num(a, a1, -b1);
    }
}

/// For a positive divisor the truncating quotient has the dividend's sign
/// and is no larger in magnitude than the dividend.
proof fn lemma_tdiv_bounded(x: int, d: int)
    requires
        d >= 1,
    ensures
        x >= 0 ==> 0 <= tdiv(x, d) <= x,
        x <= 0 ==> x <= tdiv(x, d) <= 0,
{
    if x > 0 {
        lemma_div_pos_is_pos(x, d);
        lemma_div_nonincreasing(x, d);
    } else if x < 0 {
        lemma_div_pos_is_pos(-x, d);
        lemma_div_nonincreasing(-x, d);
    }
}

/// The greatest multiple of the divisor not exceeding the dividend in
/// magnitude, `tdiv(x, d) * d` for positive `d`, lies between zero and the
/// dividend.
proof fn lemma_tdiv_times_den_bounds(x: int, d: int)
    requires
        d >= 1,
    ensures
        x >= 0 ==> 0 <= tdiv(x, d) * d <= x,
        x <= 0 ==> x <= tdiv(x, d) * d <= 0,
{
    if x > 0 {
        let q = x / d;
        lemma_fundamental_div_mod(x, d);
        lemma_mod_bound(x, d);
        lemma_mul_is_commutative(q, d);
    } else if x < 0 {
        let q = (-x) / d;
        lemma_fundamental_div_mod(-x, d);
        lemma_mod_bound(-x, d);
        lemma_mul_is_commutative(q, d);
        lemma_mul_unary_negation(q, d);
        assert(tdiv(x, d) * d == (-q) * d);
    }
}

/// Smallest possible truncating remainder of `[a0, a1]` by `[b0, b1]`.
/// Exact when the divisor is one constant and the dividend range keeps one
/// quotient; otherwise a conservative bound, clamped toward zero by the
/// dividend's sign and never below `1 - max(|b0|, |b1|)`.
pub open spec fn spec_rem_min(a0: int, a1: int, b0: int, b1: int) -> int {
    if b0 == b1 && a0 == a1 {
        tmod(a0, b0)
    } else if b0 == b1 && a0 > 0 && a0 >= tdiv(a1, iabs(b0)) * iabs(b0) {
        tmod(a0, b0)
    } else if b0 == b1 && a1 < 0 && a1 <= tdiv(a0, iabs(b0)) * iabs(b0) {
        tmod(a0, b0)
    } else if a0 >= 0 {
        0
    } else {
        max2(1 - max2(iabs(b1), iabs(b0)), a0)
    }
}

/// Largest possible truncating remainder; the counterpart of
/// [`spec_rem_min`].
pub open spec fn spec_rem_max(a0: int, a1: int, b0: int, b1: int) -> int {
    if b0 == b1 && a0 == a1 {
        tmod(a0, b0)
    } else if b0 == b1 && a0 > 0 && a0 >= tdiv(a1, iabs(b0)) * iabs(b0) {
        tmod(a1, b0)
    } else if b0 == b1 && a1 < 0 && a1 <= tdiv(a0, iabs(b0)) * iabs(b0) {
        tmod(a1, b0)
    } else if a1 <= 0 {
        0
    } else {
        min2(max2(iabs(b1), iabs(b0)) - 1, a1)
    }
}

/// Smallest possible Euclidean remainder: exact when the divisor is one
/// constant and the dividend range keeps one quotient, else zero.
pub open spec fn spec_rem_euclid_min(a0: int, a1: int, b0: int, b1: int) -> int {
    if b0 == b1 && a0 == a1 {
        a0 % b0
    } else if b0 == b1 && a0 / b0 == a1 / b0 {
        a0 % b0
    } else {
        0
    }
}

/// Largest possible Euclidean remainder: exact in the constant-quotient
/// case, else `max(|b0|, |b1|) - 1`, improved to `a1` for a small positive
/// dividend.
pub open spec fn spec_rem_euclid_max(a0: int, a1: int, b0: int, b1: int) -> int {
    if b0 == b1 && a0 == a1 {
        a0 % b0
    } else if b0 == b1 && a0 / b0 == a1 / b0 {
        a1 % b0
    } else {
        let am = max2(iabs(b1), iabs(b0));
        if a0 > 0 && a1 < am {
            a1
        } else {
            am - 1
        }
    }
}

/// Sign and magnitude bounds of the truncating remainder: it has the
/// dividend's sign and is smaller in magnitude than both operands.
pub(crate) proof fn lemma_tmod_bounds(x: int, d: int)
    requires
        d != 0,
    ensures
        x >= 0 ==> 0 <= tmod(x, d) <= x,
        x <= 0 ==> x <= tmod(x, d) <= 0,
        iabs(tmod(x, d)) <= iabs(d) - 1,
{
    let ad = iabs(d);
    if x != 0 {
        let ax = iabs(x);
        lemma_mod_bound(ax, ad);
        if ax < ad {
            lemma_small_mod(ax as nat, ad as nat);
        }
        if d < 0 {
            lemma_ediv_neg(ax, ad);
        }
    }
}

/// In the window `[base, base + |b|)` above the greatest multiple
/// `base = (a1 / |b|) * |b|` not exceeding a positive `a1`, the truncating
/// remainder is the offset from `base`.
proof fn lemma_tmod_window_pos(a1: int, b: int, a: int)
    requires
        b != 0,
        0 < a <= a1,
        a >= tdiv(a1, iabs(b)) * iabs(b),
    ensures
        tmod(a, b) == a - tdiv(a1, iabs(b)) * iabs(b),
{
    let ad = iabs(b);
    let q = tdiv(a1, ad);
    assert(q == a1 / ad);
    lemma_fundamental_div_mod(a1, ad);
    lemma_mod_bound(a1, ad);
    assert(q * ad == ad * q) by {
        lemma_mul_is_commutative(q, ad);
    }
    let base = q * ad;
    assert(base <= a1 < base + ad);
    assert(a == q * ad + (a - base));
    lemma_fundamental_div_mod_converse_mod(a, ad, q, a - base);
    assert(a % ad == a - base);
}

/// The mirrored window below a negative `a0`: between `a0` and the least
/// multiple `base = (a0 / |b|) * |b|` (truncating) not below it, the
/// truncating remainder is again the offset from `base`.
proof fn lemma_tmod_window_neg(a0: int, b: int, a: int)
    requires
        b != 0,
        a0 <= a < 0,
        a <= tdiv(a0, iabs(b)) * iabs(b),
    ensures
        tmod(a, b) == a - tdiv(a0, iabs(b)) * iabs(b),
{
    let ad = iabs(b);
    let q0 = (-a0) / ad;
    assert(tdiv(a0, ad) == -q0);
    lemma_fundamental_div_mod(-a0, ad);
    lemma_mod_bound(-a0, ad);
    assert((-q0) * ad == -(q0 * ad) && q0 * ad == ad * q0) by {
        lemma_mul_unary_negation(q0, ad);
        lemma_mul_is_commutative(q0, ad);
    }
    let base = (-q0) * ad;
    assert(base - ad < a0 <= base);
    assert(-a == q0 * ad + (base - a));
    lemma_fundamental_div_mod_converse_mod(-a, ad, q0, base - a);
    assert((-a) % ad == base - a);
}

/// Soundness of the truncating-remainder range: every remainder of
/// in-range operands lies between [`spec_rem_min`] and [`spec_rem_max`].
pub proof fn lemma_rem_in_range(a0: int, a1: int, b0: int, b1: int, a: int, b: int)
    requires
        a0 <= a <= a1,
        b0 <= b <= b1,
        spec_allow_division(b0, b1),
    ensures
        spec_rem_min(a0, a1, b0, b1) <= tmod(a, b) <= spec_rem_max(a0, a1, b0, b1),
{
    if b0 == b1 && a0 == a1 {
    } else if b0 == b1 && a0 > 0 && a0 >= tdiv(a1, iabs(b0)) * iabs(b0) {
        lemma_tmod_window_pos(a1, b0, a0);
        lemma_tmod_window_pos(a1, b0, a);
        lemma_tmod_window_pos(a1, b0, a1);
    } else if b0 == b1 && a1 < 0 && a1 <= tdiv(a0, iabs(b0)) * iabs(b0) {
        lemma_tmod_window_neg(a0, b0, a0);
        lemma_tmod_window_neg(a0, b0, a);
        lemma_tmod_window_neg(a0, b0, a1);
    } else {
        lemma_tmod_bounds(a, b);
        assert(iabs(b) <= max2(iabs(b1), iabs(b0)));
    }
}

/// Soundness of the Euclidean-remainder range.
pub proof fn lemma_rem_euclid_in_range(a0: int, a1: int, b0: int, b1: int, a: int, b: int)
    requires
        a0 <= a <= a1,
        b0 <= b <= b1,
        spec_allow_division(b0, b1),
    ensures
        spec_rem_euclid_min(a0, a1, b0, b1) <= a % b <= spec_rem_euclid_max(a0, a1, b0, b1),
{
    let ad = iabs(b);
    if b < 0 {
        lemma_ediv_neg(a, -b);
        lemma_ediv_neg(a0, -b);
        lemma_ediv_neg(a1, -b);
    }
    lemma_mod_bound(a, ad);
    if b0 == b1 && a0 == a1 {
    } else if b0 == b1 && a0 / b0 == a1 / b0 {
        let q = a0 / b0;
        if b > 0 {
            lemma_div_is_ordered(a0, a, b);
            lemma_div_is_ordered(a, a1, b);
        } else {
            lemma_div_is_ordered(a0, a, -b);
            lemma_div_is_ordered(a, a1, -b);
        }
        assert(a / b == q);
        lemma_fundamental_div_mod(a0, b);
        lemma_fundamental_div_mod(a, b);
        lemma_fundamental_div_mod(a1, b);
        assert(a % b == a - b * q);
    } else {
        if 0 <= a < ad {
            lemma_small_mod(a as nat, ad as nat);
        } else if a >= ad {
            lemma_mod_bound(a, ad);
        }
        assert(ad <= max2(iabs(b1), iabs(b0)));
        if a >= 0 {
            assert(a % ad <= a) by {
                if a < ad {
                    lemma_small_mod(a as nat, ad as nat);
                }
            }
        }
    }
}

/// Truncating division, executable.
fn div_tr(a: i128, b: i128) -> (r: i128)
    requires
        b != 0,
        in_irang(tdiv(a as int, b as int)),
    ensures
        r as int == tdiv(a as int, b as int),
{
    match a.checked_div(b) {
        Some(q) => q,
        None => {
            proof {
                assert(false);
            }
            0
        },
    }
}

/// Euclidean division, executable.
fn div_eu(a: i128, b: i128) -> (r: i128)
    requires
        b != 0,
        in_irang((a as int) / (b as int)),
    ensures
        r as int == (a as int) / (b as int),
{
    match a.checked_div_euclid(b) {
        Some(q) => q,
        None => {
            proof {
                assert(false);
            }
            0
        },
    }
}

/// Truncating remainder, executable.
pub(crate) fn rem_tr(a: i128, b: i128) -> (r: i128)
    requires
        b != 0,
    ensures
        r as int == tmod(a as int, b as int),
{
    proof {
        lemma_tmod_bounds(a as int, b as int);
    }
    if a == i128::MIN && b == -1 {
        proof {
            lemma_mod_bound(-(a as int), 1);
        }
        0
    } else {
        match a.checked_rem(b) {
            Some(r) => r,
            None => {
                proof {
                    assert(false);
                }
                0
            },
        }
    }
}

/// Euclidean remainder, executable.
fn rem_eu(a: i128, b: i128) -> (r: i128)
    requires
        b != 0,
    ensures
        r as int == (a as int) % (b as int),
{
    proof {
        if b < 0 {
            lemma_ediv_neg(a as int, -(b as int));
        }
        lemma_mod_bound(a as int, iabs(b as int));
    }
    if a == i128::MIN && b == -1 {
        0
    } else {
        match a.checked_rem_euclid(b) {
            Some(r) => r,
            None => {
                proof {
                    assert(false);
                }
                0
            },
        }
    }
}

/// Smallest possible truncating remainder, executable.
pub fn singleside_rem_min(a_min: i128, a_max: i128, b_min: i128, b_max: i128) -> (r: i128)
    requires
        spec_allow_division(b_min as int, b_max as int),
        b_min as int > i128::MIN,
        b_max as int > i128::MIN,
    ensures
        r as int == spec_rem_min(a_min as int, a_max as int, b_min as int, b_max as int),
{
    if b_min == b_max {
        let ab = if b_min < 0 { -b_min } else { b_min };
        if a_min == a_max {
            return rem_tr(a_min, b_min);
        } else if a_min > 0 {
            proof {
                lemma_tdiv_bounded(a_max as int, ab as int);
            }
            let q = div_tr(a_max, ab);
            proof {
                lemma_tdiv_times_den_bounds(a_max as int, ab as int);
            }
            let base = q * ab;
            if a_min >= base {
                return rem_tr(a_min, b_min);
            }
        } else if a_max < 0 {
            proof {
                lemma_tdiv_bounded(a_min as int, ab as int);
            }
            let q = div_tr(a_min, ab);
            proof {
                lemma_tdiv_times_den_bounds(a_min as int, ab as int);
            }
            let base = q * ab;
            if a_max <= base {
                return rem_tr(a_min, b_min);
            }
        }
    }
    if a_min >= 0 {
        0
    } else {
        let ab0 = if b_min < 0 { -b_min } else { b_min };
        let ab1 = if b_max < 0 { -b_max } else { b_max };
        let m = if ab1 > ab0 { ab1 } else { ab0 };
        let lo = 1 - m;
        if lo > a_min { lo } else { a_min }
    }
}

/// Largest possible truncating remainder, executable.
pub fn singleside_rem_max(a_min: i128, a_max: i128, b_min: i128, b_max: i128) -> (r: i128)
    requires
        spec_allow_division(b_min as int, b_max as int),
        b_min as int > i128::MIN,
        b_max as int > i128::MIN,
    ensures
        r as int == spec_rem_max(a_min as int, a_max as int, b_min as int, b_max as int),
{
    if b_min == b_max {
        let ab = if b_min < 0 { -b_min } else { b_min };
        if a_min == a_max {
            return rem_tr(a_min, b_min);
        } else if a_min > 0 {
            proof {
                lemma_tdiv_bounded(a_max as int, ab as int);
            }
            let q = div_tr(a_max, ab);
            proof {
                lemma_tdiv_times_den_bounds(a_max as int, ab as int);
            }
            let base = q * ab;
            if a_min >= base {
                return rem_tr(a_max, b_min);
            }
        } else if a_max < 0 {
            proof {
                lemma_tdiv_bounded(a_min as int, ab as int);
            }
            let q = div_tr(a_min, ab);
            proof {
                lemma_tdiv_times_den_bounds(a_min as int, ab as int);
            }
            let base = q * ab;
            if a_max <= base {
                return rem_tr(a_max, b_min);
            }
        }
    }
    if a_max <= 0 {
        0
    } else {
        let ab0 = if b_min < 0 { -b_min } else { b_min };
        let ab1 = if b_max < 0 { -b_max } else { b_max };
        let m = if ab1 > ab0 { ab1 } else { ab0 };
        let hi = m - 1;
        if hi < a_max { hi } else { a_max }
    }
}

/// Smallest possible Euclidean remainder, executable.
pub fn singleside_rem_euclid_min(a_min: i128, a_max: i128, b_min: i128, b_max: i128) -> (r: i128)
    requires
        spec_allow_division(b_min as int, b_max as int),
        !(a_min as int == i128::MIN && b_min as int == -1),
        !(a_max as int == i128::MIN && b_min as int == -1),
    ensures
        r as int == spec_rem_euclid_min(a_min as int, a_max as int, b_min as int, b_max as int),
{
    if b_min == b_max {
        if a_min == a_max {
            return rem_eu(a_min, b_min);
        }
        proof {
            lemma_ediv_in_irang(a_min as int, b_min as int);
            lemma_ediv_in_irang(a_max as int, b_min as int);
        }
        let base_min = div_eu(a_min, b_min);
        let base_max = div_eu(a_max, b_min);
        if base_min == base_max {
            return rem_eu(a_min, b_min);
        }
    }
    0
}

/// Largest possible Euclidean remainder, executable.
pub fn singleside_rem_euclid_max(a_min: i128, a_max: i128, b_min: i128, b_max: i128) -> (r: i128)
    requires
        spec_allow_division(b_min as int, b_max as int),
        b_min as int > i128::MIN,
        b_max as int > i128::MIN,
        !(a_min as int == i128::MIN && b_min as int == -1),
        !(a_max as int == i128::MIN && b_min as int == -1),
    ensures
        r as int == spec_rem_euclid_max(a_min as int, a_max as int, b_min as int, b_max as int),
{
    if b_min == b_max {
        if a_min == a_max {
            return rem_eu(a_min, b_min);
        }
        proof {
            lemma_ediv_in_irang(a_min as int, b_min as int);
            lemma_ediv_in_irang(a_max as int, b_min as int);
        }
        let base_min = div_eu(a_min, b_min);
        let base_max = div_eu(a_max, b_min);
        if base_min == base_max {
            return rem_eu(a_max, b_min);
        }
    }
    let ab0 = if b_min < 0 { -b_min } else { b_min };
    let ab1 = if b_max < 0 { -b_max } else { b_max };
    let absb_max = if ab1 > ab0 { ab1 } else { ab0 };
    if a_min > 0 && a_max < absb_max {
        a_max
    } else {
        absb_max - 1
    }
}

/// A negative dividend's Euclidean quotient lies between the dividend and
/// zero.
proof fn lemma_ediv_neg_num_bounds(a: int, b: int)
    requires
        a < 0,
        b >= 1,
    ensures
        a <= a / b <= 0,
{
    lemma_fundamental_div_mod(a, b);
    lemma_mod_bound(a, b);
    let q = a / b;
    let r = a % b;
    if q >= 1 {
        lemma_mul_inequality(1, q, b);
        lemma_mul_is_commutative(q, b);
        assert(false);
    }
    if q <= -1 {
        assert(q * (b - 1) <= (-1) * (b - 1)) by {
            lemma_mul_inequality(q, -1, b - 1);
        }
        assert(q * (b - 1) == q * b - q * 1) by {
            vstd::arithmetic::mul::lemma_mul_is_distributive_sub(q, b, 1);
        }
        assert(b * q == q * b) by {
            lemma_mul_is_commutative(q, b);
        }
        assert(a - q == q * (b - 1) + r);
    }
}

/// The Euclidean quotient of `i128` operands fits an `i128`, except for
/// the minimum value divided by minus one.
proof fn lemma_ediv_in_irang(a: int, b: int)
    requires
        b != 0,
        in_irang(a),
        in_irang(b),
        !(a == i128::MIN && b == -1),
    ensures
        in_irang(a / b),
{
    if b > 0 {
        if a >= 0 {
            lemma_div_pos_is_pos(a, b);
            lemma_div_nonincreasing(a, b);
        } else {
            lemma_ediv_neg_num_bounds(a, b);
        }
    } else {
        lemma_ediv_neg(a, -b);
        if a >= 0 {
            lemma_div_pos_is_pos(a, -b);
            lemma_div_nonincreasing(a, -b);
        } else {
            lemma_ediv_neg_num_bounds(a, -b);
            if a == i128::MIN {
                lemma_ediv_neg_num_mono_den(a, 2, -b);
                lemma_div_is_ordered(i128::MIN as int, a, 2);
            }
        }
    }
}

/// Smallest corner quotient under truncating division, executable.
pub fn singleside_div_min(a_min: i128, a_max: i128, b_min: i128, b_max: i128) -> (r: i128)
    requires
        spec_allow_division(b_min as int, b_max as int),
        in_irang(tdiv(a_min as int, b_min as int)),
        in_irang(tdiv(a_min as int, b_max as int)),
        in_irang(tdiv(a_max as int, b_min as int)),
        in_irang(tdiv(a_max as int, b_max as int)),
    ensures
        r as int == spec_div_min(a_min as int, a_max as int, b_min as int, b_max as int),
{
    let q1 = div_tr(a_min, b_min);
    let q2 = div_tr(a_min, b_max);
    let q3 = div_tr(a_max, b_min);
    let q4 = div_tr(a_max, b_max);
    let m1 = if q1 < q2 { q1 } else { q2 };
    let m2 = if q3 < q4 { q3 } else { q4 };
    if m1 < m2 { m1 } else { m2 }
}

/// Largest corner quotient under truncating division, executable.
pub fn singleside_div_max(a_min: i128, a_max: i128, b_min: i128, b_max: i128) -> (r: i128)
    requires
        spec_allow_division(b_min as int, b_max as int),
        in_irang(tdiv(a_min as int, b_min as int)),
        in_irang(tdiv(a_min as int, b_max as int)),
        in_irang(tdiv(a_max as int, b_min as int)),
        in_irang(tdiv(a_max as int, b_max as int)),
    ensures
        r as int == spec_div_max(a_min as int, a_max as int, b_min as int, b_max as int),
{
    let q1 = div_tr(a_min, b_min);
    let q2 = div_tr(a_min, b_max);
    let q3 = div_tr(a_max, b_min);
    let q4 = div_tr(a_max, b_max);
    let m1 = if q1 > q2 { q1 } else { q2 };
    let m2 = if q3 > q4 { q3 } else { q4 };
    if m1 > m2 { m1 } else { m2 }
}

/// Smallest corner quotient under Euclidean division, executable.
pub fn singleside_div_euclid_min(a_min: i128, a_max: i128, b_min: i128, b_max: i128) -> (r: i128)
    requires
        spec_allow_division(b_min as int, b_max as int),
        in_irang((a_min as int) / (b_min as int)),
        in_irang((a_min as int) / (b_max as int)),
        in_irang((a_max as int) / (b_min as int)),
        in_irang((a_max as int) / (b_max as int)),
    ensures
        r as int == spec_div_euclid_min(a_min as int, a_max as int, b_min as int, b_max as int),
{
    let q1 = div_eu(a_min, b_min);
    let q2 = div_eu(a_min, b_max);
    let q3 = div_eu(a_max, b_min);
    let q4 = div_eu(a_max, b_max);
    let m1 = if q1 < q2 { q1 } else { q2 };
    let m2 = if q3 < q4 { q3 } else { q4 };
    if m1 < m2 { m1 } else { m2 }
}

/// Largest corner quotient under Euclidean division, executable.
pub fn singleside_div_euclid_max(a_min: i128, a_max: i128, b_min: i128, b_max: i128) -> (r: i128)
    requires
        spec_allow_division(b_min as int, b_max as int),
        in_irang((a_min as int) / (b_min as int)),
        in_irang((a_min as int) / (b_max as int)),
        in_irang((a_max as int) / (b_min as int)),
        in_irang((a_max as int) / (b_max as int)),
    ensures
        r as int == spec_div_euclid_max(a_min as int, a_max as int, b_min as int, b_max as int),
{
    let q1 = div_eu(a_min, b_min);
    let q2 = div_eu(a_min, b_max);
    let q3 = div_eu(a_max, b_min);
    let q4 = div_eu(a_max, b_max);
    let m1 = if q1 > q2 { q1 } else { q2 };
    let m2 = if q3 > q4 { q3 } else { q4 };
    if m1 > m2 { m1 } else { m2 }
}

impl Ranged {
    /// Sum; the result range is the sum of the bounds.
    pub fn add(self, rhs: Ranged) -> (r: Ranged)
        requires
            self.wf(),
            rhs.wf(),
            spec_supported(self.rmin() + rhs.rmin(), self.rmax() + rhs.rmax()),
        ensures
            r.wf(),
            r.rmin() == self.rmin() + rhs.rmin(),
            r.rmax() == self.rmax() + rhs.rmax(),
            r.value() == self.value() + rhs.value(),
    {
        let rmin = self.bound_min() + rhs.bound_min();
        let rmax = self.bound_max() + rhs.bound_max();
        Ranged::unchecked_new(rmin, rmax, self.get() + rhs.get())
    }

    /// Difference; the result range runs from `min - rhs.max` to
    /// `max - rhs.min`.
    pub fn sub(self, rhs: Ranged) -> (r: Ranged)
        requires
            self.wf(),
            rhs.wf(),
            spec_supported(self.rmin() - rhs.rmax(), self.rmax() - rhs.rmin()),
        ensures
            r.wf(),
            r.rmin() == self.rmin() - rhs.rmax(),
            r.rmax() == self.rmax() - rhs.rmin(),
            r.value() == self.value() - rhs.value(),
    {
        let rmin = self.bound_min() - rhs.bound_max();
        let rmax = self.bound_max() - rhs.bound_min();
        Ranged::unchecked_new(rmin, rmax, self.get() - rhs.get())
    }

    /// Negation; the result range is the reflected range.
    pub fn neg(self) -> (r: Ranged)
        requires
            self.wf(),
            spec_supported(-self.rmax(), -self.rmin()),
        ensures
            r.wf(),
            r.rmin() == -self.rmax(),
            r.rmax() == -self.rmin(),
            r.value() == -self.value(),
    {
        Ranged::unchecked_new(-self.bound_max(), -self.bound_min(), -self.get())
    }

    /// Product; the result range is spanned by the four corner products.
    pub fn mul(self, rhs: Ranged) -> (r: Ranged)
        requires
            self.wf(),
            rhs.wf(),
            spec_supported(
                spec_min_cross(self.rmin(), self.rmax(), rhs.rmin(), rhs.rmax()),
                spec_max_cross(self.rmin(), self.rmax(), rhs.rmin(), rhs.rmax()),
            ),
        ensures
            r.wf(),
            r.rmin() == spec_min_cross(self.rmin(), self.rmax(), rhs.rmin(), rhs.rmax()),
            r.rmax() == spec_max_cross(self.rmin(), self.rmax(), rhs.rmin(), rhs.rmax()),
            r.value() == self.value() * rhs.value(),
    {
        let rmin = min_cross(self.bound_min(), self.bound_max(), rhs.bound_min(), rhs.bound_max());
        let rmax = max_cross(self.bound_min(), self.bound_max(), rhs.bound_min(), rhs.bound_max());
        proof {
            lemma_mul_in_cross(
                self.rmin(),
                self.rmax(),
                rhs.rmin(),
                rhs.rmax(),
                self.value(),
                rhs.value(),
            );
        }
        Ranged::unchecked_new(rmin, rmax, self.get() * rhs.get())
    }

    /// Smaller of two values; the result range is the pointwise minimum of
    /// the two ranges.
    pub fn min(self, other: Ranged) -> (r: Ranged)
        requires
            self.wf(),
            other.wf(),
            spec_supported(min2(self.rmin(), other.rmin()), min2(self.rmax(), other.rmax())),
        ensures
            r.wf(),
            r.rmin() == min2(self.rmin(), other.rmin()),
            r.rmax() == min2(self.rmax(), other.rmax()),
            r.value() == min2(self.value(), other.value()),
    {
        let a = self.get();
        let b = other.get();
        let rmin = if self.bound_min() < other.bound_min() {
            self.bound_min()
        } else {
            other.bound_min()
        };
        let rmax = if self.bound_max() < other.bound_max() {
            self.bound_max()
        } else {
            other.bound_max()
        };
        Ranged::unchecked_new(rmin, rmax, if a < b { a } else { b })
    }

    /// Larger of two values; the result range is the pointwise maximum of
    /// the two ranges.
    pub fn max(self, other: Ranged) -> (r: Ranged)
        requires
            self.wf(),
            other.wf(),
            spec_supported(max2(self.rmin(), other.rmin()), max2(self.rmax(), other.rmax())),
        ensures
            r.wf(),
            r.rmin() == max2(self.rmin(), other.rmin()),
            r.rmax() == max2(self.rmax(), other.rmax()),
            r.value() == max2(self.value(), other.value()),
    {
        let a = self.get();
        let b = other.get();
        let rmin = if self.bound_min() > other.bound_min() {
            self.bound_min()
        } else {
            other.bound_min()
        };
        let rmax = if self.bound_max() > other.bound_max() {
            self.bound_max()
        } else {
            other.bound_max()
        };
        Ranged::unchecked_new(rmin, rmax, if a > b { a } else { b })
    }

    /// Truncating quotient; the divisor range must not be able to contain
    /// zero, and the result range is spanned by the four corner quotients.
    pub fn div(self, rhs: Ranged) -> (r: Ranged)
        requires
            self.wf(),
            rhs.wf(),
            spec_allow_division(rhs.rmin(), rhs.rmax()),
            spec_supported(
                spec_div_min(self.rmin(), self.rmax(), rhs.rmin(), rhs.rmax()),
                spec_div_max(self.rmin(), self.rmax(), rhs.rmin(), rhs.rmax()),
            ),
        ensures
            r.wf(),
            r.rmin() == spec_div_min(self.rmin(), self.rmax(), rhs.rmin(), rhs.rmax()),
            r.rmax() == spec_div_max(self.rmin(), self.rmax(), rhs.rmin(), rhs.rmax()),
            r.value() == tdiv(self.value(), rhs.value()),
    {
        proof {
            lemma_div_in_cross(
                self.rmin(),
                self.rmax(),
                rhs.rmin(),
                rhs.rmax(),
                self.value(),
                rhs.value(),
            );
        }
        let rmin = singleside_div_min(
            self.bound_min(),
            self.bound_max(),
            rhs.bound_min(),
            rhs.bound_max(),
        );
        let rmax = singleside_div_max(
            self.bound_min(),
            self.bound_max(),
            rhs.bound_min(),
            rhs.bound_max(),
        );
        let v = div_tr(self.get(), rhs.get());
        Ranged::unchecked_new(rmin, rmax, v)
    }

    /// Euclidean quotient; as [`Ranged::div`], with the quotient rounded so
    /// that the remainder is never negative.
    pub fn div_euclid(self, rhs: Ranged) -> (r: Ranged)
        requires
            self.wf(),
            rhs.wf(),
            spec_allow_division(rhs.rmin(), rhs.rmax()),
            spec_supported(
                spec_div_euclid_min(self.rmin(), self.rmax(), rhs.rmin(), rhs.rmax()),
                spec_div_euclid_max(self.rmin(), self.rmax(), rhs.rmin(), rhs.rmax()),
            ),
        ensures
            r.wf(),
            r.rmin() == spec_div_euclid_min(self.rmin(), self.rmax(), rhs.rmin(), rhs.rmax()),
            r.rmax() == spec_div_euclid_max(self.rmin(), self.rmax(), rhs.rmin(), rhs.rmax()),
            r.value() == self.value() / rhs.value(),
    {
        proof {
            lemma_div_euclid_in_cross(
                self.rmin(),
                self.rmax(),
                rhs.rmin(),
                rhs.rmax(),
                self.value(),
                rhs.value(),
            );
        }
        let rmin = singleside_div_euclid_min(
            self.bound_min(),
            self.bound_max(),
            rhs.bound_min(),
            rhs.bound_max(),
        );
        let rmax = singleside_div_euclid_max(
            self.bound_min(),
            self.bound_max(),
            rhs.bound_min(),
            rhs.bound_max(),
        );
        let v = div_eu(self.get(), rhs.get());
        Ranged::unchecked_new(rmin, rmax, v)
    }

    /// Truncating remainder; the divisor range must not be able to contain
    /// zero.  The result range always contains the true remainder but may
    /// be wider: it is exact only when the divisor is one constant and the
    /// dividend range keeps one quotient.
    pub fn rem(self, rhs: Ranged) -> (r: Ranged)
        requires
            self.wf(),
            rhs.wf(),
            spec_allow_division(rhs.rmin(), rhs.rmax()),
            rhs.rmin() > i128::MIN,
            spec_supported(
                spec_rem_min(self.rmin(), self.rmax(), rhs.rmin(), rhs.rmax()),
                spec_rem_max(self.rmin(), self.rmax(), rhs.rmin(), rhs.rmax()),
            ),
        ensures
            r.wf(),
            r.rmin() == spec_rem_min(self.rmin(), self.rmax(), rhs.rmin(), rhs.rmax()),
            r.rmax() == spec_rem_max(self.rmin(), self.rmax(), rhs.rmin(), rhs.rmax()),
            r.value() == tmod(self.value(), rhs.value()),
    {
        proof {
            lemma_rem_in_range(
                self.rmin(),
                self.rmax(),
                rhs.rmin(),
                rhs.rmax(),
                self.value(),
                rhs.value(),
            );
        }
        let rmin = singleside_rem_min(
            self.bound_min(),
            self.bound_max(),
            rhs.bound_min(),
            rhs.bound_max(),
        );
        let rmax = singleside_rem_max(
            self.bound_min(),
            self.bound_max(),
            rhs.bound_min(),
            rhs.bound_max(),
        );
        let v = rem_tr(self.get(), rhs.get());
        Ranged::unchecked_new(rmin, rmax, v)
    }

    /// Euclidean remainder, never negative; the divisor range must not be
    /// able to contain zero.  As with [`Ranged::rem`], the result range is
    /// conservative outside the constant-quotient case.
    pub fn rem_euclid(self, rhs: Ranged) -> (r: Ranged)
        requires
            self.wf(),
            rhs.wf(),
            spec_allow_division(rhs.rmin(), rhs.rmax()),
            rhs.rmin() > i128::MIN,
            !(self.rmin() == i128::MIN && rhs.rmin() == -1),
            spec_supported(
                spec_rem_euclid_min(self.rmin(), self.rmax(), rhs.rmin(), rhs.rmax()),
                spec_rem_euclid_max(self.rmin(), self.rmax(), rhs.rmin(), rhs.rmax()),
            ),
        ensures
            r.wf(),
            r.rmin() == spec_rem_euclid_min(self.rmin(), self.rmax(), rhs.rmin(), rhs.rmax()),
            r.rmax() == spec_rem_euclid_max(self.rmin(), self.rmax(), rhs.rmin(), rhs.rmax()),
            r.value() == self.value() % rhs.value(),
    {
        proof {
            lemma_rem_euclid_in_range(
                self.rmin(),
                self.rmax(),
                rhs.rmin(),
                rhs.rmax(),
                self.value(),
                rhs.value(),
            );
        }
        let rmin = singleside_rem_euclid_min(
            self.bound_min(),
            self.bound_max(),
            rhs.bound_min(),
            rhs.bound_max(),
        );
        let rmax = singleside_rem_euclid_max(
            self.bound_min(),
            self.bound_max(),
            rhs.bound_min(),
            rhs.bound_max(),
        );
        let v = rem_eu(self.get(), rhs.get());
        Ranged::unchecked_new(rmin, rmax, v)
    }

    /// Absolute value; the result range is zero-based when the source range
    /// straddles zero, else spanned by the bounds' magnitudes.
    pub fn abs(self) -> (r: Ranged)
        requires
            self.wf(),
            self.rmin() > i128::MIN,
            spec_supported(
                spec_abs_min(self.rmin(), self.rmax()),
                spec_abs_max(self.rmin(), self.rmax()),
            ),
        ensures
            r.wf(),
            r.rmin() == spec_abs_min(self.rmin(), self.rmax()),
            r.rmax() == spec_abs_max(self.rmin(), self.rmax()),
            r.value() == iabs(self.value()),
    {
        let rmin = abs_min(self.bound_min(), self.bound_max());
        let rmax = abs_max(self.bound_min(), self.bound_max());
        let v = self.get();
        let av = if v < 0 { -v } else { v };
        Ranged::unchecked_new(rmin, rmax, av)
    }
}

impl PartialEq for Ranged {
    /// Values compare by their confined value alone: two values of
    /// different ranges are equal when they hold the same integer.
    fn eq(&self, other: &Ranged) -> (r: bool) {
        self.get() == other.get()
    }
}

impl vstd::std_specs::cmp::PartialEqSpecImpl for Ranged {
    open spec fn obeys_eq_spec() -> bool {
        true
    }

    open spec fn eq_spec(&self, other: &Ranged) -> bool {
        self.value() == other.value()
    }
}

impl PartialOrd for Ranged {
    /// Values order by their confined value alone.
    fn partial_cmp(&self, other: &Ranged) -> (r: Option<core::cmp::Ordering>) {
        let s = self.get();
        let o = other.get();
        if s > o {
            Some(core::cmp::Ordering::Greater)
        } else if s == o {
            Some(core::cmp::Ordering::Equal)
        } else {
            Some(core::cmp::Ordering::Less)
        }
    }
}

impl vstd::std_specs::cmp::PartialOrdSpecImpl for Ranged {
    open spec fn obeys_partial_cmp_spec() -> bool {
        true
    }

    open spec fn partial_cmp_spec(&self, other: &Ranged) -> Option<core::cmp::Ordering> {
        if self.value() > other.value() {
            Some(core::cmp::Ordering::Greater)
        } else if self.value() == other.value() {
            Some(core::cmp::Ordering::Equal)
        } else {
            Some(core::cmp::Ordering::Less)
        }
    }
}

impl PartialEq<i128> for Ranged {
    /// A value equals a native integer when its confined value does.
    fn eq(&self, other: &i128) -> (r: bool) {
        self.get() == *other
    }
}

impl vstd::std_specs::cmp::PartialEqSpecImpl<i128> for Ranged {
    open spec fn obeys_eq_spec() -> bool {
        true
    }

    open spec fn eq_spec(&self, other: &i128) -> bool {
        self.value() == *other as int
    }
}

impl PartialEq<Ranged> for i128 {
    /// A native integer equals a value when the confined value matches.
    fn eq(&self, other: &Ranged) -> (r: bool) {
        *self == other.get()
    }
}

impl vstd::std_specs::cmp::PartialEqSpecImpl<Ranged> for i128 {
    open spec fn obeys_eq_spec() -> bool {
        true
    }

    open spec fn eq_spec(&self, other: &Ranged) -> bool {
        *self as int == other.value()
    }
}

impl PartialOrd<i128> for Ranged {
    /// A value orders against a native integer by its confined value.
    fn partial_cmp(&self, other: &i128) -> (r: Option<core::cmp::Ordering>) {
        let s = self.get();
        if s > *other {
            Some(core::cmp::Ordering::Greater)
        } else if s == *other {
            Some(core::cmp::Ordering::Equal)
        } else {
            Some(core::cmp::Ordering::Less)
        }
    }
}

impl vstd::std_specs::cmp::PartialOrdSpecImpl<i128> for Ranged {
    open spec fn obeys_partial_cmp_spec() -> bool {
        true
    }

    open spec fn partial_cmp_spec(&self, other: &i128) -> Option<core::cmp::Ordering> {
        if self.value() > *other as int {
            Some(core::cmp::Ordering::Greater)
        } else if self.value() == *other as int {
            Some(core::cmp::Ordering::Equal)
        } else {
            Some(core::cmp::Ordering::Less)
        }
    }
}

impl PartialOrd<Ranged> for i128 {
    /// A native integer orders against a value's confined value.
    fn partial_cmp(&self, other: &Ranged) -> (r: Option<core::cmp::Ordering>) {
        let o = other.get();
        if *self > o {
            Some(core::cmp::Ordering::Greater)
        } else if *self == o {
            Some(core::cmp::Ordering::Equal)
        } else {
            Some(core::cmp::Ordering::Less)
        }
    }
}

impl vstd::std_specs::cmp::PartialOrdSpecImpl<Ranged> for i128 {
    open spec fn obeys_partial_cmp_spec() -> bool {
        true
    }

    open spec fn partial_cmp_spec(&self, other: &Ranged) -> Option<core::cmp::Ordering> {
        if *self as int > other.value() {
            Some(core::cmp::Ordering::Greater)
        } else if *self as int == other.value() {
            Some(core::cmp::Ordering::Equal)
        } else {
            Some(core::cmp::Ordering::Less)
        }
    }
}

/// Smallest magnitude over `[min, max]`: zero when the bounds' signs
/// differ, else the smaller bound magnitude.
pub open spec fn spec_abs_min(min: int, max: int) -> int {
    if (min < 0 && max < 0) || (min > 0 && max > 0) || (min == 0 && max == 0) {
        min2(iabs(min), iabs(max))
    } else {
        0
    }
}

/// Largest magnitude over `[min, max]`.
pub open spec fn spec_abs_max(min: int, max: int) -> int {
    max2(iabs(min), iabs(max))
}

/// Smallest magnitude over a range, executable.
pub fn abs_min(min: i128, max: i128) -> (r: i128)
    requires
        min as int > i128::MIN,
        max as int > i128::MIN,
    ensures
        r as int == spec_abs_min(min as int, max as int),
{
    if (min < 0 && max < 0) || (min > 0 && max > 0) || (min == 0 && max == 0) {
        let am = if min < 0 { -min } else { min };
        let bm = if max < 0 { -max } else { max };
        if am < bm { am } else { bm }
    } else {
        0
    }
}

/// Largest magnitude over a range, executable.
pub fn abs_max(min: i128, max: i128) -> (r: i128)
    requires
        min as int > i128::MIN,
        max as int > i128::MIN,
    ensures
        r as int == spec_abs_max(min as int, max as int),
{
    let am = if min < 0 { -min } else { min };
    let bm = if max < 0 { -max } else { max };
    if am > bm { am } else { bm }
}

} // verus!

use ranged_integers::arithmetics::{
    abs_max, abs_min, max_cross, min_cross, singleside_div_euclid_max, singleside_div_euclid_min,
    singleside_div_max, singleside_div_min, singleside_rem_euclid_max, singleside_rem_euclid_min,
    singleside_rem_max, singleside_rem_min,
};
use ranged_integers::conversions::{expansion_possible, lesseq, lessthan};
use ranged_integers::iter::range_fits_usize;
use ranged_integers::value_check::OperationPossibility;

#[test]
fn corner_products() {
    assert_eq!(min_cross(-3, 3, -3, 3), -9);
    assert_eq!(max_cross(-3, 3, -3, 3), 9);
    assert_eq!(min_cross(1, 6, 1, 6), 1);
    assert_eq!(max_cross(1, 6, 1, 6), 36);
    assert_eq!(min_cross(-2, -1, 3, 4), -8);
    assert_eq!(max_cross(-2, -1, 3, 4), -3);
}

#[test]
fn corner_quotients() {
    assert_eq!(singleside_div_min(1, 6, 1, 6), 0);
    assert_eq!(singleside_div_max(1, 6, 1, 6), 6);
    assert_eq!(singleside_div_min(100, 1000, 1, 6), 16);
    assert_eq!(singleside_div_max(100, 1000, 1, 6), 1000);
    assert_eq!(singleside_div_min(-7, 7, 2, 2), -3);
    assert_eq!(singleside_div_max(-7, 7, 2, 2), 3);
    assert_eq!(singleside_div_euclid_min(-7, 7, 2, 2), -4);
    assert_eq!(singleside_div_euclid_max(-7, 7, 2, 2), 3);
}

#[test]
fn remainder_bounds() {
    // One constant divisor, quotient kept over the whole dividend range
    assert_eq!(singleside_rem_min(23, 26, 20, 20), 3);
    assert_eq!(singleside_rem_max(23, 26, 20, 20), 6);
    // Dividend range crossing a multiple of the divisor
    assert_eq!(singleside_rem_min(19, 21, 20, 20), 0);
    assert_eq!(singleside_rem_max(19, 21, 20, 20), 19);
    // Wide dividend, divisor interval
    assert_eq!(singleside_rem_min(-1000, 1000, 1, 10), -9);
    assert_eq!(singleside_rem_max(-1000, 1000, 1, 10), 9);
    // Clamped toward zero by the dividend's own bounds
    assert_eq!(singleside_rem_min(-10, 10, 1, 1000), -10);
    assert_eq!(singleside_rem_max(-10, 10, 1, 1000), 10);

    assert_eq!(singleside_rem_euclid_min(23, 26, 20, 20), 3);
    assert_eq!(singleside_rem_euclid_max(23, 26, 20, 20), 6);
    assert_eq!(singleside_rem_euclid_min(-26, -23, 20, 20), 14);
    assert_eq!(singleside_rem_euclid_max(-26, -23, 20, 20), 17);
    assert_eq!(singleside_rem_euclid_min(-1000, 1000, 1, 10), 0);
    assert_eq!(singleside_rem_euclid_max(-1000, 1000, 1, 10), 9);
    assert_eq!(singleside_rem_euclid_min(2, 20, 1, 400), 0);
    assert_eq!(singleside_rem_euclid_max(2, 20, 1, 400), 20);
}

#[test]
fn magnitude_bounds() {
    assert_eq!(abs_min(-100, 100), 0);
    assert_eq!(abs_max(-100, 100), 100);
    assert_eq!(abs_min(-100, -50), 50);
    assert_eq!(abs_max(-100, -50), 100);
    assert_eq!(abs_min(50, 100), 50);
    assert_eq!(abs_max(50, 100), 100);
    assert_eq!(abs_min(0, 10), 0);
    assert_eq!(abs_min(0, 0), 0);
}

#[test]
fn conversion_gatekeepers() {
    assert_eq!(expansion_possible(1, 6, 0, 10), OperationPossibility::Allowed);
    assert_eq!(expansion_possible(1, 6, 1, 6), OperationPossibility::Allowed);
    assert_eq!(expansion_possible(1, 6, 2, 10), OperationPossibility::Forbidden);
    assert_eq!(expansion_possible(1, 6, 0, 5), OperationPossibility::Forbidden);
    assert_eq!(lessthan(1, 2), OperationPossibility::Allowed);
    assert_eq!(lessthan(2, 2), OperationPossibility::Forbidden);
    assert_eq!(lesseq(2, 2), OperationPossibility::Allowed);
    assert_eq!(lesseq(3, 2), OperationPossibility::Forbidden);
    assert_eq!(range_fits_usize(0, 100), OperationPossibility::Allowed);
}

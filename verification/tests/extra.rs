use ranged_integers::arithmetics::allow_division;
use ranged_integers::holder::RangedRepr;
use ranged_integers::value_check::{
    allow_creation, allow_if, allow_range, memlayout, select_layout, LayoutKind,
    OperationPossibility,
};
use ranged_integers::Ranged;

fn re(min: i128, max: i128, v: i128) -> Ranged {
    Ranged::create_const(min, max, v)
}

#[test]
fn layout_selection_examples() {
    assert_eq!(select_layout(42, 42), Some(LayoutKind::Trivial));
    assert_eq!(memlayout(42, 42), 0);
    assert_eq!(select_layout(-1, 127), Some(LayoutKind::I8));
    assert_eq!(select_layout(0, 200), Some(LayoutKind::U8));
    assert_eq!(select_layout(-1, 200), Some(LayoutKind::I16));
    assert_eq!(select_layout(0, 90000), Some(LayoutKind::I32));
    assert_eq!(select_layout(-1, 18_446_744_073_709_551_615), None);
    assert_eq!(select_layout(5, 3), None);
    assert_eq!(memlayout(5, 3), 16);
}

#[test]
fn layout_widens_with_the_range() {
    assert!(memlayout(5, 10) <= memlayout(0, 65535));
    assert!(memlayout(0, 100) <= memlayout(-10, 200));
    assert!(memlayout(7, 7) <= memlayout(0, 100));
    assert!(memlayout(-100, 100) <= memlayout(-100_000, 100_000));
}

#[test]
fn codec_round_trips() {
    let cases: [(LayoutKind, i128); 12] = [
        (LayoutKind::I8, -128),
        (LayoutKind::I8, 127),
        (LayoutKind::U8, 0),
        (LayoutKind::U8, 255),
        (LayoutKind::I16, -12345),
        (LayoutKind::U16, 65535),
        (LayoutKind::I32, -2_000_000_000),
        (LayoutKind::U32, 4_294_967_295),
        (LayoutKind::I64, -9_223_372_036_854_775_808),
        (LayoutKind::I64, 9_223_372_036_854_775_807),
        (LayoutKind::U64, 18_446_744_073_709_551_615),
        (LayoutKind::U64, 1),
    ];
    for (k, v) in cases {
        let repr = RangedRepr::from_irang(k, v);
        assert_eq!(repr.to_irang(k), v);
    }
}

#[test]
fn division_guard_rejects_zero_divisors() {
    assert_eq!(allow_division(1, 10), OperationPossibility::Allowed);
    assert_eq!(allow_division(-10, -1), OperationPossibility::Allowed);
    assert_eq!(allow_division(0, 10), OperationPossibility::Forbidden);
    assert_eq!(allow_division(-10, 0), OperationPossibility::Forbidden);
    assert_eq!(allow_division(-5, 5), OperationPossibility::Forbidden);
    assert_eq!(allow_division(0, 0), OperationPossibility::Forbidden);
}

#[test]
fn propagation_examples() {
    let a = re(1, 6, 5).add(re(1, 6, 4));
    assert_eq!(a.bound_min(), 2);
    assert_eq!(a.bound_max(), 12);
    assert_eq!(a.get(), 9);

    let m = re(1, 6, 5).mul(re(1, 6, 4));
    assert_eq!(m.bound_min(), 1);
    assert_eq!(m.bound_max(), 36);
    assert_eq!(m.get(), 20);

    let d = re(1, 6, 5).div(re(1, 6, 4));
    assert_eq!(d.bound_min(), 0);
    assert_eq!(d.bound_max(), 6);
    assert_eq!(d.get(), 1);

    let r = re(-1000, 1000, 500).rem(re(1, 10, 7));
    assert!(r.bound_min() >= -9);
    assert!(r.bound_max() <= 9);
    assert_eq!(r.get(), 500 % 7);
    assert_eq!(r.get(), 3);

    let n = re(-6, -1, -5).neg();
    assert_eq!(n.bound_min(), 1);
    assert_eq!(n.bound_max(), 6);
    assert_eq!(n.get(), 5);
}

#[test]
fn fit_follows_containment() {
    let x = re(0, 100, 20);
    let y = x.fit(10, 30).unwrap();
    assert_eq!(y.get(), 20);
    assert_eq!(y.bound_min(), 10);
    assert_eq!(y.bound_max(), 30);
    assert!(x.fit(30, 40).is_none());
    assert!(x.fit(0, 19).is_none());

    assert_eq!(x.fit_max(20).unwrap().get(), 20);
    assert!(x.fit_max(19).is_none());
    assert_eq!(x.fit_min(20).unwrap().get(), 20);
    assert!(x.fit_min(21).is_none());
}

#[test]
fn fit_comparisons_narrow_bounds() {
    let a = re(10, 50, 30).fit_less_than(re(10, 45, 40)).unwrap();
    assert_eq!(a.get(), 30);
    assert_eq!(a.bound_min(), 10);
    assert_eq!(a.bound_max(), 45);
    assert!(re(10, 50, 40).fit_less_than(re(30, 45, 40)).is_none());

    let a = re(10, 50, 40).fit_less_eq(re(10, 45, 40)).unwrap();
    assert_eq!(a.get(), 40);
    assert_eq!(a.bound_max(), 45);
    assert!(re(10, 50, 41).fit_less_eq(re(30, 45, 40)).is_none());

    let a = re(10, 50, 40).fit_greater_than(re(20, 40, 39)).unwrap();
    assert_eq!(a.get(), 40);
    assert_eq!(a.bound_min(), 20);
    assert_eq!(a.bound_max(), 50);
    assert!(re(10, 50, 40).fit_greater_than(re(30, 45, 40)).is_none());

    let a = re(10, 50, 40).fit_greater_eq(re(20, 40, 40)).unwrap();
    assert_eq!(a.get(), 40);
    assert_eq!(a.bound_min(), 20);
    assert!(re(10, 50, 40).fit_greater_eq(re(30, 45, 41)).is_none());
}

#[test]
fn parse_errors_name_their_cause() {
    let e = Ranged::from_str(0, 100, "abc").unwrap_err();
    assert!(!e.out_of_range);
    let e = Ranged::from_str(0, 100, "").unwrap_err();
    assert!(!e.out_of_range);
    let e = Ranged::from_str(0, 100, "-").unwrap_err();
    assert!(!e.out_of_range);
    let e = Ranged::from_str(0, 100, "12x3").unwrap_err();
    assert!(!e.out_of_range);
    let e = Ranged::from_str(0, 100, "333").unwrap_err();
    assert!(e.out_of_range);
    let e = Ranged::from_str(0, 100, "170141183460469231731687303715884105728").unwrap_err();
    assert!(e.out_of_range);
    let e = Ranged::from_str(0, 100, "-99999999999999999999999999999999999999999").unwrap_err();
    assert!(e.out_of_range);

    let v = Ranged::from_str(i128::MIN, i128::MIN, "-170141183460469231731687303715884105728")
        .unwrap();
    assert_eq!(v.get(), i128::MIN);
    let v = Ranged::from_str(0, 100, "+42").unwrap();
    assert_eq!(v.get(), 42);
}

#[test]
fn split_tags_the_inhabited_side() {
    match re(0, 9, 3).split(5) {
        ranged_integers::conversions::RangedSplit::Lower(l) => {
            assert_eq!(l.get(), 3);
            assert_eq!(l.bound_min(), 0);
            assert_eq!(l.bound_max(), 4);
        }
        ranged_integers::conversions::RangedSplit::Upper(_) => panic!("3 lies below 5"),
    }
    match re(0, 9, 7).split(5) {
        ranged_integers::conversions::RangedSplit::Lower(_) => panic!("7 lies at or above 5"),
        ranged_integers::conversions::RangedSplit::Upper(u) => {
            assert_eq!(u.get(), 7);
            assert_eq!(u.bound_min(), 5);
            assert_eq!(u.bound_max(), 9);
        }
    }
    match re(0, 9, 7).split_subtract(5) {
        ranged_integers::conversions::RangedSplit::Lower(_) => panic!("7 lies at or above 5"),
        ranged_integers::conversions::RangedSplit::Upper(u) => {
            assert_eq!(u.get(), 2);
            assert_eq!(u.bound_min(), 0);
            assert_eq!(u.bound_max(), 4);
        }
    }
}

#[test]
fn range_gatekeepers() {
    assert_eq!(allow_if(true), OperationPossibility::Allowed);
    assert_eq!(allow_if(false), OperationPossibility::Forbidden);
    assert_eq!(allow_range(8), OperationPossibility::Allowed);
    assert_eq!(allow_range(16), OperationPossibility::Forbidden);
    assert_eq!(allow_creation(1, 4, 6), OperationPossibility::Allowed);
    assert_eq!(allow_creation(1, 7, 6), OperationPossibility::Forbidden);
    assert_eq!(allow_creation(1, 0, 6), OperationPossibility::Forbidden);
}

#[test]
fn singleton_ranges_span_the_full_domain() {
    let big = 170_141_183_460_469_231_731_687_303_715_884_105_727_i128;
    assert_eq!(re(big, big, big).get(), big);
    assert_eq!(re(-big - 1, -big - 1, -big - 1).get(), -big - 1);
    assert_eq!(memlayout(big, big), 0);
}

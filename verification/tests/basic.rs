use ranged_integers::conversions::AsRanged;
use ranged_integers::value_check::memlayout;
use ranged_integers::Ranged;

fn rb(min: i128, max: i128, v: i128) -> Ranged {
    Ranged::create_const(min, max, v)
}

#[test]
fn tst() {
    let x: Ranged = rb(3, 5, 4);
    assert!(x.u8() == 4);
}

#[test]
fn sizes() {
    assert_eq!(memlayout(0, 0), 0);
    assert_eq!(memlayout(1, 1), 0);
    assert_eq!(memlayout(-1, -1), 0);
    assert_eq!(memlayout(100, 100), 0);
    assert_eq!(memlayout(-100, -100), 0);
    assert_eq!(memlayout(500, 500), 0);
    assert_eq!(memlayout(-500, -500), 0);
    assert_eq!(memlayout(100_000, 100_000), 0);
    assert_eq!(memlayout(-100_000, -100_000), 0);
    assert_eq!(memlayout(10_000_000_000, 10_000_000_000), 0);
    assert_eq!(memlayout(-10_000_000_000, -10_000_000_000), 0);
    assert_eq!(memlayout(18_446_744_073_709_551_616, 18_446_744_073_709_551_616), 0);
    assert_eq!(memlayout(-18_446_744_073_709_551_616, -18_446_744_073_709_551_616), 0);

    assert_eq!(memlayout(-32768, -32768), 0);
    assert_eq!(memlayout(32767, 32767), 0);
    assert_eq!(memlayout(65535, 65535), 0);
    assert_eq!(memlayout(65536, 65536), 0);

    assert_eq!(memlayout(10, 11), 1);
    assert_eq!(memlayout(254, 255), 1);
    assert_eq!(memlayout(126, 127), 1);
    assert_eq!(memlayout(-128, -127), 1);
    assert_eq!(memlayout(0, 10), 1);
    assert_eq!(memlayout(0, 127), 1);
    assert_eq!(memlayout(0, 255), 1);
    assert_eq!(memlayout(127, 255), 1);
    assert_eq!(memlayout(-128, 127), 1);

    assert_eq!(memlayout(-128, 128), 2);

    assert_eq!(memlayout(-32768, 32767), 2);
    assert_eq!(memlayout(0, 32768), 2);
    assert_eq!(memlayout(0, 65535), 2);
    assert_eq!(memlayout(-32768, -32767), 2);
    assert_eq!(memlayout(32766, 32767), 2);
    assert_eq!(memlayout(65534, 65535), 2);

    assert_eq!(memlayout(-32768, 32768), 4);
    assert_eq!(memlayout(0, 65536), 4);

    assert_eq!(memlayout(0, 4_294_967_295), 4);
    assert_eq!(memlayout(-2_147_483_648, 2_147_483_647), 4);
    assert_eq!(memlayout(100, 10_000_000), 4);
    assert_eq!(memlayout(-100, 10_000_000), 4);
    assert_eq!(memlayout(100, 2_147_483_647), 4);
    assert_eq!(memlayout(-100, 2_147_483_647), 4);

    assert_eq!(memlayout(-1, 4_294_967_295), 8);
    assert_eq!(memlayout(0, 4_294_967_296), 8);
    assert_eq!(memlayout(-2_147_483_649, 2_147_483_647), 8);
    assert_eq!(memlayout(-2_147_483_648, 2_147_483_648), 8);

    assert_eq!(memlayout(0, 18_446_744_073_709_551_615), 8);
    assert_eq!(memlayout(-9_223_372_036_854_775_808, 9_223_372_036_854_775_807), 8);

    assert_eq!(memlayout(-1, 18_446_744_073_709_551_615), 16);

    assert_eq!(memlayout(0, 18_446_744_073_709_551_616), 16);
    assert_eq!(memlayout(-9_223_372_036_854_775_809, 9_223_372_036_854_775_807), 16);
    assert_eq!(memlayout(-9_223_372_036_854_775_808, 9_223_372_036_854_775_808), 16);
}

#[test]
fn print_val() {
    for i in 0..126 {
        let w = 2_i128.pow(i);
        assert_eq!(rb(w, w, w).get(), w);
        assert_eq!(rb(-w, -w, -w).get(), -w);
    }

    assert_eq!(rb(-128, 127, -128).get(), -128);
    assert_eq!(rb(-128, 127, -127).get(), -127);
    assert_eq!(rb(-128, 127, -30).get(), -30);
    assert_eq!(rb(-128, 127, -1).get(), -1);
    assert_eq!(rb(-128, 127, 0).get(), 0);
    assert_eq!(rb(-128, 127, 1).get(), 1);
    assert_eq!(rb(-128, 127, 30).get(), 30);
    assert_eq!(rb(-128, 127, 127).get(), 127);

    assert_eq!(rb(0, 200, 0).get(), 0);
    assert_eq!(rb(0, 200, 1).get(), 1);
    assert_eq!(rb(0, 200, 30).get(), 30);
    assert_eq!(rb(0, 200, 127).get(), 127);
    assert_eq!(rb(0, 200, 128).get(), 128);
    assert_eq!(rb(0, 200, 200).get(), 200);

    assert_eq!(rb(-1000, 1000, -500).get(), -500);
    assert_eq!(rb(-1000, 1000, -100).get(), -100);
    assert_eq!(rb(-1000, 1000, 0).get(), 0);
    assert_eq!(rb(-1000, 1000, 100).get(), 100);
    assert_eq!(rb(-1000, 1000, 500).get(), 500);

    assert_eq!(rb(0, 1000, 0).get(), 0);
    assert_eq!(rb(0, 1000, 100).get(), 100);
    assert_eq!(rb(0, 1000, 500).get(), 500);

    assert_eq!(rb(0, 65535, 0).get(), 0);
    assert_eq!(rb(0, 65535, 1).get(), 1);
    assert_eq!(rb(0, 65535, 65534).get(), 65534);
    assert_eq!(rb(0, 65535, 65535).get(), 65535);

    let x = rb(42, 42, 42);
    assert_eq!(x.to_string(), "42");
    assert_eq!(x.fmt_debug(), "r!(42)");

    let x = rb(400_000, 400_000, 400_000);
    assert_eq!(x.to_string(), "400000");

    let x = rb(4000, 4000, 4000);
    assert_eq!(x.to_string(), "4000");

    let x = rb(40, 40, 40);
    assert_eq!(x.to_string(), "40");

    let x = rb(0, 0, 0);
    assert_eq!(x.to_string(), "0");

    let x = rb(-400_000, -400_000, -400_000);
    assert_eq!(x.to_string(), "-400000");

    let x = rb(-4000, -4000, -4000);
    assert_eq!(x.to_string(), "-4000");

    let x = rb(-40, -40, -40);
    assert_eq!(x.to_string(), "-40");
}

#[test]
fn ranged_macro() {
    let x = rb(0, 4, 2);
    assert_eq!(x.to_string(), "2");
    assert_eq!(x.fmt_debug(), "r!([0 4] 2)");

    let x = rb(2, 15, 10);
    assert_eq!(x.to_string(), "10");
    assert_eq!(x.fmt_debug(), "r!([2 15] 10)");

    let x = rb(10, 10, 10);
    assert_eq!(x.to_string(), "10");
    assert_eq!(x.fmt_debug(), "r!(10)");
}

#[test]
fn eq() {
    let a = rb(20, 20, 20);
    let b = rb(40, 40, 40);
    assert_eq!(a, a);
    assert_eq!(
        ranged_integers::conversions::int_rem(15, a),
        ranged_integers::conversions::int_rem(15, b)
    );
    assert!(
        ranged_integers::conversions::int_rem(10, a)
            .add(ranged_integers::conversions::int_rem(15, b))
            == ranged_integers::conversions::int_rem(15, a)
                .add(ranged_integers::conversions::int_rem(10, b))
    );
    assert!(
        ranged_integers::conversions::int_rem(11, a)
            .add(ranged_integers::conversions::int_rem(15, b))
            != ranged_integers::conversions::int_rem(15, a)
                .add(ranged_integers::conversions::int_rem(10, b))
    );
    assert!(a != b);

    assert!(rb(40, 40, 40) > rb(20, 20, 20));
    assert!(rb(40, 40, 40) >= rb(20, 20, 20));
    assert!(rb(10, 10, 10) < rb(20, 20, 20));
    assert!(rb(10, 10, 10) <= rb(20, 20, 20));

    assert!(rb(40, 40, 40) > 20);
    assert!(rb(40, 40, 40) >= 20);
    assert!(rb(10, 10, 10) < 20);
    assert!(rb(10, 10, 10) <= 20);

    assert!(40 > rb(20, 20, 20));
    assert!(40 >= rb(20, 20, 20));
    assert!(10 < rb(20, 20, 20));
    assert!(10 <= rb(20, 20, 20));
}

#[test]
fn eqz() {
    let some_i32 = 4;
    let some_wrong_i32 = 8;
    assert!(Ranged::new(0, 6, some_i32) == Some(rb(0, 6, 4)));
    assert!(Ranged::new(0, 6, some_wrong_i32).is_none());
}

#[test]
fn native_bounds_kept() {
    let x = 15_u8.as_ranged();
    assert_eq!(x.bound_min(), 0);
    assert_eq!(x.bound_max(), 255);
    let y = 15_i16.as_ranged();
    assert_eq!(y.bound_min(), -32768);
    assert_eq!(y.bound_max(), 32767);
}

use ranged_integers::conversions::AsRanged;
use ranged_integers::Ranged;

fn rc(min: i128, max: i128, v: i128) -> Ranged {
    Ranged::create_const(min, max, v)
}

#[test]
fn convert() {
    assert_eq!(20, rc(0, 100, 20).i8());
    assert_eq!(20, rc(0, 100, 20).u8());
    assert_eq!(20, rc(0, 100, 20).i16());
    assert_eq!(20, rc(0, 100, 20).u16());
    assert_eq!(20, rc(0, 100, 20).i32());
    assert_eq!(20, rc(0, 100, 20).u32());
    assert_eq!(20, rc(0, 100, 20).i64());
    assert_eq!(20, rc(0, 100, 20).u64());
    assert_eq!(20, rc(0, 100, 20).i128());
    assert_eq!(20, rc(0, 100, 20).isize());
    assert_eq!(20, rc(0, 100, 20).usize());

    let x = 10_i8.as_ranged();
    assert_eq!(x.bound_min(), -128);
    assert_eq!(x.bound_max(), 127);
    assert_eq!(rc(10, 10, 10), x);
    let x = 10_u8.as_ranged();
    assert_eq!(x.bound_min(), 0);
    assert_eq!(x.bound_max(), 255);
    assert_eq!(rc(10, 10, 10), x);
    let x = 10_i16.as_ranged();
    assert_eq!(x.bound_min(), -32768);
    assert_eq!(x.bound_max(), 32767);
    assert_eq!(rc(10, 10, 10), x);
    let x = 10_u16.as_ranged();
    assert_eq!(x.bound_min(), 0);
    assert_eq!(x.bound_max(), 65535);
    assert_eq!(rc(10, 10, 10), x);
    let x = 10_i32.as_ranged();
    assert_eq!(x.bound_min(), -2_147_483_648);
    assert_eq!(x.bound_max(), 2_147_483_647);
    assert_eq!(rc(10, 10, 10), x);
    let x = 10_u32.as_ranged();
    assert_eq!(x.bound_min(), 0);
    assert_eq!(x.bound_max(), 4_294_967_295);
    assert_eq!(rc(10, 10, 10), x);
    let x = 10_i64.as_ranged();
    assert_eq!(x.bound_min(), -9_223_372_036_854_775_808);
    assert_eq!(x.bound_max(), 9_223_372_036_854_775_807);
    assert_eq!(rc(10, 10, 10), x);
    let x = 10_u64.as_ranged();
    assert_eq!(x.bound_min(), 0);
    assert_eq!(x.bound_max(), 18_446_744_073_709_551_615);
    assert_eq!(rc(10, 10, 10), x);
    let x = 10_usize.as_ranged();
    assert_eq!(x.bound_min(), usize::MIN as i128);
    assert_eq!(x.bound_max(), usize::MAX as i128);
    assert_eq!(rc(10, 10, 10), x);
    let x = 10_isize.as_ranged();
    assert_eq!(x.bound_min(), isize::MIN as i128);
    assert_eq!(x.bound_max(), isize::MAX as i128);
    assert_eq!(rc(10, 10, 10), x);
}

#[test]
fn expand() {
    let x = rc(0, 100, 20);
    assert_eq!(x, rc(20, 20, 20));

    let y = x.expand(-5, 200);
    assert_eq!(y, rc(20, 20, 20));
    assert_eq!(y.bound_min(), -5);
    assert_eq!(y.bound_max(), 200);

    let z = y.expand(-5, 200);
    assert_eq!(z, rc(20, 20, 20));

    let x_ex = 10_u8.as_ranged().expand(0, 600);
    assert_eq!(x_ex, rc(10, 10, 10));
    assert_eq!(x_ex.bound_max(), 600);
}

#[test]
fn fromstr() {
    let x = Ranged::from_str(0, 100, "42").unwrap();
    assert_eq!(x.get(), 42);

    let x = Ranged::from_str(0, 100, "333").ok();
    assert_eq!(x, None);

    let x = Ranged::from_str(-100, 100, "-42").unwrap();
    assert_eq!(x.get(), -42);

    let x = Ranged::from_str(-100, 100, "-333").ok();
    assert_eq!(x, None);

    let x = rc(16, 16, 16).to_string();
    assert_eq!(x, "16");
}

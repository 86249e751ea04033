use ranged_integers::iter::ConstInclusiveRange;
use ranged_integers::Ranged;

fn ri(min: i128, max: i128, v: i128) -> Ranged {
    Ranged::create_const(min, max, v)
}

#[test]
fn iter() {
    let mut s = String::new();
    let mut it = ConstInclusiveRange::new(0, 9).into_iter();
    while let Some(r) = it.next() {
        s.push_str(&format!("{} ", r.get()));
    }
    assert_eq!(s, "0 1 2 3 4 5 6 7 8 9 ");

    let mut stepped = Vec::new();
    let mut it = ConstInclusiveRange::new(0, 9).into_iter();
    let mut idx = 0;
    while let Some(r) = it.next() {
        if idx % 2 == 0 {
            stepped.push(r.get());
        }
        idx += 1;
    }
    assert_eq!(stepped, vec![0, 2, 4, 6, 8]);

    let mut stepped = Vec::new();
    let mut it = ConstInclusiveRange::new(0, 10).into_iter();
    let mut idx = 0;
    while let Some(r) = it.next() {
        if idx % 2 == 0 {
            stepped.push(r.get());
        }
        idx += 1;
    }
    assert_eq!(stepped, vec![0, 2, 4, 6, 8, 10]);

    let mut fibonacci = [0_i64; 10];
    fibonacci[0] = 1;
    fibonacci[1] = 1;
    let mut it = ConstInclusiveRange::new(2, 9).into_iter();
    while let Some(i) = it.next() {
        let k = i.usize();
        fibonacci[k] = fibonacci[k - 1] + fibonacci[k - 2];
    }
    assert_eq!(fibonacci, [1, 1, 2, 3, 5, 8, 13, 21, 34, 55]);

    let mut fib234: [_; 3] = [fibonacci[2], fibonacci[3], fibonacci[4]];
    assert_eq!(fib234, [2, 3, 5]);

    fib234[1] = 10;
    fib234[2] = 15;
    assert_eq!(fib234, [2, 10, 15]);

    let rfib = &mut fib234;
    rfib[0] = 0;
    rfib[1] = 5;
    assert_eq!(fib234, [0, 5, 15]);
}

#[test]
fn iter_up_walks_to_the_bound() {
    let mut it = ri(1, 6, 3).iter_up();
    let mut seen = Vec::new();
    while let Some(r) = it.next() {
        seen.push(r.get());
    }
    assert_eq!(seen, vec![3, 4, 5, 6]);
}

#[test]
fn nth_skips_and_stops() {
    let mut it = ConstInclusiveRange::new(0, 9).into_iter();
    let x = it.nth(3).unwrap();
    assert_eq!(x.get(), 3);
    let x = it.next().unwrap();
    assert_eq!(x.get(), 4);
    let x = it.nth(4).unwrap();
    assert_eq!(x.get(), 9);
    assert!(it.next().is_none());

    let mut it = ConstInclusiveRange::new(0, 9).into_iter();
    assert!(it.nth(10).is_none());
    assert!(it.next().is_none());
}

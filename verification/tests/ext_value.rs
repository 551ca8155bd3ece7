use data_transducers::ext_value::{apply1, apply2, apply3, apply4, Ext};

#[test]
fn ext_value_test_union() {
    let x0: Ext<i32> = Ext::Zero;
    let x1 = Ext::One(3);
    let x2: Ext<i32> = Ext::Many;
    assert_eq!(x0.add(x0), x0);
    assert_eq!(x0.add(x1), x1);
    assert_eq!(x1.add(x0), x1);
    assert_eq!(x0.add(x2), x2);
    assert_eq!(x2.add(x0), x2);
    assert_eq!(x1.add(x2), x2);
    assert_eq!(x2.add(x1), x2);
    assert_eq!(x2.add(x2), x2);
}

#[test]
fn test_prod() {
    let x0: Ext<i32> = Ext::Zero;
    let x1 = Ext::One(3);
    let x2 = Ext::One(5);
    let x3: Ext<i32> = Ext::Many;
    assert_eq!(x0.mul(x0), Ext::Zero);
    assert_eq!(x0.mul(x1), Ext::Zero);
    assert_eq!(x0.mul(x3), Ext::Zero);
    assert_eq!(x2.mul(x0), Ext::Zero);
    assert_eq!(x3.mul(x0), Ext::Zero);
    assert_eq!(x1.mul(x1), Ext::One((3, 3)));
    assert_eq!(x1.mul(x2), Ext::One((3, 5)));
    assert_eq!(x2.mul(x1), Ext::One((5, 3)));
    assert_eq!(x2.mul(x2), Ext::One((5, 5)));
    assert_eq!(x1.mul(x3), Ext::Many);
    assert_eq!(x3.mul(x2), Ext::Many);
    assert_eq!(x3.mul(x3), Ext::Many);
}

#[test]
fn test_union_string() {
    let x0: Ext<String> = Ext::Zero;
    let x1: Ext<String> = Ext::One("Hello".to_owned());
    let x2: Ext<String> = Ext::One("World".to_owned());
    let x3: Ext<String> = Ext::Many;
    assert_eq!(x0.clone().add(x0.clone()), x0);
    assert_eq!(x0.clone().add(x1.clone()), x1);
    assert_eq!(x1.clone().add(x0.clone()), x1);
    assert_eq!(x1.clone().add(x2.clone()), x3);
    assert_eq!(x0.clone().add(x2.clone()), x2);
    assert_eq!(x0.clone().add(x3.clone()), x3);
    assert_eq!(x3.clone().add(x0.clone()), x3);
    assert_eq!(x1.clone().add(x3.clone()), x3);
    assert_eq!(x3.clone().add(x2.clone()), x3);
    assert_eq!(x3.clone().add(x3.clone()), x3);
    drop(x0);
    drop(x1);
    drop(x2);
    drop(x3);
}

#[test]
#[allow(clippy::eq_op)]
fn test_eq() {
    assert_eq!(Ext::One(3), Ext::One(1 + 2));
    assert_ne!(Ext::One(-1), Ext::One(1));
    assert_ne!(Ext::One(0), Ext::Zero);
    assert_ne!(Ext::Zero, Ext::One(0));
    let x1: Ext<i32> = Ext::Zero;
    let x2: Ext<i32> = Ext::Zero;
    let x3: Ext<i32> = Ext::Many;
    assert_ne!(x2, x3);
    assert_eq!(x1, x2);
    assert_eq!(x1, x1);
}

#[test]
fn test_apply() {
    let x0: Ext<i32> = Ext::Zero;
    let x1 = Ext::One(3);
    assert_eq!(apply1(i32::count_ones, x0), Ext::Zero);
    assert_eq!(apply1(i32::count_ones, x1), Ext::One(2));
    let y0: Ext<&str> = Ext::Zero;
    let y1: Ext<&str> = Ext::from("hello");
    let y2: Ext<String> = Ext::from(String::from("world"));
    assert_eq!(apply1(str::len, y0), Ext::Zero);
    assert_eq!(apply1(str::len, y1), Ext::One(5));
    assert_eq!(apply1(String::from, Ext::from("world")), y2);
    assert_eq!(apply1(Ext::from, Ext::One(5)), Ext::One(Ext::One(5)));
}

#[test]
fn test_apply2() {
    let x0: Ext<i32> = Ext::Zero;
    let x1 = Ext::One(3);
    let x2 = Ext::One(2);
    let x3: Ext<i32> = Ext::Many;
    assert_eq!(apply2(std::ops::Add::add, x1, x2), Ext::One(5));
    assert_eq!(apply2(std::ops::Add::add, x2, x2), Ext::One(4));
    assert_eq!(apply2(std::ops::Mul::mul, x1, x3), Ext::Many);
    assert_eq!(apply2(std::ops::Mul::mul, x3, x0), Ext::Zero);
}

#[test]
fn test_apply3() {
    let x0: Ext<i32> = Ext::Zero;
    let x1 = Ext::One(3);
    let x2 = Ext::One(2);
    let x3: Ext<i32> = Ext::Many;
    let vec_3 = |a: i32, b: i32, c: i32| vec![a, b, c];
    assert_eq!(apply3(vec_3, x1, x2, x1), Ext::One(vec![3, 2, 3]));
    assert_eq!(apply3(vec_3, x1, x0, x3), Ext::Zero);
    assert_eq!(apply3(vec_3, x1, x3, x1), Ext::Many);
}

#[test]
fn test_apply4() {
    let x0: Ext<i32> = Ext::Zero;
    let x1 = Ext::One(3);
    let x2 = Ext::One(2);
    let x3: Ext<i32> = Ext::Many;
    let vec_4 = |a: i32, b: i32, c: i32, d: i32| vec![a, b, c, d];
    assert_eq!(apply4(vec_4, x1, x2, x1, x1), Ext::One(vec![3, 2, 3, 3]));
    assert_eq!(apply4(vec_4, x1, x0, x3, x1), Ext::Zero);
    assert_eq!(apply4(vec_4, x1, x3, x1, x1), Ext::Many);
}

#[test]
fn test_apply_no_invoke() {
    // The function argument is never consulted when any input is absent or
    // conflicting: a panicking function passes straight through.
    let x0: Ext<i32> = Ext::Zero;
    let x3: Ext<i32> = Ext::Many;
    assert_eq!(apply1(|_x: i32| -> i32 { panic!("invoked") }, x0), Ext::Zero);
    assert_eq!(apply1(|_x: i32| -> i32 { panic!("invoked") }, x3), Ext::Many);
    assert_eq!(
        apply2(|_x: i32, _y: i32| -> i32 { panic!("invoked") }, x0, Ext::One(1)),
        Ext::Zero
    );
    assert_eq!(
        apply2(|_x: i32, _y: i32| -> i32 { panic!("invoked") }, Ext::One(1), x3),
        Ext::Many
    );
}

#[test]
fn test_conversions() {
    // Lifting from an optional value, and flattening back; the conflict
    // direction is lossy by design.
    assert_eq!(Ext::from(Some(7)), Ext::One(7));
    assert_eq!(Ext::<i32>::from(None::<i32>), Ext::Zero);
    assert_eq!(Ext::One(7).into_inner(), Some(7));
    assert_eq!(Ext::<i32>::Zero.into_inner(), None);
    assert_eq!(Ext::<i32>::Many.into_inner(), None);
    assert_eq!(Ext::<i32>::default(), Ext::Zero);
    assert_eq!(Ext::from_vec(Vec::<i32>::new()), Ext::Zero);
    assert_eq!(Ext::from_vec(vec![4]), Ext::One(4));
    assert_eq!(Ext::from_vec(vec![4, 5]), Ext::Many);
    assert_eq!(Ext::from_vec(vec![4, 4, 4]), Ext::Many);
    assert_eq!(Ext::One(3).to_unit(), Ext::One(()));
    assert_eq!(Ext::<i32>::Zero.to_unit(), Ext::Zero);
    assert_eq!(Ext::<i32>::Many.to_unit(), Ext::Many);
    assert_eq!(Ext::One(3).unwrap(), 3);
    assert_eq!(Ext::One(3).get_one(), Some(&3));
    assert_eq!(Ext::<i32>::Many.get_one(), None);
    assert!(Ext::<i32>::Zero.is_none());
    assert!(Ext::One(0).is_one());
    assert!(Ext::<i32>::Many.is_many());
    let (a, b) = Ext::One((1, "x")).split(|p| p);
    assert_eq!(a, Ext::One(1));
    assert_eq!(b, Ext::One("x"));
    let mut c = Ext::One(2);
    c.add_assign(Ext::One(3));
    assert_eq!(c, Ext::Many);
    let mut d = Ext::One(2);
    d.mul_assign(Ext::Zero);
    assert_eq!(d, Ext::Zero);
    let mut e = Ext::One(2);
    e.mul_assign(Ext::Many);
    assert_eq!(e, Ext::Many);
}

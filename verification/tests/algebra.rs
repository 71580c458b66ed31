use cplib::algebra::{FnGroup, FnMonoid, Group, Max, Min, Monoid, Prod, Sum};

#[test]
fn marker_monoids() {
    let min = Min::<i64>::new();
    assert_eq!(min.identity(), i64::MAX);
    assert_eq!(min.binary_op(&3, &5), 3);

    let max = Max::<i64>::new();
    assert_eq!(max.identity(), i64::MIN);
    assert_eq!(max.binary_op(&3, &5), 5);

    let sum = Sum::<i64>::new();
    assert_eq!(sum.identity(), 0);
    assert_eq!(sum.binary_op(&3, &5), 8);

    let prod = Prod::<i64>::new();
    assert_eq!(prod.identity(), 1);
    assert_eq!(prod.binary_op(&3, &5), 15);
}

#[test]
fn sum_group() {
    let g = Sum::<i64>::new();
    assert_eq!(g.inv_binary_op(&3, &5), -2);
    assert_eq!(g.inverse(&5), -5);
    let u = Sum::<usize>::new();
    assert_eq!(u.inv_binary_op(&10, &4), 6);
    assert_eq!(u.binary_op(&u.inv_binary_op(&10, &4), &4), 10);
}

#[test]
fn fn_group_captures_constant() {
    let modulo = 998_244_353i64;
    let g = FnGroup::new(
        0,
        move |a: &i64, b: &i64| (a + b) % modulo,
        move |a: &i64, b: &i64| (a - b).rem_euclid(modulo),
    );
    assert_eq!(g.binary_op(&(modulo - 1), &2), 1);
    assert_eq!(g.inv_binary_op(&1, &2), modulo - 1);
    assert_eq!(g.inverse(&2), modulo - 2);
}

#[test]
fn fn_monoid_captures_constant() {
    let modulo = 998_244_353u64;
    let m = FnMonoid::new(1, move |a: &u64, b: &u64| a * b % modulo);
    assert_eq!(m.identity(), 1);
    assert_eq!(m.binary_op(&(modulo - 1), &2), modulo - 2);
}

#[test]
fn wrapping_sum_and_product() {
    let s = Sum::<u64>::new();
    assert_eq!(s.binary_op(&u64::MAX, &2), 1);
    let p = Prod::<i32>::new();
    assert_eq!(p.binary_op(&0x10000, &0x10000), 0);
    assert_eq!(p.identity(), 1);
}

#[test]
fn marker_monoids_other_widths() {
    assert_eq!(Min::<u8>::new().identity(), u8::MAX);
    assert_eq!(Max::<i8>::new().identity(), i8::MIN);
    assert_eq!(Min::<i16>::new().binary_op(&-3, &5), -3);
    assert_eq!(Max::<u16>::new().binary_op(&3, &5), 5);
    assert_eq!(Sum::<u8>::new().binary_op(&200, &100), 44);
    assert_eq!(Sum::<i128>::new().binary_op(&i128::MAX, &1), i128::MIN);
    assert_eq!(Sum::<u32>::new().inv_binary_op(&1, &2), u32::MAX);
    assert_eq!(Sum::<isize>::new().inverse(&5), -5);
    assert_eq!(Prod::<u128>::new().binary_op(&6, &7), 42);
    assert_eq!(Prod::<i8>::new().binary_op(&16, &16), 0);
    assert_eq!(Prod::<u16>::new().identity(), 1);
}

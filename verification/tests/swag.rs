use cplib::algebra::{FnMonoid, Min, Sum};
use cplib::swag::{window_prods, Swag};

#[test]
fn push_pop_prod() {
    let mut swag = Swag::new(Sum::<i64>::new());
    assert!(swag.is_empty());
    assert_eq!(swag.prod(), 0);
    assert_eq!(swag.pop(), None);

    for x in 1..=4 {
        swag.push(x);
    }
    assert_eq!(swag.len(), 4);
    assert_eq!(swag.front(), Some(&1));
    assert_eq!(swag.prod(), 10);

    assert_eq!(swag.pop(), Some(1));
    assert_eq!(swag.prod(), 9);
    swag.push(5);
    assert_eq!(swag.prod(), 14);
    assert_eq!(swag.pop(), Some(2));
    assert_eq!(swag.pop(), Some(3));
    assert_eq!(swag.pop(), Some(4));
    assert_eq!(swag.pop(), Some(5));
    assert!(swag.is_empty());
    assert_eq!(swag.prod(), 0);
}

#[test]
fn non_commutative_keeps_order() {
    let mut swag = Swag::new(FnMonoid::new(String::new(), |a: &String, b: &String| {
        format!("{a}{b}")
    }));
    for c in ["a", "b", "c", "d"] {
        swag.push(c.to_string());
    }
    assert_eq!(swag.prod(), "abcd");
    swag.pop();
    assert_eq!(swag.prod(), "bcd");
    swag.push("e".to_string());
    assert_eq!(swag.prod(), "bcde");
    swag.pop();
    assert_eq!(swag.prod(), "cde");
}

#[test]
fn sliding_window_min() {
    let a = [3i64, 1, 4, 1, 5, 9, 2, 6];
    for k in 1..=a.len() {
        let expected: Vec<i64> = a.windows(k).map(|w| *w.iter().min().unwrap()).collect();
        assert_eq!(window_prods(&a, k, Min::<i64>::new()), expected, "k = {k}");
    }
    assert_eq!(window_prods(&a, 0, Min::<i64>::new()), Vec::<i64>::new());
    assert_eq!(window_prods(&a, a.len() + 1, Min::<i64>::new()), Vec::<i64>::new());
}

#[test]
fn matches_naive_on_random_ops() {
    let mut state = 88172645463325252u64;
    let mut next = || {
        state ^= state << 13;
        state ^= state >> 7;
        state ^= state << 17;
        state
    };
    let mut swag = Swag::new(Min::<i64>::new());
    let mut naive: std::collections::VecDeque<i64> = Default::default();
    for _ in 0..2000 {
        if next() % 3 == 0 {
            assert_eq!(swag.pop(), naive.pop_front());
        } else {
            let v = (next() % 100) as i64;
            swag.push(v);
            naive.push_back(v);
        }
        assert_eq!(swag.len(), naive.len());
        let expected = naive.iter().copied().min().unwrap_or(i64::MAX);
        assert_eq!(swag.prod(), expected);
        assert_eq!(swag.front(), naive.front());
    }
}

#[test]
fn clear_empties_the_window() {
    let mut swag = Swag::new(Sum::<i64>::new());
    for x in [5, 6, 7] {
        swag.push(x);
    }
    swag.clear();
    assert!(swag.is_empty());
    assert_eq!(swag.prod(), 0);
    swag.push(9);
    assert_eq!(swag.front(), Some(&9));
    assert_eq!(swag.prod(), 9);
}

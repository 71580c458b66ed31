use cplib::algebra::{FnGroup, Sum, Xor};
use cplib::prefix_sum::PrefixSum;

#[test]
fn prod_matches_naive() {
    let a = [1i64, 2, 3, 4, 5];
    let ps = PrefixSum::<Sum<i64>>::from_slice(&a);
    assert_eq!(ps.len(), 5);
    assert_eq!(ps.cum(), [0, 1, 3, 6, 10, 15]);
    for l in 0..=a.len() {
        for r in l..=a.len() {
            assert_eq!(ps.prod(l, r), a[l..r].iter().sum::<i64>(), "{l}..{r}");
        }
    }
    assert_eq!(ps.all_prod(), 15);
    assert_eq!(ps.prod(0, ps.len()), 15);
    assert_eq!(ps.prod(1, 2 + 1), 5);
}

#[test]
fn range_semantics() {
    let ps = PrefixSum::new((0..100i64).collect(), Sum::<i64>::new());
    assert_eq!(ps.prod(50, ps.len()), ps.prod(50, 100));
    assert_eq!(ps.prod(50, ps.len()), (50..100).sum::<i64>());
    let (l, r) = (50, 10);
    assert_eq!(ps.prod(l, r), 0);
    assert_eq!(ps.prod(100, 100), 0);
}

#[test]
fn prefix_xor() {
    let a = [0b1100u64, 0b1010, 0b0110, 0b0001];
    let ps = PrefixSum::<Xor<u64>>::from_slice(&a);
    for l in 0..=a.len() {
        for r in l..=a.len() {
            let expected = a[l..r].iter().fold(0, |acc, x| acc ^ x);
            assert_eq!(ps.prod(l, r), expected, "{l}..{r}");
        }
    }
}

#[test]
fn unsigned_and_empty() {
    let ps = PrefixSum::<Sum<usize>>::from_slice(&[3, 1, 4, 1, 5]);
    assert_eq!(ps.prod(1, 4), 6);

    let empty = PrefixSum::<Sum<i64>>::from_slice(&[]);
    assert!(empty.is_empty());
    assert_eq!(empty.prod(0, empty.len()), 0);
    assert_eq!(empty.all_prod(), 0);
}

#[test]
fn group_can_carry_constants() {
    let modulo = 1_000_000_007i64;
    let ps = PrefixSum::new(
        vec![modulo - 1, 5, 7],
        FnGroup::new(
            0,
            move |a: &i64, b: &i64| (a + b) % modulo,
            move |a: &i64, b: &i64| (a - b).rem_euclid(modulo),
        ),
    );
    assert_eq!(ps.prod(0, 2), 4);
    assert_eq!(ps.all_prod(), 11);
}

#[test]
fn prod_is_difference_of_prefixes() {
    let ps = PrefixSum::<Sum<i64>>::from_slice(&[7, -2, 5, 0, 3]);
    let cum = ps.cum().to_vec();
    for l in 0..=5 {
        for r in l..=5 {
            assert_eq!(ps.prod(l, r), cum[r] - cum[l]);
        }
    }
}

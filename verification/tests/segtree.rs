use cplib::algebra::{FnMonoid, Min, Sum};
use cplib::segtree::SegTree;

#[test]
fn min_prod() {
    let a = vec![5, 3, 7, 1, 9, 2];
    let tree = SegTree::from_vec(a.clone(), Min::<i64>::new());
    assert_eq!(tree.len(), a.len());
    for l in 0..=a.len() {
        for r in l..=a.len() {
            let expected = a[l..r].iter().copied().min().unwrap_or(i64::MAX);
            assert_eq!(tree.prod(l, r), expected, "range {l}..{r}");
        }
    }
    assert_eq!(tree.all_prod(), 1);
    assert_eq!(tree.prod(0, tree.len()), 1);
    assert_eq!(tree.prod(1, 2 + 1), 3);
}

#[test]
fn set_and_update() {
    let mut tree = SegTree::from_vec(vec![1, 2, 3, 4], Sum::<i64>::new());
    assert_eq!(tree.all_prod(), 10);
    tree.set(0, 10);
    assert_eq!(*tree.get(0), 10);
    assert_eq!(tree.prod(0, 2), 12);
    tree.update(3, |x: &i64| x * 2);
    assert_eq!(tree.all_prod(), 23);
}

#[test]
fn new_is_filled_with_identity() {
    let tree = SegTree::new(5, Sum::<i64>::new());
    assert_eq!(tree.all_prod(), 0);
    assert_eq!(tree.prod(0, tree.len()), 0);
    assert_eq!(*tree.get(4), 0);
}

#[test]
fn empty_tree() {
    let tree = SegTree::new(0, Sum::<i64>::new());
    assert!(tree.is_empty());
    assert_eq!(tree.prod(0, tree.len()), 0);
    assert_eq!(tree.all_prod(), 0);
}

#[test]
fn monoid_can_carry_constants() {
    let modulo = 1_000_000_007u64;
    let tree = SegTree::from_vec(
        vec![modulo - 1, 2, 3],
        FnMonoid::new(1, move |a: &u64, b: &u64| a * b % modulo),
    );
    assert_eq!(tree.all_prod(), (modulo - 1) * 6 % modulo);
    assert_eq!(tree.prod(1, 3), 6);
}

#[test]
fn empty_range_is_identity() {
    let tree = SegTree::from_vec(vec![1, 2, 3, 4], Sum::<i64>::new());
    let (l, r) = (3, 1);
    assert_eq!(tree.prod(2, 2), 0);
    assert_eq!(tree.prod(l, r), 0);
    assert_eq!(tree.prod(l, r + 1), 0);
    assert_eq!(tree.prod(100, 100), 0);
    assert_eq!(tree.prod(usize::MAX, tree.len()), 0);
    assert_eq!(tree.prod(0, 0), 0);
}

fn tree_100() -> SegTree<Sum<i64>> {
    SegTree::from_vec((0..100).collect(), Sum::<i64>::new())
}

#[test]
fn lib_range_semantics() {
    let tree = tree_100();
    assert_eq!(tree.prod(50, tree.len()), tree.prod(50, 100));
    assert_eq!(tree.prod(50, tree.len()), (50..100).sum::<i64>());
    let (l, r) = (50, 10);
    assert_eq!(tree.prod(l, r), 0);
}

#[test]
fn set_then_get_and_neighbours() {
    let mut tree = SegTree::from_vec(vec![4, 8, 15, 16, 23, 42], Min::<i64>::new());
    tree.set(2, 1);
    assert_eq!(*tree.get(2), 1);
    assert_eq!(*tree.get(1), 8);
    assert_eq!(*tree.get(3), 16);
    assert_eq!(tree.prod(0, 2), 4);
    assert_eq!(tree.prod(0, 3), 1);
    assert_eq!(tree.prod(3, 6), 16);
}

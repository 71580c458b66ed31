use cplib::lis::LIS;

fn is_increasing_subsequence<T: Ord>(a: &[T], idx: &[usize]) -> bool {
    idx.windows(2).all(|w| w[0] < w[1] && a[w[0]] < a[w[1]])
}

#[test]
fn lis_len() {
    assert_eq!([2, 1, 3, 5, 4][..].lis(), 3);
    assert_eq!([1, 1, 1][..].lis(), 1);
    assert_eq!(([] as [i32; 0])[..].lis(), 0);
}

#[test]
fn restore() {
    let a = [2, 1, 3, 5, 4];
    let idx = a[..].lis_restore();
    assert_eq!(idx.len(), a[..].lis());
    assert!(is_increasing_subsequence(&a, &idx));
}

#[test]
fn restore_empty_and_flat() {
    assert_eq!(([] as [i32; 0])[..].lis_restore(), Vec::<usize>::new());
    assert_eq!([7, 7, 7][..].lis_restore().len(), 1);
}

#[test]
fn restore_matches_len_on_random() {
    let mut state = 12345u64;
    let mut next = || {
        state = state.wrapping_mul(6364136223846793005).wrapping_add(1);
        (state >> 33) % 20
    };
    for _ in 0..200 {
        let a: Vec<u64> = (0..30).map(|_| next()).collect();
        let idx = a.lis_restore();
        assert_eq!(idx.len(), a.lis(), "{a:?}");
        assert!(is_increasing_subsequence(&a, &idx), "{a:?} -> {idx:?}");
    }
}

#[test]
fn lis_of_strictly_decreasing_is_one() {
    assert_eq!([5, 4, 3, 2, 1][..].lis(), 1);
    assert_eq!([1, 2, 3, 4][..].lis_restore(), vec![0, 1, 2, 3]);
}

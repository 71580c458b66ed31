use cplib::array::ArrayExt;

#[test]
fn zip_with() {
    assert_eq!([1, 2, 3].zip_with([4, 5, 6], |a, b| a + b), [5, 7, 9]);
}

#[test]
fn arr_min_max() {
    assert_eq!([3, 1, 2].arr_min(), 1);
    assert_eq!([3, 1, 2].arr_max(), 3);
}

#[test]
fn arr_min_max_ties_and_single() {
    assert_eq!([(1, 'a'), (0, 'b'), (0, 'c')].map(|p| p.0).arr_min(), 0);
    assert_eq!([42].arr_max(), 42);
    assert_eq!([2u8, 9, 9].zip_with([1u8, 1, 1], |a, b| a - b), [1, 8, 8]);
}

use cplib::binary_search::binary_search;

#[test]
fn test_binary_search() {
    assert_eq!(binary_search(0, 100, |i| i * i < 100), 9);
}

#[test]
fn binary_search_downward_and_types() {
    assert_eq!(binary_search(100i64, -1, |i| i * i >= 50), 8);
    assert_eq!(binary_search(0u8, 255, |i| i < 200), 199);
    assert_eq!(binary_search(-50i32, 50, |i| i < -10), -11);
    assert_eq!(binary_search(3usize, 4, |_| false), 3);
}

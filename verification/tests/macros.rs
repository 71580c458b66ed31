use cplib::utils::macros::{chmax, chmin, mat2, mat3};

#[test]
fn test_chminmax() {
    let mut a = [0, 1, 2, 3, 4];
    let b = a[0];
    assert!(chmin(&mut a[3], b));
    let c = a[4];
    assert!(chmax(&mut a[0], c));
    assert_eq!(a[3], 0);
    assert_eq!(a[0], 4);
}

#[test]
fn test_mat() {
    let a = mat3(0, 3, 4, 5);
    assert_eq!(a, vec![vec![vec![0; 5]; 4]; 3]);
}

#[test]
fn chmin_keeps_on_tie() {
    let mut x = 5;
    assert!(!chmin(&mut x, 5));
    assert!(!chmax(&mut x, 5));
    assert!(!chmax(&mut x, 1));
    assert_eq!(x, 5);
    assert_eq!(mat2('x', 2, 1), vec![vec!['x'], vec!['x']]);
}

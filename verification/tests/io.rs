use cplib::io::{chars, joined, matrix, possible_impossible, yes_no, yes_no_upper};

#[test]
fn yes_no_family() {
    assert_eq!(yes_no(true), "Yes");
    assert_eq!(yes_no_upper(false), "NO");
    assert_eq!(possible_impossible(true), "Possible");
}

#[test]
fn yes_no_family_other_branches() {
    assert_eq!(yes_no(false), "No");
    assert_eq!(yes_no_upper(true), "YES");
    assert_eq!(possible_impossible(false), "Impossible");
}

#[test]
fn format_line_and_joined() {
    assert_eq!(cplib::io::line(&[1, 2, 3]), "1 2 3");
    assert_eq!(joined(&[1, 2, 3], ","), "1,2,3");
    assert_eq!(cplib::io::line::<i32>(&[]), "");
}

#[test]
fn format_matrix_and_chars() {
    assert_eq!(matrix(&[vec![1, 2], vec![3, 4]]), "1 2\n3 4");
    assert_eq!(chars(&['a', 'b', 'c']), "abc");
}

#[test]
fn format_edge_cases() {
    assert_eq!(matrix::<i32>(&[]), "");
    assert_eq!(joined(&["ab", "cd"], ", "), "ab, cd");
    assert_eq!(chars(&[]), "");
}

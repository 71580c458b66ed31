use cplib::prim::IntN;
use cplib::vector::{ParseVectorError, Scalar, Vector};

type V2 = Vector<i64, 2>;

fn parse<T: std::str::FromStr, const N: usize>(s: &str) -> Result<Vector<T, N>, ParseVectorError<T::Err>> {
    Vector::from_parsed(s.split_ascii_whitespace().map(T::from_str).collect())
}

#[test]
fn constructs_various_ways() {
    let expected = Vector([1, 2]);
    assert_eq!(V2::new(1, 2), expected);
    assert_eq!(V2::from([1, 2]), expected);
    assert_eq!(V2::from((1, 2)), expected);
    assert_eq!(<[i64; 2]>::from(expected), [1, 2]);
    assert_eq!(<(i64, i64)>::from(expected), (1, 2));
    assert_eq!(V2::from_fn(|i| i as i64 + 1), expected);
    assert_eq!(V2::splat(1), Vector([1, 1]));
    assert_eq!(V2::default(), Vector([0, 0]));
    assert_eq!(Vector::<i64, 3>::new(1, 2, 3), Vector([1, 2, 3]));
    assert_eq!(Vector::<i64, 4>::new(1, 2, 3, 4), Vector([1, 2, 3, 4]));
}

#[test]
fn maps_elements() {
    assert_eq!(Vector([1i64, -2]).map(|x| x.abs()), Vector([1, 2]));
    assert_eq!(Vector([1i64, 2]).map(|x| x as f64 / 2.0), Vector([0.5, 1.0]));
}

#[test]
fn parses_whitespace_separated() {
    assert_eq!(parse::<i64, 2>("1 -2"), Ok(Vector([1, -2])));
    assert_eq!(parse::<i64, 3>("  3\t4\n5 "), Ok(Vector([3, 4, 5])));
    assert_eq!(parse::<f64, 2>("2.5 0.5"), Ok(Vector([2.5, 0.5])));
}

#[test]
fn rejects_wrong_arity() {
    assert_eq!(parse::<i64, 2>("1 2 3"), Err(ParseVectorError::Arity { expected: 2, found: 3 }));
    assert_eq!(parse::<i64, 2>("1"), Err(ParseVectorError::Arity { expected: 2, found: 1 }));
    assert_eq!(parse::<i64, 2>(""), Err(ParseVectorError::Arity { expected: 2, found: 0 }));
}

#[test]
fn reports_element_error() {
    let err = parse::<i64, 2>("1 x").unwrap_err();
    assert!(matches!(err, ParseVectorError::Element(_)));
}

#[test]
fn dot_and_cross() {
    assert_eq!(Vector([1i64, 2]).cross(Vector([3, 4])), -2);
    assert_eq!(Vector([1i64, 0, 0]).cross(Vector([0, 1, 0])), Vector([0, 0, 1]));
}

#[test]
fn sorts_by_angle() {
    let mut v = vec![
        Vector([0i64, -1]),
        Vector([-1, 0]),
        Vector([1, 1]),
        Vector([1, 0]),
        Vector([-1, -1]),
        Vector([0, 2]),
    ];
    v.sort_by(|a, b| a.argcmp(b));
    assert_eq!(
        v,
        vec![Vector([1, 0]), Vector([1, 1]), Vector([0, 2]), Vector([-1, 0]), Vector([-1, -1]), Vector([0, -1])]
    );
    assert_eq!(Vector([2i64, 2]).argcmp(&Vector([1, 1])), std::cmp::Ordering::Equal);
    assert_eq!(Vector([0i64, 0]).argcmp(&Vector([3, 5])), std::cmp::Ordering::Equal);
}

#[test]
#[allow(clippy::op_ref)]
fn arithmetic_by_coordinates() {
    let a = Vector([1i64, 2]);
    let b = Vector([3i64, 5]);
    assert_eq!(a + b, Vector([4, 7]));
    assert_eq!(&a - b, Vector([-2, -3]));
    assert_eq!(a * &b, Vector([3, 10]));
    assert_eq!(&b / &a, Vector([3, 2]));
    assert_eq!(a * Scalar(3), Vector([3, 6]));
    assert_eq!(&b - Scalar(1), Vector([2, 4]));
    assert_eq!(-a, Vector([-1, -2]));
    assert_eq!(-&b, Vector([-3, -5]));
    assert_eq!(a[1], 2);
    assert_eq!(a.len(), 2);
}

#[test]
fn vectors_are_points() {
    assert_eq!(Vector([3i32, -4]).to_ints(), [3, -4]);
    assert_eq!(Vector([1u8, 2, 3]).to_index(), [1, 2, 3]);
}

#[test]
fn argcmp_is_transitive_across_half_planes() {
    let a = Vector([1i64, 0]);
    let b = Vector([0i64, 1]);
    let c = Vector([-1i64, -1]);
    let d = Vector([1i64, -5]);
    assert_eq!(a.argcmp(&b), std::cmp::Ordering::Less);
    assert_eq!(b.argcmp(&c), std::cmp::Ordering::Less);
    assert_eq!(a.argcmp(&c), std::cmp::Ordering::Less);
    assert_eq!(c.argcmp(&d), std::cmp::Ordering::Less);
    assert_eq!(b.argcmp(&d), std::cmp::Ordering::Less);
}

#[test]
fn cross_is_orthogonal_to_its_factors() {
    let a = Vector([3i64, -7, 2]);
    let b = Vector([-4i64, 5, 11]);
    let c = a.cross(b);
    assert_eq!(c, Vector([-87i64, -41, -13]));
    assert_eq!(c.0[0] * a.0[0] + c.0[1] * a.0[1] + c.0[2] * a.0[2], 0);
    assert_eq!(c.0[0] * b.0[0] + c.0[1] * b.0[1] + c.0[2] * b.0[2], 0);
}

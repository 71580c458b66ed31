use cplib::algebra::{Group, Monoid, Prod, Sum};
use cplib::modint::{inv_gcd, ModInt, ModInt998244353};
use cplib::prefix_sum::PrefixSum;
use cplib::segtree::SegTree;

type Mi = ModInt998244353;
const P: u64 = 998_244_353;

struct XorShift {
    state: u64,
}

impl XorShift {
    fn new() -> Self {
        XorShift { state: 88172645463325252u64 }
    }

    fn next(&mut self) -> u64 {
        self.state ^= self.state << 13;
        self.state ^= self.state >> 7;
        self.state ^= self.state << 17;
        self.state
    }
}

#[test]
fn ops_match_naive() {
    let mut rng = XorShift::new();
    for _ in 0..2000 {
        let (a, b) = (rng.next() % P, rng.next() % P);
        let (ma, mb) = (Mi::new(a), Mi::new(b));
        assert_eq!((ma + mb).val() as u64, (a + b) % P);
        assert_eq!((ma - mb).val() as u64, (a + P - b) % P);
        assert_eq!((ma * mb).val() as u64, a * b % P);
        assert_eq!((-ma).val() as u64, (P - a) % P);
    }
}

#[test]
fn inv_and_div() {
    for x in 1..100u32 {
        let m = Mi::new(x);
        assert_eq!((m * m.inv()).val(), 1);
        assert_eq!((m / m).val(), 1);
    }
    type M10 = ModInt<10>;
    assert_eq!((M10::new(3u32) * M10::new(3u32).inv()).val(), 1);
}

#[test]
fn pow_matches_naive() {
    let base = Mi::new(3u32);
    let mut expected = Mi::new(1u32);
    for e in 0..200u64 {
        assert_eq!(base.pow(e), expected);
        expected = expected * base;
    }
    assert_eq!(Mi::new(12345u32).pow(P - 1).val(), 1);
}

#[test]
fn negative_and_large_inputs() {
    assert_eq!(Mi::new(-1i64).val() as u64, P - 1);
    assert_eq!(Mi::new(-(P as i64) - 5).val() as u64, P - 5);
    assert_eq!(Mi::new(u64::MAX).val() as u64, u64::MAX % P);
    assert_eq!(Mi::from(-3i32), -Mi::new(3u32));
}

#[test]
fn modulus_one_is_degenerate() {
    type M1 = ModInt<1>;
    assert_eq!(M1::new(5u32).val(), 0);
    assert_eq!(M1::new(5u32).pow(3).val(), 0);
    assert_eq!((M1::new(1u32) + M1::new(1u32)).val(), 0);
}

fn gcd(a: i64, b: i64) -> i64 {
    if b == 0 {
        a
    } else {
        gcd(b, a % b)
    }
}

#[test]
fn inv_gcd_basic() {
    assert_eq!(inv_gcd(0, 7), (7, 0));
    assert_eq!(inv_gcd(3, 7).0, 1);
    assert_eq!(inv_gcd(4, 6).0, 2);
    for b in 2..50i64 {
        for a in 0..50i64 {
            let (g, x) = inv_gcd(a, b);
            assert_eq!(g, gcd(a.rem_euclid(b), b));
            assert_eq!((a.rem_euclid(b) * x - g).rem_euclid(b), 0, "a={a} b={b}");
        }
    }
}

#[test]
fn sqrt_matches_square() {
    let mut found = 0;
    for x in 0..200u32 {
        let v = Mi::new(x);
        match v.sqrt() {
            Some(r) => {
                assert_eq!(r * r, v, "x = {x}");
                found += 1;
            }
            None => {
                assert_ne!(v.pow((P - 1) / 2), Mi::new(1u32), "x = {x}");
            }
        }
    }
    assert!(found > 50, "too few quadratic residues: {found}");
}

#[test]
fn sqrt_on_small_primes() {
    type M7 = ModInt<7>;
    for x in 0..7u32 {
        let v = M7::new(x);
        if let Some(r) = v.sqrt() {
            assert_eq!(r * r, v, "x = {x} mod 7");
        }
    }
    type M17 = ModInt<17>;
    for x in 0..17u32 {
        let v = M17::new(x);
        if let Some(r) = v.sqrt() {
            assert_eq!(r * r, v, "x = {x} mod 17");
        }
    }
    assert!(M7::new(3u32).sqrt().is_none());
}

#[test]
fn sqrt_finds_every_residue_mod_17() {
    type M17 = ModInt<17>;
    for x in 0..17u32 {
        let v = M17::new(x);
        let is_square = (0..17u32).any(|y| M17::new(y) * M17::new(y) == v);
        assert_eq!(v.sqrt().is_some(), is_square, "x = {x}");
    }
}

#[test]
fn sqrt_of_every_square_mod_large_prime() {
    for x in 0..300u64 {
        let y = Mi::new(x * x + 12345);
        let v = y * y;
        let r = v.sqrt().expect("a square has a root");
        assert!(r == y || r == -y, "x = {x}");
    }
}

#[test]
fn pow_to_modulus_minus_one_is_one() {
    for x in 1..200u32 {
        assert_eq!(Mi::new(x).pow(P - 1), Mi::new(1u32), "x = {x}");
    }
    type M17 = ModInt<17>;
    for x in 1..17u32 {
        assert_eq!(M17::new(x).pow(16).val(), 1, "x = {x}");
    }
}

#[test]
fn works_with_algebra_wrappers() {
    let s = Sum::<Mi>::new();
    assert_eq!(s.identity().val(), 0);
    assert_eq!(s.binary_op(&Mi::new(3u32), &Mi::new(4u32)).val(), 7);
    assert_eq!(s.inv_binary_op(&Mi::new(3u32), &Mi::new(4u32)), Mi::new(-1i64));
    assert_eq!(s.inverse(&Mi::new(3u32)), Mi::new(-3i64));

    let p = Prod::<Mi>::new();
    assert_eq!(p.identity().val(), 1);
    assert_eq!(p.binary_op(&Mi::new(3u32), &Mi::new(4u32)).val(), 12);
}

#[test]
fn segtree_over_modint() {
    let a: Vec<Mi> = (1..=8u32).map(Mi::new).collect();
    let tree = SegTree::from_vec(a.clone(), Prod::<Mi>::new());
    for l in 0..a.len() {
        for r in l..=a.len() {
            let expected = a[l..r].iter().fold(Mi::new(1u32), |acc, &x| acc * x);
            assert_eq!(tree.prod(l, r), expected, "{l}..{r}");
        }
    }
    assert_eq!(tree.all_prod().val(), 40320);
}

#[test]
fn prefix_sum_over_modint() {
    let a: Vec<Mi> = (1..=10u32).map(Mi::new).collect();
    let ps = PrefixSum::new(a.clone(), Sum::<Mi>::new());
    for l in 0..=a.len() {
        for r in l..=a.len() {
            let expected = a[l..r].iter().fold(Mi::new(0u32), |acc, &x| acc + x);
            assert_eq!(ps.prod(l, r), expected, "{l}..{r}");
        }
    }
    assert_eq!(ps.all_prod().val(), 55);
}

#[test]
fn modulus_and_raw() {
    assert_eq!(Mi::modulus(), 998_244_353);
    assert_eq!(Mi::raw(5).val(), 5);
    assert_eq!(Mi::zero().val(), 0);
    assert_eq!(ModInt::<1>::one().val(), 0);
    assert_eq!(Mi::from(7u64).val(), 7);
    assert_eq!((Mi::new(1u32) / Mi::new(2u32)).val(), 499_122_177);
}

#[test]
#[allow(clippy::op_ref)]
fn assign_and_ref_ops() {
    let mut a = Mi::new(10u32);
    a += Mi::new(5u32);
    assert_eq!(a.val(), 15);
    a -= Mi::new(3u32);
    assert_eq!(a.val(), 12);
    a *= Mi::new(2u32);
    assert_eq!(a.val(), 24);
    a /= Mi::new(4u32);
    assert_eq!(a.val(), 6);
    let b = Mi::new(2u32);
    assert_eq!((&a + &b).val(), 8);
    assert_eq!((a + &b).val(), 8);
    assert_eq!((&a * b).val(), 12);
}

#[test]
#[allow(clippy::op_ref)]
fn ops_with_primitive_integers() {
    let a = Mi::new(10u32);
    assert_eq!(a + 5, Mi::new(15u32));
    assert_eq!(5 + a, Mi::new(15u32));
    assert_eq!(a - 15, Mi::new(-5i64));
    assert_eq!(5 - a, Mi::new(-5i64));
    assert_eq!(a * 3, Mi::new(30u32));
    assert_eq!(3 * a, Mi::new(30u32));
    assert_eq!(a / 4, Mi::new(10u32) * Mi::new(4u32).inv());
    assert_eq!(4 / a, Mi::new(4u32) * a.inv());

    assert_eq!(&a + 5u64, Mi::new(15u32));
    assert_eq!(5usize + &a, Mi::new(15u32));
    assert_eq!(a + (-1i32), Mi::new(9u32));
    assert_eq!(a * u64::MAX, a * Mi::new(u64::MAX));

    let mut b = Mi::new(1u32);
    b += 10;
    assert_eq!(b.val(), 11);
    b -= 3u8;
    assert_eq!(b.val(), 8);
    b *= 2i64;
    assert_eq!(b.val(), 16);
    b /= 4;
    assert_eq!(b.val(), 4);
}

#[test]
fn division_assignment_by_unit() {
    type M10 = ModInt<10>;
    let mut x = M10::new(7u32);
    x /= M10::new(3u32);
    assert_eq!(x.val(), 9);
    assert_eq!(M10::default().val(), 0);
    assert_eq!(M10::from(-13i8).val(), 7);
}

#[test]
fn sum_and_product_iterators() {
    let xs: Vec<Mi> = (1..=10u32).map(Mi::new).collect();
    assert_eq!(xs.iter().copied().sum::<Mi>().val(), 55);
    assert_eq!(xs.iter().sum::<Mi>().val(), 55);
    assert_eq!(xs.iter().copied().product::<Mi>().val(), 3628800);
    assert_eq!(xs.iter().product::<Mi>().val(), 3628800);
}

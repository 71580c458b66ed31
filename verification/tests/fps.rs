use cplib::fps::{inverse_table, Fps};
use cplib::modint::ModInt;

const P: u32 = 998_244_353;
type Mi = ModInt<P>;
type F = Fps<P>;

struct XorShift {
    state: u64,
}

impl XorShift {
    fn new() -> Self {
        XorShift { state: 88172645463325252u64 }
    }

    fn next(&mut self) -> u64 {
        self.state ^= self.state << 13;
        self.state ^= self.state >> 7;
        self.state ^= self.state << 17;
        self.state
    }
}

fn random_unit(n: usize, rng: &mut XorShift) -> F {
    let mut coef: Vec<Mi> = (0..n).map(|_| Mi::new(rng.next())).collect();
    coef[0] = Mi::new(1u32);
    F::new(coef)
}

fn naive_inv(f: &F, n: usize) -> F {
    let mut g = vec![Mi::raw(0); n];
    let f0_inv = f.at(0).inv();
    g[0] = f0_inv;
    for i in 1..n {
        let mut s = Mi::raw(0);
        for k in 1..=i {
            s = s + f.at(k) * g[i - k];
        }
        g[i] = -s * f0_inv;
    }
    F::new(g)
}

fn naive_exp(f: &F, n: usize) -> F {
    let mut g = vec![Mi::raw(0); n];
    if n == 0 {
        return F::new(g);
    }
    g[0] = Mi::new(1u32);
    let inv = inverse_table::<P>(n + 1);
    for i in 1..n {
        let mut s = Mi::raw(0);
        for k in 1..=i {
            s = s + Mi::new(k as u64) * f.at(k) * g[i - k];
        }
        g[i] = s * inv[i];
    }
    F::new(g)
}

fn naive_log(f: &F, n: usize) -> F {
    let d = f.pre(n).derivative();
    let inv = naive_inv(f, n);
    let mut prod = vec![Mi::raw(0); n.saturating_sub(1)];
    for (i, x) in prod.iter_mut().enumerate() {
        let mut s = Mi::raw(0);
        for k in 0..=i {
            s = s + d.at(k) * inv.at(i - k);
        }
        *x = s;
    }
    F::new(prod).integral().pre(n)
}

#[test]
fn add_sub_mul_basic() {
    let a = F::from_ints(&[1i64, 2, 3]);
    let b = F::from_ints(&[4i64, 5]);
    assert_eq!((a.clone() + b.clone()).coef(), F::from_ints(&[5i64, 7, 3]).coef());
    assert_eq!((a.clone() - b.clone()).coef(), F::from_ints(&[-3i64, -3, 3]).coef());
    assert_eq!((a * b).coef(), F::from_ints(&[4i64, 13, 22, 15]).coef());
}

#[test]
fn derivative_and_integral() {
    let f = F::from_ints(&[3i64, 1, 4, 1, 5]);
    assert_eq!(f.derivative().coef(), F::from_ints(&[1i64, 8, 3, 20]).coef());
    assert_eq!(f.integral().derivative().coef(), f.coef());
    let back = f.derivative().integral();
    assert_eq!(back.at(0).val(), 0);
    for i in 1..f.len() {
        assert_eq!(back.at(i), f.at(i));
    }
}

#[test]
fn inverse_table_is_correct() {
    let inv = inverse_table::<P>(1000);
    for (i, &x) in inv.iter().enumerate().skip(1) {
        assert_eq!(Mi::new(i as u64) * x, Mi::new(1u32), "i = {i}");
    }
}

#[test]
fn inv_matches_naive_and_identity() {
    let mut rng = XorShift::new();
    for n in [1usize, 2, 5, 16, 17, 100] {
        let mut coef: Vec<Mi> = (0..n.max(1)).map(|_| Mi::new(rng.next())).collect();
        coef[0] = Mi::new(rng.next() % 1000 + 1);
        let f = F::new(coef);
        let g = f.inv(n);
        assert_eq!(g.coef(), naive_inv(&f, n).coef(), "n = {n}");
        let prod = (f.clone() * g).pre(n);
        assert_eq!(prod.at(0), Mi::new(1u32));
        for i in 1..n {
            assert_eq!(prod.at(i).val(), 0, "n = {n}, i = {i}");
        }
    }
}

#[test]
fn log_matches_naive() {
    let mut rng = XorShift::new();
    for n in [1usize, 2, 5, 16, 33, 100] {
        let f = random_unit(n.max(1), &mut rng);
        assert_eq!(f.log(n).coef(), naive_log(&f, n).coef(), "n = {n}");
    }
}

#[test]
fn exp_matches_naive() {
    let mut rng = XorShift::new();
    for n in [1usize, 2, 5, 16, 33, 100] {
        let mut coef: Vec<Mi> = (0..n.max(1)).map(|_| Mi::new(rng.next())).collect();
        coef[0] = Mi::raw(0);
        let f = F::new(coef);
        assert_eq!(f.exp(n).coef(), naive_exp(&f, n).coef(), "n = {n}");
    }
}

#[test]
fn exp_of_x_is_the_exponential_series() {
    let n = 20;
    let f = F::from_ints(&[0i64, 1]);
    let got = f.exp(n);
    let mut fact = Mi::new(1u32);
    for k in 0..n {
        if k > 0 {
            fact = fact * Mi::new(k as u64);
        }
        assert_eq!(got.at(k), fact.inv(), "k = {k}");
    }
}

#[test]
fn exp_and_log_are_inverse() {
    let mut rng = XorShift::new();
    let n = 64;
    let f = random_unit(n, &mut rng);
    assert_eq!(f.log(n).exp(n).coef(), f.pre(n).coef());

    let mut coef: Vec<Mi> = (0..n).map(|_| Mi::new(rng.next())).collect();
    coef[0] = Mi::raw(0);
    let g = F::new(coef);
    assert_eq!(g.exp(n).log(n).coef(), g.pre(n).coef());
}

#[test]
fn pow_matches_repeated_multiplication() {
    let mut rng = XorShift::new();
    let n = 50;
    for e in 0..6u64 {
        let f = F::new((0..8).map(|_| Mi::new(rng.next())).collect());
        let mut expected = F::from_ints(&[1i64]);
        for _ in 0..e {
            expected = (expected * f.clone()).pre(n);
        }
        assert_eq!(f.pow(e, n).coef(), expected.pre(n).coef(), "e = {e}");
    }
}

#[test]
fn pow_with_zero_constant_term() {
    let f = F::from_ints(&[0i64, 0, 1, 1]);
    let got = f.pow(3, 12);
    let expected = F::from_ints(&[0i64, 0, 0, 0, 0, 0, 1, 3, 3, 1, 0, 0]);
    assert_eq!(got.coef(), expected.coef());
    assert!(f.pow(3, 5).coef().iter().all(|x| x.val() == 0));
    assert!(F::zeros(4).pow(2, 4).coef().iter().all(|x| x.val() == 0));
    assert_eq!(F::zeros(4).pow(0, 3).coef(), F::from_ints(&[1i64, 0, 0]).coef());
}

#[test]
fn pow_with_non_unit_constant() {
    let f = F::from_ints(&[3i64, 1]);
    assert_eq!(f.pow(2, 3).coef(), F::from_ints(&[9i64, 6, 1]).coef());
    let n = 10;
    let got = f.pow(1_000_000_000, n);
    let expected = {
        let mut acc = F::from_ints(&[1i64]);
        let mut base = f.clone();
        let mut e = 1_000_000_000u64;
        while e > 0 {
            if e & 1 == 1 {
                acc = (acc * base.clone()).pre(n);
            }
            base = (base.clone() * base).pre(n);
            e >>= 1;
        }
        acc
    };
    assert_eq!(got.coef(), expected.coef());
}

#[test]
fn sqrt_squares_back() {
    let mut rng = XorShift::new();
    let n = 32;
    let mut tries = 0;
    let mut checked = 0;
    while checked < 5 && tries < 100 {
        tries += 1;
        let f = F::new((0..n).map(|_| Mi::new(rng.next())).collect());
        if let Some(s) = f.sqrt(n) {
            assert_eq!((s.clone() * s).pre(n).coef(), f.pre(n).coef());
            checked += 1;
        }
    }
    assert!(checked >= 5, "too few series with a square root");
}

#[test]
fn sqrt_edge_cases() {
    let f = F::from_ints(&[1i64, 1]);
    let s = f.sqrt(8).unwrap();
    assert_eq!((s.clone() * s).pre(8).coef(), f.pre(8).coef());

    let g = F::from_ints(&[0i64, 0, 1, 1]);
    let s = g.sqrt(8).unwrap();
    assert_eq!((s.clone() * s).pre(8).coef(), g.pre(8).coef());

    assert!(F::from_ints(&[0i64, 1]).sqrt(4).is_none());
    assert!(Mi::new(3u32).sqrt().is_none());
    assert!(F::from_ints(&[3i64, 1]).sqrt(4).is_none());
    assert!(F::zeros(4).sqrt(4).unwrap().coef().iter().all(|x| x.val() == 0));
}

#[test]
fn div_rem_reconstructs() {
    let mut rng = XorShift::new();
    for (n, m) in [(10usize, 3usize), (5, 5), (3, 7), (100, 30)] {
        let a = F::new((0..n).map(|_| Mi::new(rng.next() % 100)).collect()).shrink();
        let mut b: Vec<Mi> = (0..m).map(|_| Mi::new(rng.next() % 100)).collect();
        b[m - 1] = Mi::new(rng.next() % 99 + 1);
        let b = F::new(b);
        let (q, r) = a.div_rem(&b);
        let recon = (q * b.clone() + r.clone()).shrink();
        assert_eq!(recon.coef(), a.clone().shrink().coef(), "n={n} m={m}");
        assert!(r.shrink().len() < b.shrink().len(), "remainder degree too large");
    }
}

#[test]
fn eval_matches_direct() {
    let f = F::from_ints(&[1i64, 2, 3]);
    let x = Mi::new(5u32);
    assert_eq!(f.eval(x), Mi::new(1 + 2 * 5 + 3 * 25u32));
}

#[test]
fn large_identities() {
    let mut rng = XorShift::new();
    let n = 1000;
    let f = random_unit(n, &mut rng);
    assert_eq!(f.log(n).exp(n).coef(), f.pre(n).coef());
    let prod = (f.clone() * f.inv(n)).pre(n);
    assert_eq!(prod.at(0), Mi::new(1u32));
    assert!(prod.coef()[1..].iter().all(|x| x.val() == 0));
    let sq = (f.clone() * f.clone()).pre(n);
    assert_eq!(sq.sqrt(n).unwrap().coef(), f.pre(n).coef());
}

#[test]
fn shifts_and_lowest_degree() {
    let f = F::from_ints(&[0i64, 0, 5, 7]);
    assert_eq!(f.lowest_degree(), Some(2));
    assert_eq!(F::zeros(3).lowest_degree(), None);
    assert_eq!(f.shift_down(2).coef(), F::from_ints(&[5i64, 7]).coef());
    assert_eq!(f.shift_up(1).coef(), F::from_ints(&[0i64, 0, 0, 5, 7]).coef());
    assert_eq!(F::from_ints(&[1i64, 2, 0, 0]).shrink().len(), 2);
    assert_eq!(f.pre(6).len(), 6);
    assert_eq!(f.at(10).val(), 0);
    assert_eq!((-F::from_ints(&[1i64])).coef(), F::from_ints(&[-1i64]).coef());
    assert_eq!((f.clone() * Mi::new(2u32)).coef(), F::from_ints(&[0i64, 0, 10, 14]).coef());
    assert_eq!(F::constant(Mi::new(4u32)).coef(), F::from_ints(&[4i64]).coef());
    assert!(F::default().is_empty());
}

#[test]
fn compound_assignment_and_index() {
    let mut f = F::from_ints(&[1i64, 2]);
    f += F::from_ints(&[3i64, 4, 5]);
    assert_eq!(f.coef(), F::from_ints(&[4i64, 6, 5]).coef());
    f -= F::from_ints(&[1i64]);
    assert_eq!(f.coef(), F::from_ints(&[3i64, 6, 5]).coef());
    f *= Mi::new(2u32);
    assert_eq!(f.coef(), F::from_ints(&[6i64, 12, 10]).coef());
    assert_eq!(f[1], Mi::new(12u32));
}

use cplib::convolution::{
    convolution, convolution_i64, convolution_naive, intt, ntt, pow_mod, primitive_root,
};
use cplib::modint::ModInt998244353;

type Mi = ModInt998244353;

struct XorShift {
    state: u64,
}

impl XorShift {
    fn new() -> Self {
        XorShift { state: 88172645463325252u64 }
    }

    fn next(&mut self) -> u64 {
        self.state ^= self.state << 13;
        self.state ^= self.state >> 7;
        self.state ^= self.state << 17;
        self.state
    }
}

#[test]
fn primitive_root_table_matches_computation() {
    for m in [998_244_353u32, 167_772_161, 469_762_049, 754_974_721] {
        let g = primitive_root(m);
        assert_eq!(pow_mod(g as u64, (m - 1) as u64, m as u64), 1);
        let mut x = m - 1;
        let mut p = 2;
        while p as u64 * p as u64 <= x as u64 {
            if x % p == 0 {
                assert_ne!(pow_mod(g as u64, ((m - 1) / p) as u64, m as u64), 1);
                while x % p == 0 {
                    x /= p;
                }
            }
            p += 1;
        }
        if x > 1 {
            assert_ne!(pow_mod(g as u64, ((m - 1) / x) as u64, m as u64), 1);
        }
    }
}

#[test]
fn primitive_root_of_small_primes() {
    assert_eq!(primitive_root(2), 1);
    assert_eq!(primitive_root(7), 3);
    assert_eq!(primitive_root(998_244_353), 3);
    assert_eq!(pow_mod(3, 4, 7), 4);
    assert_eq!(pow_mod(5, 0, 1), 1);
}

#[test]
fn ntt_then_intt_is_identity() {
    let mut rng = XorShift::new();
    for log in 0..10 {
        let n = 1usize << log;
        let a: Vec<Mi> = (0..n).map(|_| Mi::new(rng.next())).collect();
        let mut b = a.clone();
        ntt(&mut b);
        intt(&mut b);
        assert_eq!(a, b, "n = {n}");
    }
}

#[test]
fn ntt_evaluates_at_powers_of_the_root() {
    let mut rng = XorShift::new();
    for log in 0..6 {
        let n = 1usize << log;
        let a: Vec<Mi> = (0..n).map(|_| Mi::new(rng.next())).collect();
        let w = Mi::new(3u32).pow((998_244_352 / n) as u64);
        let mut t = a.clone();
        ntt(&mut t);
        for k in 0..n {
            let x = w.pow(k as u64);
            let mut v = Mi::new(0u32);
            let mut p = Mi::new(1u32);
            for j in 0..n {
                v = v + a[j] * p;
                p = p * x;
            }
            assert_eq!(t[k], v, "n = {n}, k = {k}");
        }
    }
}

#[test]
fn convolution_matches_naive() {
    let mut rng = XorShift::new();
    for n in [1usize, 2, 3, 7, 61, 64, 100, 129] {
        for m in [1usize, 2, 5, 61, 64, 130] {
            let a: Vec<Mi> = (0..n).map(|_| Mi::new(rng.next())).collect();
            let b: Vec<Mi> = (0..m).map(|_| Mi::new(rng.next())).collect();
            assert_eq!(convolution(&a, &b), convolution_naive(&a, &b), "n = {n}, m = {m}");
        }
    }
}

#[test]
fn convolution_large_matches_naive() {
    let mut rng = XorShift::new();
    let (n, m) = (300, 200);
    let a: Vec<Mi> = (0..n).map(|_| Mi::new(rng.next())).collect();
    let b: Vec<Mi> = (0..m).map(|_| Mi::new(rng.next())).collect();
    let expected = convolution_naive(&a, &b);
    let got = convolution(&a, &b);
    assert_eq!(got.len(), n + m - 1);
    assert_eq!(got, expected);
}

#[test]
fn convolution_empty() {
    let a: Vec<Mi> = vec![];
    let b: Vec<Mi> = vec![Mi::new(1u32)];
    assert!(convolution(&a, &b).is_empty());
    assert!(convolution(&b, &a).is_empty());
}

#[test]
fn convolution_known_value() {
    let a: Vec<Mi> = [1u32, 2].iter().map(|&x| Mi::new(x)).collect();
    let b: Vec<Mi> = [3u32, 4].iter().map(|&x| Mi::new(x)).collect();
    let c = convolution(&a, &b);
    assert_eq!(c.iter().map(|x| x.val()).collect::<Vec<_>>(), vec![3, 10, 8]);
}

fn naive_i64(a: &[i64], b: &[i64]) -> Vec<i64> {
    if a.is_empty() || b.is_empty() {
        return vec![];
    }
    let mut ret = vec![0i128; a.len() + b.len() - 1];
    for (i, &x) in a.iter().enumerate() {
        for (j, &y) in b.iter().enumerate() {
            ret[i + j] += x as i128 * y as i128;
        }
    }
    ret.into_iter().map(|x| x as i64).collect()
}

#[test]
fn convolution_i64_matches_naive() {
    let mut rng = XorShift::new();
    for (n, m) in [(1usize, 1usize), (5, 7), (61, 3), (100, 100), (129, 200)] {
        let a: Vec<i64> = (0..n).map(|_| (rng.next() % 2001) as i64 - 1000).collect();
        let b: Vec<i64> = (0..m).map(|_| (rng.next() % 2001) as i64 - 1000).collect();
        assert_eq!(convolution_i64(&a, &b), naive_i64(&a, &b), "n={n} m={m}");
    }
}

#[test]
fn convolution_i64_large_values() {
    let n = 100;
    let mut rng = XorShift::new();
    let a: Vec<i64> = (0..n).map(|_| (rng.next() % (1 << 20)) as i64).collect();
    let b: Vec<i64> = (0..n).map(|_| (rng.next() % (1 << 20)) as i64).collect();
    assert_eq!(convolution_i64(&a, &b), naive_i64(&a, &b));

    let a: Vec<i64> = (0..n).map(|_| -((rng.next() % (1 << 20)) as i64)).collect();
    let b: Vec<i64> = (0..n).map(|_| (rng.next() % (1 << 20)) as i64).collect();
    assert_eq!(convolution_i64(&a, &b), naive_i64(&a, &b));
}

#[test]
fn convolution_i64_empty_and_small() {
    assert!(convolution_i64(&[], &[1, 2]).is_empty());
    assert_eq!(convolution_i64(&[1, -2], &[3, 4]), vec![3, -2, -8]);
}

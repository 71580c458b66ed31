//! Square roots of one and quadratic non-residues modulo a prime.
use vstd::prelude::*;
use vstd::arithmetic::div_mod::{
    lemma_small_mod, lemma_fundamental_div_mod, lemma_mod_multiples_basic, lemma_mul_mod_noop,
    lemma_mod_bound,
};
use vstd::arithmetic::power::{pow, lemma_pow0, lemma_pow1, lemma_pow_adds};
use crate::numtheory::{is_prime, lemma_euclid};
use vstd::arithmetic::power2::{pow2, lemma_pow2, lemma_pow2_unfold, lemma_pow2_pos};
use crate::dft::{half_turn, pow2_len, lemma_order, lemma_full_turn, lemma_cong_mul};

verus! {

/// Modulo a prime, `1` and `-1` are the only square roots of `1`.
pub proof fn lemma_sqrt_of_one(p: int, x: int)
    requires
        is_prime(p),
        0 <= x < p,
        (x * x) % p == 1,
    ensures
        x == 1 || x == p - 1,
{
    if x == 0 {
        assert(x * x == 0);
        lemma_small_mod(0, p as nat);
    } else {
        let q = (x * x) / p;
        lemma_fundamental_div_mod(x * x, p);
        assert((x - 1) * (x + 1) == q * p) by (nonlinear_arith)
            requires
                x * x == p * q + 1,
        ;
        lemma_mod_multiples_basic(q, p);
        if (x - 1) % p != 0 {
            lemma_euclid(p, x - 1, x + 1);
            if x + 1 < p {
                lemma_small_mod((x + 1) as nat, p as nat);
            }
        } else {
            lemma_small_mod((x - 1) as nat, p as nat);
        }
    }
}

/// Horner evaluation of the polynomial with coefficients `c` (lowest degree first) at `x`.
pub open spec fn eval(c: Seq<int>, x: int) -> int
    decreases c.len(),
{
    if c.len() == 0 {
        0
    } else {
        c[0] + x * eval(c.drop_first(), x)
    }
}

/// The coefficient of degree `i`, zero past the end.
pub open spec fn coeff(v: Seq<int>, i: int) -> int {
    if 0 <= i < v.len() {
        v[i]
    } else {
        0
    }
}

/// The coefficients of `u + r v`, for `v` no longer than `u`.
pub open spec fn add_scaled(u: Seq<int>, r: int, v: Seq<int>) -> Seq<int> {
    Seq::new(u.len(), |i: int| u[i] + r * coeff(v, i))
}

proof fn lemma_eval_add_scaled(u: Seq<int>, r: int, v: Seq<int>, x: int)
    requires
        v.len() <= u.len(),
    ensures
        eval(add_scaled(u, r, v), x) == eval(u, x) + r * eval(v, x),
    decreases u.len(),
{
    let w = add_scaled(u, r, v);
    if u.len() > 0 {
        let vd = if v.len() == 0 {
            v
        } else {
            v.drop_first()
        };
        assert(w.drop_first() =~= add_scaled(u.drop_first(), r, vd));
        lemma_eval_add_scaled(u.drop_first(), r, vd, x);
        let c0 = coeff(v, 0);
        assert(eval(v, x) == c0 + x * eval(vd, x));
        let eu = eval(u.drop_first(), x);
        let ev = eval(vd, x);
        assert(u[0] + r * c0 + x * (eu + r * ev) == (u[0] + x * eu) + r * (c0 + x * ev))
            by (nonlinear_arith);
    }
}

/// Division by `X - r`: a quotient `q`, one shorter than `c` and with the same leading
/// coefficient, such that `c(x) - c(r) == (x - r) q(x)` for every `x`.
proof fn lemma_factor(c: Seq<int>, r: int) -> (q: Seq<int>)
    requires
        c.len() >= 1,
    ensures
        q.len() == c.len() - 1,
        c.len() >= 2 ==> q.last() == c.last(),
        forall|x: int| #[trigger] eval(c, x) - eval(c, r) == (x - r) * eval(q, x),
    decreases c.len(),
{
    let c1 = c.drop_first();
    if c.len() == 1 {
        let q = Seq::<int>::empty();
        assert forall|x: int| #[trigger] eval(c, x) - eval(c, r) == (x - r) * eval(q, x) by {
            assert(eval(c1, x) == 0);
            assert(eval(c1, r) == 0);
        }
        q
    } else {
        let q1 = lemma_factor(c1, r);
        let q = add_scaled(c1, r, q1);
        assert forall|x: int| #[trigger] eval(c, x) - eval(c, r) == (x - r) * eval(q, x) by {
            lemma_eval_add_scaled(c1, r, q1, x);
            let a = eval(c1, x);
            let b = eval(c1, r);
            let e = eval(q1, x);
            assert(eval(c1, x) - eval(c1, r) == (x - r) * eval(q1, x));
            assert(x * a - r * b == (x - r) * (a + r * e)) by (nonlinear_arith)
                requires
                    a - b == (x - r) * e,
            ;
        }
        q
    }
}

/// The number of roots modulo `p` among `0 .. n`.
pub open spec fn count_roots(c: Seq<int>, p: int, n: nat) -> nat
    decreases n,
{
    if n == 0 {
        0
    } else {
        count_roots(c, p, (n - 1) as nat) + if eval(c, n - 1) % p == 0 {
            1nat
        } else {
            0nat
        }
    }
}

proof fn lemma_count_no_roots(c: Seq<int>, p: int, n: nat)
    requires
        forall|x: int| 0 <= x < n ==> #[trigger] eval(c, x) % p != 0,
    ensures
        count_roots(c, p, n) == 0,
    decreases n,
{
    if n > 0 {
        lemma_count_no_roots(c, p, (n - 1) as nat);
    }
}

/// Every root of `c` below `n` other than `r` is a root of `q`.
proof fn lemma_count_cover(c: Seq<int>, q: Seq<int>, r: int, p: int, n: nat)
    requires
        forall|x: int| 0 <= x < n && #[trigger] eval(c, x) % p == 0 ==> x == r || eval(q, x) % p == 0,
    ensures
        count_roots(c, p, n) <= count_roots(q, p, n) + if 0 <= r < n {
            1int
        } else {
            0int
        },
    decreases n,
{
    if n > 0 {
        lemma_count_cover(c, q, r, p, (n - 1) as nat);
        assert(eval(c, n - 1) % p == 0 ==> n - 1 == r || eval(q, n - 1) % p == 0);
    }
}

/// Lagrange's bound: modulo a prime, a polynomial whose leading coefficient is not divisible
/// by `p` has at most its degree many roots in `0 .. p`.
proof fn lemma_root_bound(c: Seq<int>, p: int)
    requires
        is_prime(p),
        c.len() >= 1,
        c.last() % p != 0,
    ensures
        count_roots(c, p, p as nat) <= c.len() - 1,
    decreases c.len(),
{
    if exists|x: int| 0 <= x < p && #[trigger] eval(c, x) % p == 0 {
        let r = choose|x: int| 0 <= x < p && #[trigger] eval(c, x) % p == 0;
        if c.len() == 1 {
            assert(eval(c.drop_first(), r) == 0);
            assert(false);
        }
        let q = lemma_factor(c, r);
        assert forall|x: int| 0 <= x < p && #[trigger] eval(c, x) % p == 0 implies x == r || eval(q, x)
            % p == 0 by {
            let u = (x - r) % p;
            let v = eval(q, x) % p;
            lemma_mod_bound(x - r, p);
            lemma_mod_bound(eval(q, x), p);
            lemma_mul_mod_noop(x - r, eval(q, x), p);
            // c(x) = c(r) + (x - r) q(x), both c(x) and c(r) divisible by p
            lemma_fundamental_div_mod(eval(c, x), p);
            lemma_fundamental_div_mod(eval(c, r), p);
            let k = eval(c, x) / p - eval(c, r) / p;
            assert((x - r) * eval(q, x) == k * p) by (nonlinear_arith)
                requires
                    eval(c, x) - eval(c, r) == (x - r) * eval(q, x),
                    eval(c, x) == p * (eval(c, x) / p),
                    eval(c, r) == p * (eval(c, r) / p),
                    k == eval(c, x) / p - eval(c, r) / p,
            ;
            lemma_mod_multiples_basic(k, p);
            lemma_mod_multiples_basic(0, p);
            if u != 0 {
                lemma_small_mod(u as nat, p as nat);
                lemma_euclid(p, u, v);
                lemma_small_mod(v as nat, p as nat);
                vstd::arithmetic::div_mod::lemma_mod_twice(eval(q, x), p);
            } else {
                // x ≡ r with both in 0 .. p
                lemma_fundamental_div_mod(x - r, p);
                assert(x - r == p * ((x - r) / p));
                if (x - r) / p > 0 {
                    assert(p * ((x - r) / p) >= p) by (nonlinear_arith)
                        requires
                            (x - r) / p > 0,
                            p > 0,
                    ;
                } else if (x - r) / p < 0 {
                    assert(p * ((x - r) / p) <= -p) by (nonlinear_arith)
                        requires
                            (x - r) / p < 0,
                            p > 0,
                    ;
                }
            }
        }
        lemma_count_cover(c, q, r, p, p as nat);
        lemma_root_bound(q, p);
    } else {
        lemma_count_no_roots(c, p, p as nat);
    }
}

/// The coefficients of `X^k`.
pub open spec fn monomial(k: nat) -> Seq<int> {
    Seq::new(k + 1, |i: int| if i == k {
        1int
    } else {
        0int
    })
}

proof fn lemma_eval_monomial(k: nat, x: int)
    ensures
        eval(monomial(k), x) == pow(x, k),
    decreases k,
{
    if k == 0 {
        lemma_pow0(x);
        assert(eval(monomial(0).drop_first(), x) == 0);
    } else {
        assert(monomial(k).drop_first() =~= monomial((k - 1) as nat));
        lemma_eval_monomial((k - 1) as nat, x);
        lemma_pow_adds(x, 1, (k - 1) as nat);
        lemma_pow1(x);
    }
}

/// Every `w` in `1 .. n` is a root: at least `n - 1` roots below `n`.
proof fn lemma_count_many_roots(c: Seq<int>, p: int, n: nat)
    requires
        n >= 1,
        forall|x: int| 1 <= x < n ==> #[trigger] eval(c, x) % p == 0,
    ensures
        count_roots(c, p, n) >= n - 1,
    decreases n,
{
    if n > 1 {
        lemma_count_many_roots(c, p, (n - 1) as nat);
    }
}

/// Modulo an odd prime `p` some `w` in `2 .. p` fails Euler's criterion: `w^((p-1)/2) ≢ 1`.
pub proof fn lemma_nonresidue_exists(p: int)
    requires
        is_prime(p),
        p > 2,
    ensures
        exists|w: int| 2 <= w < p && #[trigger] pow(w, ((p - 1) / 2) as nat) % p != 1,
{
    let h = ((p - 1) / 2) as nat;
    if forall|w: int| 2 <= w < p ==> #[trigger] pow(w, h) % p == 1 {
        // X^h - 1 would have p - 1 roots, more than its degree h
        assert(p % 2 != 0);
        assert(h >= 1);
        let c = monomial(h).update(0, -1);
        assert(c.drop_first() =~= monomial(h).drop_first());
        assert(c.last() == 1);
        lemma_small_mod(1, p as nat);
        assert forall|x: int| 1 <= x < p implies #[trigger] eval(c, x) % p == 0 by {
            lemma_eval_monomial(h, x);
            assert(eval(c, x) == -1 + x * eval(monomial(h).drop_first(), x));
            assert(eval(monomial(h), x) == 0 + x * eval(monomial(h).drop_first(), x));
            assert(eval(c, x) == pow(x, h) - 1);
            if x == 1 {
                vstd::arithmetic::power::lemma1_pow(h);
            } else {
                assert(pow(x, h) % p == 1);
            }
            lemma_fundamental_div_mod(pow(x, h), p);
            lemma_mod_multiples_basic(pow(x, h) / p, p);
            assert(pow(x, h) - 1 == (pow(x, h) / p) * p) by (nonlinear_arith)
                requires
                    pow(x, h) == p * (pow(x, h) / p) + pow(x, h) % p,
                    pow(x, h) % p == 1,
            ;
        }
        lemma_count_many_roots(c, p, p as nat);
        lemma_root_bound(c, p);
        assert(false);
    }
}

/// A nonzero square modulo an odd prime passes Euler's criterion: `a^((p-1)/2) ≡ 1`.
pub proof fn lemma_euler_of_square(p: int, a: int, x: int)
    requires
        is_prime(p),
        p > 2,
        0 < a < p,
        0 <= x < p,
        (x * x) % p == a,
    ensures
        pow(a, ((p - 1) / 2) as nat) % p == 1,
{
    let h = ((p - 1) / 2) as nat;
    if x == 0 {
        assert(x * x == 0);
        lemma_small_mod(0, p as nat);
    }
    assert(p % 2 != 0);
    vstd::arithmetic::power::lemma_pow_mod_noop(x * x, h, p);
    vstd::arithmetic::power::lemma_pow_distributes(x, x, h);
    lemma_pow_adds(x, h, h);
    lemma_small_mod(x as nat, p as nat);
    crate::fermat::lemma_fermat(x as nat, p);
}

/// Every integer `n >= 2` has a prime divisor.
pub proof fn lemma_prime_factor(n: int) -> (p: int)
    requires
        n >= 2,
    ensures
        is_prime(p),
        n % p == 0,
        2 <= p <= n,
    decreases n,
{
    if is_prime(n) {
        vstd::arithmetic::div_mod::lemma_mod_self_0(n);
        n
    } else {
        let d = choose|d: int| 2 <= d < n && #[trigger] (n % d) == 0;
        let p = lemma_prime_factor(d);
        lemma_fundamental_div_mod(n, d);
        lemma_fundamental_div_mod(d, p);
        let a = n / d;
        let b = d / p;
        assert(n == p * (b * a)) by (nonlinear_arith)
            requires
                n == d * a,
                d == p * b,
        ;
        lemma_mod_multiples_basic(b * a, p);
        assert((b * a) * p == p * (b * a)) by (nonlinear_arith);
        p
    }
}

/// `2^e` halves down to `1`.
proof fn lemma_pow2_is_pow2_len(e: nat)
    ensures
        pow2_len(pow2(e) as int),
    decreases e,
{
    lemma_pow2_pos(e);
    if e > 0 {
        lemma_pow2_unfold(e);
        lemma_pow2_is_pow2_len((e - 1) as nat);
        lemma_pow2_pos((e - 1) as nat);
        assert((pow2(e) as int) / 2 == pow2((e - 1) as nat));
    } else {
        lemma_pow2(0);
        vstd::arithmetic::power::lemma_pow0(2);
    }
}

/// A prime divisor `p` of `n`, where `x^(2^(e-1)) ≡ -1 (mod n)`, is `1` more than a multiple
/// of `2^e`.
proof fn lemma_proth_factor(n: int, p: int, x: int, e: nat)
    requires
        e >= 1,
        n >= 3,
        n % 2 == 1,
        is_prime(p),
        n % p == 0,
        pow(x, pow2((e - 1) as nat)) % n == n - 1,
    ensures
        p >= pow2(e) + 1,
{
    let t = pow2(e) as int;
    let h = pow2((e - 1) as nat);
    lemma_pow2_unfold(e);
    lemma_pow2_pos((e - 1) as nat);
    // p is odd
    if p == 2 {
        lemma_fundamental_div_mod(n, 2);
        assert(false);
    }
    // x^h ≡ -1 (mod p)
    let v = pow(x, h);
    lemma_fundamental_div_mod(v, n);
    lemma_fundamental_div_mod(n, p);
    let qn = v / n;
    let np = n / p;
    assert(v + 1 == p * (np * (qn + 1))) by (nonlinear_arith)
        requires
            v == n * qn + (n - 1),
            n == p * np,
    ;
    lemma_mod_multiples_basic(np * (qn + 1), p);
    assert((np * (qn + 1)) * p == p * (np * (qn + 1))) by (nonlinear_arith);
    assert((v + 1) % p == 0);
    assert(v % p == p - 1) by {
        assert(v == (np * (qn + 1) - 1) * p + (p - 1)) by (nonlinear_arith)
            requires
                v + 1 == p * (np * (qn + 1)),
        ;
        vstd::arithmetic::div_mod::lemma_fundamental_div_mod_converse(v, p, np * (qn + 1) - 1, p - 1);
    }
    assert(h == t / 2);
    assert(half_turn(x, t as nat, p));
    lemma_pow2_is_pow2_len(e);
    // x is a unit modulo p, so x^(p-1) ≡ 1
    let xr = x % p;
    vstd::arithmetic::div_mod::lemma_mod_bound(x, p);
    if xr == 0 {
        vstd::arithmetic::power::lemma_pow_mod_noop(x, h, p);
        vstd::arithmetic::power::lemma0_pow(h);
        lemma_small_mod(0, p as nat);
        assert(false);
    }
    lemma_small_mod(xr as nat, p as nat);
    crate::fermat::lemma_fermat(xr as nat, p);
    vstd::arithmetic::power::lemma_pow_mod_noop(x, (p - 1) as nat, p);
    // p - 1 = q t + r, and x^(p-1) ≡ x^r, so r == 0
    let q = (p - 1) / t;
    let r = (p - 1) % t;
    lemma_fundamental_div_mod(p - 1, t);
    vstd::arithmetic::div_mod::lemma_mod_bound(p - 1, t);
    vstd::arithmetic::power::lemma_pow_adds(x, (q * t) as nat, r as nat);
    assert((q * t) + r == p - 1) by (nonlinear_arith)
        requires
            p - 1 == t * q + r,
    ;
    lemma_full_turn(x, t, p);
    vstd::arithmetic::power::lemma_pow_multiplies(x, t as nat, q as nat);
    assert((t as nat) * (q as nat) == (q * t) as nat) by (nonlinear_arith)
        requires
            q >= 0,
            t >= 0,
    ;
    crate::dft::lemma_pow_of_one(pow(x, t as nat), q as nat, p);
    let a = pow(x, (q * t) as nat);
    let b = pow(x, r as nat);
    lemma_small_mod(1, p as nat);
    lemma_cong_mul(a, b, 1, b, p);
    if r != 0 {
        lemma_order(x, t, p, r);
        assert(false);
    }
    assert(q >= 1) by (nonlinear_arith)
        requires
            p - 1 == t * q,
            p >= 3,
            t >= 1,
    ;
    assert(p - 1 >= t) by (nonlinear_arith)
        requires
            p - 1 == t * q,
            q >= 1,
            t >= 1,
    ;
}

/// Proth's theorem: `n = k 2^e + 1` with `1 <= k < 2^e` is prime when some `a` has
/// `a^((n-1)/2) ≡ -1 (mod n)`.
pub proof fn lemma_proth(n: int, k: int, e: nat, a: int)
    requires
        e >= 1,
        1 <= k < pow2(e),
        n == k * pow2(e) + 1,
        pow(a, ((n - 1) / 2) as nat) % n == n - 1,
    ensures
        is_prime(n),
{
    let t = pow2(e) as int;
    lemma_pow2_unfold(e);
    lemma_pow2_pos((e - 1) as nat);
    let h = pow2((e - 1) as nat) as int;
    assert(t == 2 * h);
    assert(n - 1 == 2 * (k * h)) by (nonlinear_arith)
        requires
            n == k * t + 1,
            t == 2 * h,
    ;
    assert(n >= 3) by (nonlinear_arith)
        requires
            n == k * t + 1,
            k >= 1,
            t >= 2,
    ;
    assert(n % 2 == 1);
    // x = a^k has x^(2^(e-1)) = a^((n-1)/2) ≡ -1
    let x = pow(a, k as nat);
    vstd::arithmetic::power::lemma_pow_multiplies(a, k as nat, h as nat);
    assert((k as nat) * (h as nat) == ((n - 1) / 2) as nat);
    if !is_prime(n) {
        let d = choose|d: int| 2 <= d < n && #[trigger] (n % d) == 0;
        lemma_fundamental_div_mod(n, d);
        let c = n / d;
        assert(c >= 2) by (nonlinear_arith)
            requires
                n == d * c,
                2 <= d < n,
        ;
        let p1 = lemma_prime_factor(d);
        let p2 = lemma_prime_factor(c);
        // both divide n
        lemma_fundamental_div_mod(d, p1);
        lemma_fundamental_div_mod(c, p2);
        let b1 = d / p1;
        let b2 = c / p2;
        assert(n == p1 * (b1 * c)) by (nonlinear_arith)
            requires
                n == d * c,
                d == p1 * b1,
        ;
        assert(n == p2 * (b2 * d)) by (nonlinear_arith)
            requires
                n == d * c,
                c == p2 * b2,
        ;
        lemma_mod_multiples_basic(b1 * c, p1);
        lemma_mod_multiples_basic(b2 * d, p2);
        assert((b1 * c) * p1 == p1 * (b1 * c)) by (nonlinear_arith);
        assert((b2 * d) * p2 == p2 * (b2 * d)) by (nonlinear_arith);
        lemma_proth_factor(n, p1, x, e);
        lemma_proth_factor(n, p2, x, e);
        assert(d >= p1) by (nonlinear_arith)
            requires
                d == p1 * b1,
                d >= 2,
                p1 >= 2,
        ;
        assert(c >= p2) by (nonlinear_arith)
            requires
                c == p2 * b2,
                c >= 2,
                p2 >= 2,
        ;
        assert(d * c >= (t + 1) * (t + 1)) by (nonlinear_arith)
            requires
                d >= t + 1,
                c >= t + 1,
                t >= 0,
        ;
        assert((t + 1) * (t + 1) > k * t + 1) by (nonlinear_arith)
            requires
                1 <= k < t,
        ;
    }
}

} // verus!

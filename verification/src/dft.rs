//! Polynomial evaluation at powers of a root of unity: the identities behind the
//! number-theoretic transform.
use vstd::prelude::*;
use vstd::arithmetic::div_mod::{
    lemma_add_mod_noop, lemma_sub_mod_noop, lemma_mul_mod_noop, lemma_mod_twice, lemma_small_mod,
};
use vstd::arithmetic::power::{pow, lemma_pow_adds, lemma_pow_mod_noop, lemma_pow_multiplies, lemma_pow_distributes};
use crate::residue::{eval, coeff};
use crate::numtheory::{is_prime, lemma_euclid};

verus! {

/// `a + b ≡ c + d` from `a ≡ c` and `b ≡ d`.
pub proof fn lemma_cong_add(a: int, b: int, c: int, d: int, m: int)
    requires
        m >= 1,
        a % m == c % m,
        b % m == d % m,
    ensures
        (a + b) % m == (c + d) % m,
{
    lemma_add_mod_noop(a, b, m);
    lemma_add_mod_noop(c, d, m);
}

/// `a - b ≡ c - d` from `a ≡ c` and `b ≡ d`.
pub proof fn lemma_cong_sub(a: int, b: int, c: int, d: int, m: int)
    requires
        m >= 1,
        a % m == c % m,
        b % m == d % m,
    ensures
        (a - b) % m == (c - d) % m,
{
    lemma_sub_mod_noop(a, b, m);
    lemma_sub_mod_noop(c, d, m);
}

/// `a b ≡ c d` from `a ≡ c` and `b ≡ d`.
pub proof fn lemma_cong_mul(a: int, b: int, c: int, d: int, m: int)
    requires
        m >= 1,
        a % m == c % m,
        b % m == d % m,
    ensures
        (a * b) % m == (c * d) % m,
{
    lemma_mul_mod_noop(a, b, m);
    lemma_mul_mod_noop(c, d, m);
}

/// The coefficients of even degree.
pub open spec fn evens(a: Seq<int>) -> Seq<int> {
    Seq::new(((a.len() + 1) / 2) as nat, |i: int| a[2 * i])
}

/// The coefficients of odd degree.
pub open spec fn odds(a: Seq<int>) -> Seq<int> {
    Seq::new((a.len() / 2) as nat, |i: int| a[2 * i + 1])
}

/// `a(x) = a_even(x^2) + x a_odd(x^2)`.
pub proof fn lemma_eval_split(a: Seq<int>, x: int)
    ensures
        eval(a, x) == eval(evens(a), x * x) + x * eval(odds(a), x * x),
    decreases a.len(),
{
    if a.len() == 0 {
        assert(evens(a).len() == 0);
        assert(odds(a).len() == 0);
    } else if a.len() == 1 {
        assert(odds(a).len() == 0);
        assert(evens(a).drop_first().len() == 0);
        assert(eval(evens(a).drop_first(), x * x) == 0);
        assert(eval(a.drop_first(), x) == 0);
    } else {
        let rest = a.drop_first().drop_first();
        lemma_eval_split(rest, x);
        assert(evens(a).drop_first() =~= evens(rest));
        assert(odds(a).drop_first() =~= odds(rest));
        let y = x * x;
        let e = eval(evens(rest), y);
        let o = eval(odds(rest), y);
        assert(eval(a.drop_first(), x) == a[1] + x * eval(rest, x));
        assert(eval(evens(a), y) == a[0] + y * e);
        assert(eval(odds(a), y) == a[1] + y * o);
        assert(a[0] + x * (a[1] + x * (e + x * o)) == (a[0] + y * e) + x * (a[1] + y * o))
            by (nonlinear_arith)
            requires
                y == x * x,
        ;
    }
}

/// Evaluation respects congruence of the point.
pub proof fn lemma_eval_mod(a: Seq<int>, x: int, y: int, m: int)
    requires
        m >= 1,
        x % m == y % m,
    ensures
        eval(a, x) % m == eval(a, y) % m,
    decreases a.len(),
{
    if a.len() > 0 {
        let r = a.drop_first();
        lemma_eval_mod(r, x, y, m);
        lemma_cong_mul(x, eval(r, x), y, eval(r, y), m);
        lemma_cong_add(a[0], x * eval(r, x), a[0], y * eval(r, y), m);
    }
}

/// `w` has a half turn at `n`: `n == 1`, or `w^(n/2) ≡ -1 (mod m)`.
pub open spec fn half_turn(w: int, n: nat, m: int) -> bool {
    n == 1 || (n % 2 == 0 && pow(w, n / 2) % m == m - 1)
}

/// If `w` has a half turn at `n >= 4`, then `w^2 mod m` has one at `n / 2`.
pub proof fn lemma_half_turn_square(w: int, n: nat, m: int)
    requires
        m >= 2,
        n >= 2,
        half_turn(w, n, m),
        (n / 2) == 1 || (n / 2) % 2 == 0,
    ensures
        half_turn((w * w) % m, n / 2, m),
{
    let h = n / 2;
    if h != 1 {
        let q = h / 2;
        lemma_pow_mod_noop(w * w, q, m);
        lemma_pow_distributes(w, w, q);
        lemma_pow_adds(w, q, q);
        assert(q + q == h);
    }
}

/// One butterfly: from the transforms of the even and odd parts at `w^2`, the values of `a`
/// at `w^k` and at `w^(k + n/2) ≡ -w^k`.
pub proof fn lemma_butterfly(a: Seq<int>, m: int, w: int, n: nat, k: nat, fe: int, fo: int, wk: int)
    requires
        m >= 2,
        n >= 2,
        half_turn(w, n, m),
        k < n / 2,
        fe == eval(evens(a), pow((w * w) % m, k)) % m,
        fo == eval(odds(a), pow((w * w) % m, k)) % m,
        wk == pow(w, k) % m,
    ensures
        (fe + (fo * wk) % m) % m == eval(a, pow(w, k)) % m,
        (fe - (fo * wk) % m) % m == eval(a, pow(w, k + n / 2)) % m,
{
    let h = n / 2;
    let x = pow(w, k);
    let p2k = pow(w, 2 * k);
    // (w^2 mod m)^k ≡ w^(2k) = x^2
    lemma_pow_mod_noop(w * w, k, m);
    lemma_pow_distributes(w, w, k);
    lemma_pow_adds(w, k, k);
    assert(k + k == 2 * k);
    assert(pow((w * w) % m, k) % m == (x * x) % m);
    lemma_eval_mod(evens(a), pow((w * w) % m, k), x * x, m);
    lemma_eval_mod(odds(a), pow((w * w) % m, k), x * x, m);
    let e = eval(evens(a), x * x);
    let o = eval(odds(a), x * x);
    lemma_mod_twice(e, m);
    lemma_mod_twice(o, m);
    lemma_mod_twice(x, m);
    // fo * wk ≡ o x
    lemma_cong_mul(fo, wk, o, x, m);
    lemma_mod_twice(fo * wk, m);
    lemma_mod_twice(o * x, m);
    // value at x
    lemma_eval_split(a, x);
    lemma_cong_add(fe, (fo * wk) % m, e, o * x, m);
    assert(x * o == o * x) by (nonlinear_arith);
    // value at y = x w^h ≡ -x, with y^2 ≡ x^2
    let y = pow(w, k + h);
    let t = pow(w, h);
    lemma_pow_adds(w, k, h);
    assert(y == x * t);
    assert(t % m == m - 1);
    lemma_mod_twice(t, m);
    // y ≡ -x
    assert((-1) % m == m - 1) by {
        vstd::arithmetic::div_mod::lemma_fundamental_div_mod_converse(-1, m, -1, m - 1);
    }
    lemma_cong_mul(x, t, x, -1, m);
    assert(y % m == (-x) % m) by {
        assert(x * -1 == -x);
    }
    // y^2 ≡ x^2
    lemma_cong_mul(y, y, -x, -x, m);
    assert((-x) * (-x) == x * x) by (nonlinear_arith);
    lemma_eval_mod(evens(a), y * y, x * x, m);
    lemma_eval_mod(odds(a), y * y, x * x, m);
    lemma_eval_split(a, y);
    let e2 = eval(evens(a), y * y);
    let o2 = eval(odds(a), y * y);
    // y o2 ≡ -x o
    lemma_cong_mul(y, o2, -x, o, m);
    assert((-x) * o == -(o * x)) by (nonlinear_arith);
    lemma_cong_add(e2, y * o2, e, -(o * x), m);
    lemma_cong_sub(fe, (fo * wk) % m, e, o * x, m);
    assert(e + -(o * x) == e - o * x);
}

/// Modulo `m`, an element has at most one inverse in `0 .. m`.
pub proof fn lemma_inverse_unique(m: int, g: int, v1: int, v2: int)
    requires
        m >= 1,
        0 <= v1 < m,
        0 <= v2 < m,
        (g * v1) % m == 1int % m,
        (g * v2) % m == 1int % m,
    ensures
        v1 == v2,
{
    // v1 ≡ v1 (g v2) = (g v1) v2 ≡ v2
    lemma_cong_mul(v1, g * v2, v1, 1, m);
    lemma_cong_mul(g * v1, v2, 1, v2, m);
    assert(v1 * (g * v2) == (g * v1) * v2) by (nonlinear_arith);
    lemma_small_mod(v1 as nat, m as nat);
    lemma_small_mod(v2 as nat, m as nat);
}

/// `f(0) + ... + f(n - 1)`.
pub open spec fn sum(f: spec_fn(int) -> int, n: int) -> int
    decreases n,
{
    if n <= 0 {
        0
    } else {
        sum(f, n - 1) + f(n - 1)
    }
}

/// Sums of functions that agree below `n` agree.
pub proof fn lemma_sum_ext(f: spec_fn(int) -> int, g: spec_fn(int) -> int, n: int)
    requires
        forall|k: int| 0 <= k < n ==> #[trigger] f(k) == g(k),
    ensures
        sum(f, n) == sum(g, n),
    decreases n,
{
    if n > 0 {
        lemma_sum_ext(f, g, n - 1);
    }
}

/// `sum(f + g) == sum(f) + sum(g)`.
pub proof fn lemma_sum_add(f: spec_fn(int) -> int, g: spec_fn(int) -> int, h: spec_fn(int) -> int, n: int)
    requires
        forall|k: int| 0 <= k < n ==> #[trigger] h(k) == f(k) + g(k),
    ensures
        sum(h, n) == sum(f, n) + sum(g, n),
    decreases n,
{
    if n > 0 {
        lemma_sum_add(f, g, h, n - 1);
    }
}

/// `sum(c f) == c sum(f)`.
pub proof fn lemma_sum_scale(f: spec_fn(int) -> int, g: spec_fn(int) -> int, c: int, n: int)
    requires
        forall|k: int| 0 <= k < n ==> #[trigger] g(k) == c * f(k),
    ensures
        sum(g, n) == c * sum(f, n),
    decreases n,
{
    if n > 0 {
        lemma_sum_scale(f, g, c, n - 1);
        assert(c * sum(f, n - 1) + c * f(n - 1) == c * (sum(f, n - 1) + f(n - 1))) by (nonlinear_arith);
    }
}

/// Terms that vanish from `n` on do not change the sum.
pub proof fn lemma_sum_tail(f: spec_fn(int) -> int, n: int, k: int)
    requires
        0 <= n <= k,
        forall|t: int| n <= t < k ==> #[trigger] f(t) == 0,
    ensures
        sum(f, k) == sum(f, n),
    decreases k,
{
    if k > n {
        lemma_sum_tail(f, n, k - 1);
    }
}

/// Sums of pointwise congruent terms are congruent.
pub proof fn lemma_sum_mod(f: spec_fn(int) -> int, g: spec_fn(int) -> int, n: int, m: int)
    requires
        m >= 1,
        forall|k: int| 0 <= k < n ==> #[trigger] f(k) % m == g(k) % m,
    ensures
        sum(f, n) % m == sum(g, n) % m,
    decreases n,
{
    if n > 0 {
        lemma_sum_mod(f, g, n - 1, m);
        lemma_cong_add(sum(f, n - 1), f(n - 1), sum(g, n - 1), g(n - 1), m);
    }
}

/// Summing in either order: `sum_k sum_j F(j, k) == sum_j sum_k F(j, k)`.
pub proof fn lemma_sum_swap(f: spec_fn(int, int) -> int, nj: int, nk: int)
    requires
        nj >= 0,
    ensures
        sum(|k: int| sum(|j: int| f(j, k), nj), nk) == sum(|j: int| sum(|k: int| f(j, k), nk), nj),
    decreases nk,
{
    if nk > 0 {
        lemma_sum_swap(f, nj, nk - 1);
        let outer = |k: int| sum(|j: int| f(j, k), nj);
        let inner_prev = |j: int| sum(|k: int| f(j, k), nk - 1);
        let last = |j: int| f(j, nk - 1);
        let inner = |j: int| sum(|k: int| f(j, k), nk);
        assert forall|j: int| 0 <= j < nj implies #[trigger] inner(j) == inner_prev(j) + last(j) by {
        }
        lemma_sum_add(inner_prev, last, inner, nj);
        assert(outer(nk - 1) == sum(last, nj)) by {
            assert((|j: int| f(j, nk - 1)) =~= last);
        }
        assert(sum(outer, nk) == sum(outer, nk - 1) + outer(nk - 1));
        assert(sum(outer, nk - 1) == sum(inner_prev, nj));
        assert(sum(outer, nk) == sum(inner, nj));
    } else {
        let inner = |j: int| sum(|k: int| f(j, k), nk);
        lemma_sum_zero(inner, nj);
    }
}

/// A sum with one nonzero term, at `l`.
pub proof fn lemma_sum_single(f: spec_fn(int) -> int, l: int, n: int)
    requires
        0 <= l < n,
        forall|k: int| 0 <= k < n && k != l ==> #[trigger] f(k) == 0,
    ensures
        sum(f, n) == f(l),
    decreases n,
{
    if n - 1 > l {
        lemma_sum_single(f, l, n - 1);
    } else {
        lemma_sum_zero(f, l);
    }
}

/// A sum of zeros.
pub proof fn lemma_sum_zero(f: spec_fn(int) -> int, n: int)
    requires
        forall|k: int| 0 <= k < n ==> #[trigger] f(k) == 0,
    ensures
        sum(f, n) == 0,
    decreases n,
{
    if n > 0 {
        lemma_sum_zero(f, n - 1);
    }
}

/// A sum of `n` ones is `n`.
pub proof fn lemma_sum_ones(f: spec_fn(int) -> int, n: int)
    requires
        n >= 0,
        forall|k: int| 0 <= k < n ==> #[trigger] f(k) == 1,
    ensures
        sum(f, n) == n,
    decreases n,
{
    if n > 0 {
        lemma_sum_ones(f, n - 1);
    }
}

/// The terms `c_j x^j` of the polynomial `c` at `x`.
pub open spec fn terms(c: Seq<int>, x: int) -> spec_fn(int) -> int {
    |j: int| coeff(c, j) * pow(x, j as nat)
}

proof fn lemma_terms_peel(c: Seq<int>, x: int, t: int)
    requires
        c.len() >= 1,
        t >= 1,
    ensures
        sum(terms(c, x), t) == c[0] + x * sum(terms(c.drop_first(), x), t - 1),
    decreases t,
{
    let c1 = c.drop_first();
    if t == 1 {
        vstd::arithmetic::power::lemma_pow0(x);
        assert(sum(terms(c1, x), 0) == 0);
        assert(sum(terms(c, x), 1) == sum(terms(c, x), 0) + terms(c, x)(0));
    } else {
        lemma_terms_peel(c, x, t - 1);
        lemma_pow_adds(x, 1, (t - 2) as nat);
        vstd::arithmetic::power::lemma_pow1(x);
        assert(coeff(c, t - 1) == coeff(c1, t - 2));
        let p = pow(x, (t - 2) as nat);
        assert(terms(c, x)(t - 1) == coeff(c, t - 1) * pow(x, (t - 1) as nat));
        assert(terms(c1, x)(t - 2) == coeff(c1, t - 2) * p);
        assert(pow(x, (t - 1) as nat) == x * p);
        let a = coeff(c1, t - 2);
        let s1 = sum(terms(c1, x), t - 2);
        assert(x * s1 + a * (x * p) == x * (s1 + a * p)) by (nonlinear_arith);
    }
}

/// Horner evaluation is the sum of the terms, over any range that covers the coefficients.
pub proof fn lemma_eval_sum(c: Seq<int>, x: int, n: int)
    requires
        n >= c.len(),
    ensures
        eval(c, x) == sum(terms(c, x), n),
    decreases c.len(),
{
    if c.len() == 0 {
        lemma_sum_zero(terms(c, x), n);
    } else {
        let c1 = c.drop_first();
        lemma_eval_sum(c1, x, n - 1);
        lemma_terms_peel(c, x, n);
    }
}

/// `1 + r + ... + r^(n-1)`.
pub open spec fn geo(r: int) -> spec_fn(int) -> int {
    |k: int| pow(r, k as nat)
}

proof fn lemma_geo_identity(r: int, n: int)
    requires
        n >= 0,
    ensures
        (r - 1) * sum(geo(r), n) == pow(r, n as nat) - 1,
    decreases n,
{
    if n == 0 {
        vstd::arithmetic::power::lemma_pow0(r);
    } else {
        lemma_geo_identity(r, n - 1);
        lemma_pow_adds(r, (n - 1) as nat, 1);
        vstd::arithmetic::power::lemma_pow1(r);
        let s = sum(geo(r), n - 1);
        let q = pow(r, (n - 1) as nat);
        assert((r - 1) * (s + q) == (r - 1) * s + (r - 1) * q) by (nonlinear_arith);
        assert((r - 1) * q == q * r - q) by (nonlinear_arith);
    }
}

/// Modulo a prime, `1 + r + ... + r^(n-1) ≡ 0` when `r^n ≡ 1` and `r ≢ 1`.
proof fn lemma_geo_vanishes(r: int, n: int, m: int)
    requires
        is_prime(m),
        n >= 0,
        pow(r, n as nat) % m == 1,
        r % m != 1,
    ensures
        sum(geo(r), n) % m == 0,
{
    lemma_geo_identity(r, n);
    let s = sum(geo(r), n);
    lemma_small_mod(1, m as nat);
    lemma_small_mod(0, m as nat);
    lemma_cong_sub(pow(r, n as nat), 1, 1, 1, m);
    let a = (r - 1) % m;
    let b = s % m;
    vstd::arithmetic::div_mod::lemma_mod_bound(r - 1, m);
    vstd::arithmetic::div_mod::lemma_mod_bound(s, m);
    lemma_mod_twice(r - 1, m);
    lemma_mod_twice(s, m);
    lemma_cong_mul(a, b, r - 1, s, m);
    if a == 0 {
        lemma_cong_add(r - 1, 1, 0, 1, m);
    }
    lemma_small_mod(a as nat, m as nat);
    lemma_euclid(m, a, b);
    lemma_small_mod(b as nat, m as nat);
}

/// `x ≡ 1` gives `x^e ≡ 1`.
pub proof fn lemma_pow_of_one(x: int, e: nat, m: int)
    requires
        m >= 2,
        x % m == 1,
    ensures
        pow(x, e) % m == 1,
{
    lemma_pow_mod_noop(x, e, m);
    vstd::arithmetic::power::lemma1_pow(e);
    lemma_small_mod(1, m as nat);
}

/// `1 + r + ... + r^(n-1) ≡ n` when `r ≡ 1`.
proof fn lemma_geo_at_one(r: int, n: int, m: int)
    requires
        m >= 2,
        n >= 0,
        r % m == 1,
    ensures
        sum(geo(r), n) % m == n % m,
{
    let one = |k: int| 1int;
    assert forall|k: int| 0 <= k < n implies #[trigger] geo(r)(k) % m == one(k) % m by {
        lemma_pow_of_one(r, k as nat, m);
        lemma_small_mod(1, m as nat);
    }
    lemma_sum_mod(geo(r), one, n, m);
    lemma_sum_ones(one, n);
}

/// `n` is a power of two.
pub open spec fn pow2_len(n: int) -> bool
    decreases n,
{
    if n <= 1 {
        n == 1
    } else {
        n % 2 == 0 && pow2_len(n / 2)
    }
}

/// `(w^2 mod m)^e ≡ (w^e)^2`.
proof fn lemma_pow_square_base(w: int, e: nat, m: int)
    requires
        m >= 1,
    ensures
        pow((w * w) % m, e) % m == (pow(w, e) * pow(w, e)) % m,
{
    lemma_pow_mod_noop(w * w, e, m);
    lemma_pow_distributes(w, w, e);
}

/// `(-1)^2 ≡ 1`.
proof fn lemma_neg_one_squared(m: int)
    requires
        m >= 2,
    ensures
        ((m - 1) * (m - 1)) % m == 1,
{
    assert((m - 1) * (m - 1) == m * (m - 2) + 1) by (nonlinear_arith);
    vstd::arithmetic::div_mod::lemma_mod_multiples_vanish(m - 2, 1, m);
    lemma_small_mod(1, m as nat);
}

/// A root with the half turn at a power of two `n` has order exactly `n`: no smaller
/// positive power is `1`.
pub proof fn lemma_order(w: int, n: int, m: int, d: int)
    requires
        m > 2,
        pow2_len(n),
        half_turn(w, n as nat, m),
        0 < d < n,
    ensures
        pow(w, d as nat) % m != 1,
    decreases n,
{
    let h = n / 2;
    let t = pow(w, h as nat);
    assert(t % m == m - 1);
    if d != h {
        let w2 = (w * w) % m;
        assert(pow2_len(h));
        if h > 1 {
            assert(h % 2 == 0);
        }
        lemma_half_turn_square(w, n as nat, m);
        if pow(w, d as nat) % m == 1 {
            if d < h {
                lemma_pow_square_base(w, d as nat, m);
                lemma_small_mod(1, m as nat);
                lemma_cong_mul(pow(w, d as nat), pow(w, d as nat), 1, 1, m);
                lemma_order(w2, h, m, d);
            } else {
                let e = d - h;
                let v = pow(w, e as nat);
                lemma_pow_adds(w, e as nat, h as nat);
                assert((-1) % m == m - 1) by {
                    vstd::arithmetic::div_mod::lemma_fundamental_div_mod_converse(-1, m, -1, m - 1);
                }
                lemma_mod_twice(t, m);
                lemma_cong_mul(v, t, v, -1, m);
                assert(v * -1 == -v);
                // -v ≡ 1, so v ≡ -1
                let vr = v % m;
                vstd::arithmetic::div_mod::lemma_mod_bound(v, m);
                lemma_mod_twice(v, m);
                lemma_cong_sub(0, v, 0, vr, m);
                if vr == 0 {
                    lemma_small_mod(0, m as nat);
                } else {
                    assert((0 - vr) % m == m - vr) by {
                        vstd::arithmetic::div_mod::lemma_fundamental_div_mod_converse(-vr, m, -1, m - vr);
                    }
                }
                assert(vr == m - 1);
                lemma_pow_square_base(w, e as nat, m);
                lemma_small_mod((m - 1) as nat, m as nat);
                lemma_cong_mul(v, v, m - 1, m - 1, m);
                lemma_neg_one_squared(m);
                lemma_order(w2, h, m, e);
            }
        }
    } else {
        lemma_small_mod(1, m as nat);
    }
}

/// A half turn gives a full one: `w^n ≡ 1`.
pub proof fn lemma_full_turn(w: int, n: int, m: int)
    requires
        m >= 2,
        n >= 2,
        half_turn(w, n as nat, m),
    ensures
        pow(w, n as nat) % m == 1,
{
    let h = n / 2;
    lemma_pow_adds(w, h as nat, h as nat);
    lemma_small_mod((m - 1) as nat, m as nat);
    lemma_cong_mul(pow(w, h as nat), pow(w, h as nat), m - 1, m - 1, m);
    lemma_neg_one_squared(m);
}

/// `(w^k)^j (u^l)^k == (w^j u^l)^k`.
proof fn lemma_term_identity(w: int, u: int, l: nat, j: nat, k: nat)
    ensures
        pow(pow(w, k), j) * pow(pow(u, l), k) == pow(pow(w, j) * pow(u, l), k),
{
    lemma_pow_multiplies(w, k, j);
    lemma_pow_multiplies(w, j, k);
    assert(k * j == j * k) by (nonlinear_arith);
    lemma_pow_distributes(pow(w, j), pow(u, l), k);
}

/// `r == w^d (w u)^l` when `r == w^(d + l) u^l`.
proof fn lemma_regroup(w: int, u: int, d: nat, l: nat)
    ensures
        pow(w, d + l) * pow(u, l) == pow(w, d) * pow(w * u, l),
{
    lemma_pow_adds(w, d, l);
    lemma_pow_distributes(w, u, l);
    let a = pow(w, d);
    let b = pow(w, l);
    let c = pow(u, l);
    assert((a * b) * c == a * (b * c)) by (nonlinear_arith);
}

/// `r ≡ x^d` with `x` of order `n` and `0 < d < n`: `r ≢ 1` and `r^n ≡ 1`.
proof fn lemma_rotated_root(x: int, r: int, n: int, m: int, d: int)
    requires
        m > 2,
        pow2_len(n),
        n >= 2,
        half_turn(x, n as nat, m),
        0 < d < n,
        r % m == pow(x, d as nat) % m,
    ensures
        r % m != 1,
        pow(r, n as nat) % m == 1,
{
    lemma_order(x, n, m, d);
    lemma_full_turn(x, n, m);
    lemma_pow_mod_noop(r, n as nat, m);
    lemma_pow_mod_noop(pow(x, d as nat), n as nat, m);
    lemma_pow_multiplies(x, d as nat, n as nat);
    lemma_pow_multiplies(x, n as nat, d as nat);
    assert((d as nat) * (n as nat) == (n as nat) * (d as nat)) by (nonlinear_arith);
    lemma_pow_of_one(pow(x, n as nat), d as nat, m);
}

/// Modulo a prime, the sum over `k < n` of `(w^j u^l)^k` is `n` for `j == l` and `0` otherwise,
/// `u` being the inverse of the root `w` of order `n`.
proof fn lemma_geo_rho(w: int, u: int, n: int, m: int, j: int, l: int)
    requires
        is_prime(m),
        m > 2,
        pow2_len(n),
        half_turn(w, n as nat, m),
        half_turn(u, n as nat, m),
        (w * u) % m == 1,
        0 <= j < n,
        0 <= l < n,
    ensures
        sum(geo(pow(w, j as nat) * pow(u, l as nat)), n) % m == if j == l {
            n % m
        } else {
            0
        },
{
    let r = pow(w, j as nat) * pow(u, l as nat);
    lemma_pow_of_one(w * u, l as nat, m);
    if j == l {
        lemma_pow_distributes(w, u, l as nat);
        lemma_geo_at_one(r, n, m);
    } else {
        if j > l {
            let d = j - l;
            lemma_regroup(w, u, d as nat, l as nat);
            assert((d as nat) + (l as nat) == j as nat);
            lemma_small_mod(1, m as nat);
            lemma_cong_mul(pow(w, d as nat), pow(w * u, l as nat), pow(w, d as nat), 1, m);
            lemma_rotated_root(w, r, n, m, d);
        } else {
            let d = l - j;
            lemma_regroup(u, w, d as nat, j as nat);
            assert((d as nat) + (j as nat) == l as nat);
            assert(u * w == w * u) by (nonlinear_arith);
            lemma_pow_of_one(w * u, j as nat, m);
            lemma_small_mod(1, m as nat);
            lemma_cong_mul(pow(u, d as nat), pow(u * w, j as nat), pow(u, d as nat), 1, m);
            assert(r == pow(u, l as nat) * pow(w, j as nat)) by (nonlinear_arith)
                requires
                    r == pow(w, j as nat) * pow(u, l as nat),
            ;
            lemma_rotated_root(u, r, n, m, d);
        }
        lemma_geo_vanishes(r, n, m);
    }
}

/// The inversion formula: if `p_k ≡ c(w^k)` for `k < n`, then `p(u^l) ≡ n c_l`, `u` the inverse
/// of the root `w` of order `n` modulo a prime, for every `l < n` and `c` of length at most `n`.
pub proof fn lemma_inversion(c: Seq<int>, p: Seq<int>, w: int, u: int, n: int, m: int, l: int)
    requires
        is_prime(m),
        m > 2,
        pow2_len(n),
        half_turn(w, n as nat, m),
        half_turn(u, n as nat, m),
        (w * u) % m == 1,
        c.len() <= n,
        p.len() == n,
        forall|k: int| 0 <= k < n ==> #[trigger] p[k] % m == eval(c, pow(w, k as nat)) % m,
        0 <= l < n,
    ensures
        eval(p, pow(u, l as nat)) % m == (n * coeff(c, l)) % m,
{
    let z = pow(u, l as nat);
    lemma_eval_sum(p, z, n);
    let f = |j: int, k: int| coeff(c, j) * pow(pow(w, j as nat) * pow(u, l as nat), k as nat);
    let g = |k: int| sum(|j: int| f(j, k), n);
    assert forall|k: int| 0 <= k < n implies #[trigger] terms(p, z)(k) % m == g(k) % m by {
        let wk = pow(w, k as nat);
        let zk = pow(z, k as nat);
        lemma_eval_sum(c, wk, n);
        lemma_mod_twice(eval(c, wk), m);
        lemma_mod_twice(zk, m);
        assert(coeff(p, k) == p[k]);
        lemma_cong_mul(p[k], zk, eval(c, wk), zk, m);
        let h = |j: int| zk * terms(c, wk)(j);
        lemma_sum_scale(terms(c, wk), h, zk, n);
        assert forall|j: int| 0 <= j < n implies #[trigger] h(j) == f(j, k) by {
            lemma_term_identity(w, u, l as nat, j as nat, k as nat);
            let a = coeff(c, j);
            let b = pow(wk, j as nat);
            assert(zk * (a * b) == a * (b * zk)) by (nonlinear_arith);
        }
        lemma_sum_ext(h, |j: int| f(j, k), n);
        assert(eval(c, wk) * zk == zk * eval(c, wk)) by (nonlinear_arith);
    }
    lemma_sum_mod(terms(p, z), g, n, m);
    lemma_sum_swap(f, n, n);
    assert(g =~= (|k: int| sum(|j: int| f(j, k), n)));
    let e = |j: int| sum(|k: int| f(j, k), n);
    let ind = |j: int| if j == l {
        n * coeff(c, l)
    } else {
        0
    };
    assert forall|j: int| 0 <= j < n implies #[trigger] e(j) % m == ind(j) % m by {
        let rho = pow(w, j as nat) * pow(u, l as nat);
        lemma_sum_scale(geo(rho), |k: int| f(j, k), coeff(c, j), n);
        lemma_geo_rho(w, u, n, m, j, l);
        let s = sum(geo(rho), n);
        if j == l {
            lemma_mod_twice(n, m);
            lemma_cong_mul(coeff(c, j), s, coeff(c, j), n, m);
            assert(coeff(c, j) * n == n * coeff(c, l)) by (nonlinear_arith)
                requires
                    j == l,
            ;
        } else {
            lemma_small_mod(0, m as nat);
            lemma_cong_mul(coeff(c, j), s, coeff(c, j), 0, m);
        }
    }
    assert(sum(|j: int| sum(|k: int| f(j, k), n), n) == sum(e, n)) by {
        assert((|j: int| sum(|k: int| f(j, k), n)) =~= e);
    }
    lemma_sum_mod(e, ind, n, m);
    lemma_sum_single(ind, l, n);
}

/// The terms of `b` moved up by `i` degrees: `sum_{k < i + L} b_(k-i) z^k == z^i sum_{j < L} b_j z^j`.
proof fn lemma_sum_shifted_prefix(b: Seq<int>, z: int, i: int, len: int)
    requires
        i >= 0,
        len >= 0,
    ensures
        sum(|k: int| coeff(b, k - i) * pow(z, k as nat), i + len) == pow(z, i as nat) * sum(terms(b, z), len),
    decreases len,
{
    let f = |k: int| coeff(b, k - i) * pow(z, k as nat);
    if len == 0 {
        lemma_sum_zero(f, i);
    } else {
        lemma_sum_shifted_prefix(b, z, i, len - 1);
        lemma_pow_adds(z, i as nat, (len - 1) as nat);
        assert((i as nat) + ((len - 1) as nat) == (i + len - 1) as nat);
        let zi = pow(z, i as nat);
        let zl = pow(z, (len - 1) as nat);
        let c = coeff(b, len - 1);
        let s1 = sum(terms(b, z), len - 1);
        assert(f(i + len - 1) == c * (zi * zl));
        assert(zi * s1 + c * (zi * zl) == zi * (s1 + c * zl)) by (nonlinear_arith);
    }
}

/// The product of evaluations is the evaluation of the product: `(a b)(z) == a(z) b(z)`, the
/// coefficient of degree `k` of `a b` being `sum_i a_i b_(k-i)`.
pub proof fn lemma_eval_product(a: Seq<int>, b: Seq<int>, cc: Seq<int>, z: int)
    requires
        a.len() >= 1,
        b.len() >= 1,
        cc.len() == a.len() + b.len() - 1,
        forall|k: int|
            0 <= k < cc.len() ==> #[trigger] cc[k] == sum(|i: int| coeff(a, i) * coeff(b, k - i), a.len() as int),
    ensures
        eval(cc, z) == eval(a, z) * eval(b, z),
{
    let na = a.len() as int;
    let nb = b.len() as int;
    let kk = cc.len() as int;
    lemma_eval_sum(cc, z, kk);
    lemma_eval_sum(a, z, na);
    lemma_eval_sum(b, z, nb);
    let f = |i: int, k: int| coeff(a, i) * coeff(b, k - i) * pow(z, k as nat);
    let g = |k: int| sum(|i: int| f(i, k), na);
    assert forall|k: int| 0 <= k < kk implies #[trigger] terms(cc, z)(k) == g(k) by {
        let zk = pow(z, k as nat);
        let ck = |i: int| coeff(a, i) * coeff(b, k - i);
        let h = |i: int| zk * ck(i);
        lemma_sum_scale(ck, h, zk, na);
        assert forall|i: int| 0 <= i < na implies #[trigger] h(i) == f(i, k) by {
            assert(zk * (coeff(a, i) * coeff(b, k - i)) == coeff(a, i) * coeff(b, k - i) * zk)
                by (nonlinear_arith);
        }
        lemma_sum_ext(h, |i: int| f(i, k), na);
        assert(cc[k] == sum(ck, na)) by {
            assert((|i: int| coeff(a, i) * coeff(b, k - i)) =~= ck);
        }
        assert(coeff(cc, k) == cc[k]);
        assert(cc[k] * zk == zk * cc[k]) by (nonlinear_arith);
    }
    lemma_sum_ext(terms(cc, z), g, kk);
    lemma_sum_swap(f, na, kk);
    assert(g =~= (|k: int| sum(|i: int| f(i, k), na)));
    let e = |i: int| sum(|k: int| f(i, k), kk);
    let eb = eval(b, z);
    let t = |i: int| eb * terms(a, z)(i);
    assert forall|i: int| 0 <= i < na implies #[trigger] e(i) == t(i) by {
        let sh = |k: int| coeff(b, k - i) * pow(z, k as nat);
        let fi = |k: int| f(i, k);
        assert forall|k: int| 0 <= k < kk implies #[trigger] fi(k) == coeff(a, i) * sh(k) by {
            assert(coeff(a, i) * coeff(b, k - i) * pow(z, k as nat) == coeff(a, i) * (coeff(b, k - i) * pow(z, k as nat)))
                by (nonlinear_arith);
        }
        lemma_sum_scale(sh, fi, coeff(a, i), kk);
        lemma_sum_shifted_prefix(b, z, i, nb);
        lemma_sum_tail(sh, i + nb, kk);
        assert(e(i) == sum(fi, kk)) by {
            assert((|k: int| f(i, k)) =~= fi);
        }
        let zi = pow(z, i as nat);
        let ca = coeff(a, i);
        assert(ca * (zi * eb) == eb * (ca * zi)) by (nonlinear_arith);
    }
    assert(sum(|i: int| sum(|k: int| f(i, k), kk), na) == sum(e, na)) by {
        assert((|i: int| sum(|k: int| f(i, k), kk)) =~= e);
    }
    lemma_sum_ext(e, t, na);
    lemma_sum_scale(terms(a, z), t, eb, na);
    assert(eb * eval(a, z) == eval(a, z) * eb) by (nonlinear_arith);
}

} // verus!

//! Products of coefficient sequences (Cauchy products) and their algebra: commutativity,
//! associativity, and how they behave under truncation and congruence.
use vstd::prelude::*;
use crate::residue::coeff;
use crate::dft::{
    sum, lemma_sum_ext, lemma_sum_add, lemma_sum_scale, lemma_sum_tail, lemma_sum_mod, lemma_sum_swap,
    lemma_sum_zero, lemma_sum_single, lemma_cong_add, lemma_cong_mul, lemma_cong_sub,
};

verus! {

/// Coefficient `k` of the product of `a` and `b`: `sum_{i <= k} a_i b_(k-i)`.
pub open spec fn cmul(a: Seq<int>, b: Seq<int>, k: int) -> int {
    sum(|i: int| coeff(a, i) * coeff(b, k - i), k + 1)
}

/// The product of `a` and `b`, with `a.len() + b.len() - 1` coefficients.
pub open spec fn prod(a: Seq<int>, b: Seq<int>) -> Seq<int> {
    if a.len() == 0 || b.len() == 0 {
        Seq::empty()
    } else {
        Seq::new((a.len() + b.len() - 1) as nat, |k: int| cmul(a, b, k))
    }
}

/// `sum_{i <= n} f(i) == f(0) + sum_{i < n} f(i + 1)`.
proof fn lemma_sum_shift_first(f: spec_fn(int) -> int, n: int)
    requires
        n >= 0,
    ensures
        sum(f, n + 1) == f(0) + sum(|i: int| f(i + 1), n),
    decreases n,
{
    let g = |i: int| f(i + 1);
    if n > 0 {
        lemma_sum_shift_first(f, n - 1);
        assert(sum(|i: int| f(i + 1), n - 1) == sum(g, n - 1)) by {
            assert((|i: int| f(i + 1)) =~= g);
        }
        assert(sum(g, n) == sum(g, n - 1) + g(n - 1));
        assert(g(n - 1) == f(n));
        assert(sum(f, n + 1) == sum(f, n) + f(n));
    } else {
        assert(sum(f, 1) == sum(f, 0) + f(0));
        assert(sum(g, 0) == 0);
    }
    assert(sum(|i: int| f(i + 1), n) == sum(g, n)) by {
        assert((|i: int| f(i + 1)) =~= g);
    }
}

/// A sum read backwards.
proof fn lemma_sum_reverse(f: spec_fn(int) -> int, n: int)
    requires
        n >= 0,
    ensures
        sum(|i: int| f(n - 1 - i), n) == sum(f, n),
    decreases n,
{
    if n > 0 {
        let g = |i: int| f(n - 1 - i);
        lemma_sum_shift_first(g, n - 1);
        lemma_sum_reverse(f, n - 1);
        assert((|i: int| g(i + 1)) =~= (|i: int| f(n - 1 - 1 - i)));
    }
}

/// Terms below `k + 1` with an index past either sequence vanish: the product has
/// `a.len() + b.len() - 1` coefficients.
pub proof fn lemma_cmul_past_end(a: Seq<int>, b: Seq<int>, k: int)
    requires
        k >= a.len() + b.len() - 1,
    ensures
        cmul(a, b, k) == 0,
{
    let f = |i: int| coeff(a, i) * coeff(b, k - i);
    assert forall|i: int| 0 <= i < k + 1 implies #[trigger] f(i) == 0 by {
        if i < a.len() {
            assert(coeff(b, k - i) == 0);
        } else {
            assert(coeff(a, i) == 0);
        }
    }
    lemma_sum_zero(f, k + 1);
}

/// The coefficients of `prod(a, b)` are `cmul(a, b, k)` at every degree.
pub proof fn lemma_coeff_prod(a: Seq<int>, b: Seq<int>, k: int)
    ensures
        coeff(prod(a, b), k) == cmul(a, b, k),
{
    if k < 0 {
        assert(cmul(a, b, k) == 0);
    } else if a.len() == 0 || b.len() == 0 {
        let f = |i: int| coeff(a, i) * coeff(b, k - i);
        assert forall|i: int| 0 <= i < k + 1 implies #[trigger] f(i) == 0 by {
            if a.len() == 0 {
                assert(coeff(a, i) == 0);
            } else {
                assert(coeff(b, k - i) == 0);
            }
        }
        lemma_sum_zero(f, k + 1);
    } else if k >= a.len() + b.len() - 1 {
        lemma_cmul_past_end(a, b, k);
    }
}

/// The product commutes.
pub proof fn lemma_cmul_comm(a: Seq<int>, b: Seq<int>, k: int)
    ensures
        cmul(a, b, k) == cmul(b, a, k),
{
    if k >= 0 {
        let f = |i: int| coeff(a, i) * coeff(b, k - i);
        let g = |i: int| coeff(b, i) * coeff(a, k - i);
        lemma_sum_reverse(f, k + 1);
        assert forall|i: int| 0 <= i < k + 1 implies #[trigger] f(k + 1 - 1 - i) == g(i) by {
            assert(coeff(a, k - i) * coeff(b, k - (k - i)) == coeff(b, i) * coeff(a, k - i)) by (nonlinear_arith)
                requires
                    k - (k - i) == i,
            ;
        }
        lemma_sum_ext(|i: int| f(k + 1 - 1 - i), g, k + 1);
    }
}

/// Moving the terms up by `j` places, past `j` vanishing ones.
proof fn lemma_sum_shift(h: spec_fn(int) -> int, j: int, len: int)
    requires
        j >= 0,
        len >= 0,
        forall|t: int| -j <= t < 0 ==> #[trigger] h(t) == 0,
    ensures
        sum(|i: int| h(i - j), j + len) == sum(h, len),
    decreases len,
{
    let g = |i: int| h(i - j);
    if len == 0 {
        assert forall|i: int| 0 <= i < j implies #[trigger] g(i) == 0 by {
            assert(h(i - j) == 0);
        }
        lemma_sum_zero(g, j);
    } else {
        lemma_sum_shift(h, j, len - 1);
        assert(sum(|i: int| h(i - j), j + len - 1) == sum(g, j + len - 1)) by {
            assert((|i: int| h(i - j)) =~= g);
        }
        assert(sum(g, j + len) == sum(g, j + len - 1) + g(j + len - 1));
    }
    assert(sum(|i: int| h(i - j), j + len) == sum(g, j + len)) by {
        assert((|i: int| h(i - j)) =~= g);
    }
}

/// `cmul(a, b, i)` summed over the whole range `0 .. n` with `n > i`.
proof fn lemma_cmul_wide(a: Seq<int>, b: Seq<int>, i: int, n: int)
    requires
        0 <= i < n,
    ensures
        cmul(a, b, i) == sum(|j: int| coeff(a, j) * coeff(b, i - j), n),
{
    let f = |j: int| coeff(a, j) * coeff(b, i - j);
    assert forall|j: int| i + 1 <= j < n implies #[trigger] f(j) == 0 by {
        assert(coeff(b, i - j) == 0);
    }
    lemma_sum_tail(f, i + 1, n);
}

/// The product is associative: `((a b) c)_k == (a (b c))_k`.
pub proof fn lemma_cmul_assoc(a: Seq<int>, b: Seq<int>, c: Seq<int>, k: int)
    ensures
        cmul(prod(a, b), c, k) == cmul(a, prod(b, c), k),
{
    if k >= 0 {
        let n = k + 1;
        let f = |j: int, i: int| coeff(a, j) * coeff(b, i - j) * coeff(c, k - i);
        // the left side as a double sum
        let lt = |i: int| coeff(prod(a, b), i) * coeff(c, k - i);
        assert forall|i: int| 0 <= i < n implies #[trigger] lt(i) == sum(|j: int| f(j, i), n) by {
            lemma_coeff_prod(a, b, i);
            lemma_cmul_wide(a, b, i, n);
            let ab = |j: int| coeff(a, j) * coeff(b, i - j);
            let fi = |j: int| f(j, i);
            assert forall|j: int| 0 <= j < n implies #[trigger] fi(j) == coeff(c, k - i) * ab(j) by {
                assert(coeff(a, j) * coeff(b, i - j) * coeff(c, k - i) == coeff(c, k - i) * (coeff(a, j) * coeff(
                    b,
                    i - j,
                ))) by (nonlinear_arith);
            }
            lemma_sum_scale(ab, fi, coeff(c, k - i), n);
            assert(sum(|j: int| f(j, i), n) == sum(fi, n)) by {
                assert((|j: int| f(j, i)) =~= fi);
            }
            assert(coeff(prod(a, b), i) * coeff(c, k - i) == coeff(c, k - i) * cmul(a, b, i)) by (nonlinear_arith)
                requires
                    coeff(prod(a, b), i) == cmul(a, b, i),
            ;
            assert(cmul(a, b, i) == sum(ab, n)) by {
                assert((|j: int| coeff(a, j) * coeff(b, i - j)) =~= ab);
            }
        }
        lemma_sum_ext(lt, |i: int| sum(|j: int| f(j, i), n), n);
        assert(cmul(prod(a, b), c, k) == sum(lt, n)) by {
            assert((|i: int| coeff(prod(a, b), i) * coeff(c, k - i)) =~= lt);
        }
        lemma_sum_swap(f, n, n);
        // the right side
        let rt = |j: int| coeff(a, j) * coeff(prod(b, c), k - j);
        let inner = |j: int| sum(|i: int| f(j, i), n);
        assert forall|j: int| 0 <= j < n implies #[trigger] inner(j) == rt(j) by {
            let h = |t: int| coeff(a, j) * (coeff(b, t) * coeff(c, k - j - t));
            assert forall|t: int| -j <= t < 0 implies #[trigger] h(t) == 0 by {
                assert(coeff(b, t) == 0);
            }
            lemma_sum_shift(h, j, n - j);
            assert((|i: int| h(i - j)) =~= (|i: int| f(j, i))) by {
                assert forall|i: int| #[trigger] h(i - j) == f(j, i) by {
                    assert(k - j - (i - j) == k - i);
                    assert(coeff(a, j) * (coeff(b, i - j) * coeff(c, k - i)) == coeff(a, j) * coeff(b, i - j) * coeff(
                        c,
                        k - i,
                    )) by (nonlinear_arith);
                }
            }
            let bc = |t: int| coeff(b, t) * coeff(c, k - j - t);
            lemma_sum_scale(bc, h, coeff(a, j), n - j);
            lemma_coeff_prod(b, c, k - j);
            assert(cmul(b, c, k - j) == sum(bc, n - j)) by {
                assert((|t: int| coeff(b, t) * coeff(c, (k - j) - t)) =~= bc);
            }
        }
        lemma_sum_ext(inner, rt, n);
        assert(sum(|j: int| sum(|i: int| f(j, i), n), n) == sum(inner, n)) by {
            assert((|j: int| sum(|i: int| f(j, i), n)) =~= inner);
        }
        assert(cmul(a, prod(b, c), k) == sum(rt, n)) by {
            assert((|j: int| coeff(a, j) * coeff(prod(b, c), k - j)) =~= rt);
        }
    }
}

/// `a` and `b` agree modulo `m` below degree `n`.
pub open spec fn agree_below(a: Seq<int>, b: Seq<int>, n: int, m: int) -> bool {
    forall|t: int| 0 <= t < n ==> #[trigger] (coeff(a, t) % m) == coeff(b, t) % m
}

/// The unit series: `1`, then zeros.
pub open spec fn delta(t: int) -> int {
    if t == 0 {
        1
    } else {
        0
    }
}

/// Changing the left factor above degree `k` or by multiples of `m` keeps coefficient `k`
/// modulo `m`.
pub proof fn lemma_cmul_cong_left(a: Seq<int>, a2: Seq<int>, b: Seq<int>, k: int, m: int)
    requires
        m >= 1,
        agree_below(a, a2, k + 1, m),
    ensures
        cmul(a, b, k) % m == cmul(a2, b, k) % m,
{
    let f = |i: int| coeff(a, i) * coeff(b, k - i);
    let g = |i: int| coeff(a2, i) * coeff(b, k - i);
    assert forall|i: int| 0 <= i < k + 1 implies #[trigger] f(i) % m == g(i) % m by {
        vstd::arithmetic::div_mod::lemma_mod_twice(coeff(b, k - i), m);
        lemma_cong_mul(coeff(a, i), coeff(b, k - i), coeff(a2, i), coeff(b, k - i), m);
    }
    lemma_sum_mod(f, g, k + 1, m);
}

/// The same for the right factor.
pub proof fn lemma_cmul_cong_right(a: Seq<int>, b: Seq<int>, b2: Seq<int>, k: int, m: int)
    requires
        m >= 1,
        agree_below(b, b2, k + 1, m),
    ensures
        cmul(a, b, k) % m == cmul(a, b2, k) % m,
{
    lemma_cmul_comm(a, b, k);
    lemma_cmul_comm(a, b2, k);
    lemma_cmul_cong_left(b, b2, a, k, m);
}

/// Multiplying by `2 - p` (below degree `n`): `(p (2 - p))_t == 2 p_t - (p p)_t` for `t < n`.
pub proof fn lemma_cmul_two_minus(p: Seq<int>, q: Seq<int>, n: int, t: int)
    requires
        0 <= t < n,
        q.len() == n,
        forall|i: int| 0 <= i < n ==> #[trigger] q[i] == 2 * delta(i) - coeff(p, i),
    ensures
        cmul(p, q, t) == 2 * coeff(p, t) - cmul(p, p, t),
{
    let f = |i: int| coeff(p, i) * coeff(q, t - i);
    let d = |i: int| if i == t {
        2 * coeff(p, t)
    } else {
        0
    };
    let g = |i: int| -(coeff(p, i) * coeff(p, t - i));
    assert forall|i: int| 0 <= i < t + 1 implies #[trigger] f(i) == d(i) + g(i) by {
        assert(coeff(q, t - i) == 2 * delta(t - i) - coeff(p, t - i));
        if i == t {
            assert(coeff(p, i) * (2 * 1 - coeff(p, 0)) == 2 * coeff(p, t) - coeff(p, i) * coeff(p, t - i))
                by (nonlinear_arith)
                requires
                    i == t,
            ;
        } else {
            assert(coeff(p, i) * (2 * 0 - coeff(p, t - i)) == -(coeff(p, i) * coeff(p, t - i))) by (nonlinear_arith);
        }
    }
    lemma_sum_add(d, g, f, t + 1);
    lemma_sum_single(d, t, t + 1);
    let pp = |i: int| coeff(p, i) * coeff(p, t - i);
    lemma_sum_scale(pp, g, -1, t + 1);
    assert(cmul(p, p, t) == sum(pp, t + 1)) by {
        assert((|i: int| coeff(p, i) * coeff(p, t - i)) =~= pp);
    }
    assert(cmul(p, q, t) == sum(f, t + 1)) by {
        assert((|i: int| coeff(p, i) * coeff(q, t - i)) =~= f);
    }
}

/// Newton's step for the inverse: if `p ≡ 1` below degree `h`, then `2 p - p p ≡ 1` below
/// degree `2 h`.
pub proof fn lemma_newton_square(p: Seq<int>, h: int, t: int, m: int)
    requires
        m >= 1,
        h >= 1,
        0 <= t < 2 * h,
        forall|i: int| 0 <= i < h ==> #[trigger] (coeff(p, i) % m) == delta(i) % m,
    ensures
        (2 * coeff(p, t) - cmul(p, p, t)) % m == delta(t) % m,
{
    let pt = coeff(p, t);
    let f = |i: int| coeff(p, i) * coeff(p, t - i);
    assert(coeff(p, 0) % m == delta(0) % m);
    vstd::arithmetic::div_mod::lemma_mod_twice(pt, m);
    if t == 0 {
        assert(cmul(p, p, 0) == sum(f, 1)) by {
            assert((|i: int| coeff(p, i) * coeff(p, 0 - i)) =~= f);
        }
        assert(sum(f, 1) == sum(f, 0) + f(0));
        lemma_cong_mul(coeff(p, 0), coeff(p, 0), 1, 1, m);
        lemma_cong_mul(2, pt, 2, 1, m);
        lemma_cong_sub(2 * pt, pt * pt, 2, 1, m);
    } else {
        let g = |i: int| if i == 0 || i == t {
            pt
        } else {
            0
        };
        assert forall|i: int| 0 <= i < t + 1 implies #[trigger] f(i) % m == g(i) % m by {
            if i == 0 {
                lemma_cong_mul(coeff(p, 0), pt, 1, pt, m);
            } else if i == t {
                lemma_cong_mul(pt, coeff(p, 0), pt, 1, m);
            } else if i < h {
                assert(coeff(p, i) % m == 0int % m);
                vstd::arithmetic::div_mod::lemma_mod_twice(coeff(p, t - i), m);
                lemma_cong_mul(coeff(p, i), coeff(p, t - i), 0, coeff(p, t - i), m);
            } else {
                assert(coeff(p, t - i) % m == 0int % m);
                vstd::arithmetic::div_mod::lemma_mod_twice(coeff(p, i), m);
                lemma_cong_mul(coeff(p, i), coeff(p, t - i), coeff(p, i), 0, m);
            }
        }
        lemma_sum_mod(f, g, t + 1, m);
        let g0 = |i: int| if i == 0 {
            pt
        } else {
            0
        };
        let gt = |i: int| if i == t {
            pt
        } else {
            0
        };
        lemma_sum_add(g0, gt, g, t + 1);
        lemma_sum_single(g0, 0, t + 1);
        lemma_sum_single(gt, t, t + 1);
        assert(cmul(p, p, t) == sum(f, t + 1)) by {
            assert((|i: int| coeff(p, i) * coeff(p, t - i)) =~= f);
        }
        lemma_cong_sub(2 * pt, cmul(p, p, t), 2 * pt, 2 * pt, m);
    }
}

/// One step of Newton's iteration for the inverse series, modulo `m`: `f g ≡ 1` below degree
/// `k0` gives `f next ≡ 1` below `k = 2 k0`, where `fg ≡ ft g` for the truncation `ft` of `f`,
/// `h ≡ 2 - fg` and `next ≡ g h`, all below `k`.
pub proof fn lemma_inv_step(
    f: Seq<int>,
    ft: Seq<int>,
    g: Seq<int>,
    fg: Seq<int>,
    h: Seq<int>,
    next: Seq<int>,
    k0: int,
    k: int,
    m: int,
)
    requires
        m >= 1,
        k0 >= 1,
        k == 2 * k0,
        forall|t: int| 0 <= t < k0 ==> #[trigger] (cmul(f, g, t) % m) == delta(t) % m,
        agree_below(ft, f, k, m),
        agree_below(fg, prod(ft, g), k, m),
        forall|t: int| 0 <= t < k ==> #[trigger] (coeff(h, t) % m) == (2 * delta(t) - coeff(fg, t)) % m,
        agree_below(next, prod(g, h), k, m),
    ensures
        forall|t: int| 0 <= t < k ==> #[trigger] (cmul(f, next, t) % m) == delta(t) % m,
{
    let p = prod(f, g);
    let q = Seq::new(k as nat, |i: int| 2 * delta(i) - coeff(p, i));
    assert forall|i: int| 0 <= i < k0 implies #[trigger] (coeff(p, i) % m) == delta(i) % m by {
        lemma_coeff_prod(f, g, i);
    }
    assert forall|t: int| 0 <= t < k implies #[trigger] (cmul(f, next, t) % m) == delta(t) % m by {
        // h ≡ q below k
        assert forall|i: int| 0 <= i < t + 1 implies #[trigger] (coeff(h, i) % m) == coeff(q, i) % m by {
            lemma_coeff_prod(ft, g, i);
            lemma_coeff_prod(f, g, i);
            assert forall|j: int| 0 <= j < i + 1 implies #[trigger] (coeff(ft, j) % m) == coeff(f, j) % m by {
            }
            lemma_cmul_cong_left(ft, f, g, i, m);
            assert(coeff(fg, i) % m == coeff(p, i) % m);
            lemma_cong_sub(2 * delta(i), coeff(fg, i), 2 * delta(i), coeff(p, i), m);
        }
        lemma_cmul_cong_right(f, next, prod(g, h), t, m);
        lemma_cmul_assoc(f, g, h, t);
        lemma_cmul_cong_right(p, h, q, t, m);
        lemma_cmul_two_minus(p, q, k, t);
        lemma_newton_square(p, k0, t, m);
    }
}

/// The coefficients in reverse order.
pub open spec fn rev(u: Seq<int>) -> Seq<int> {
    Seq::new(u.len(), |i: int| u[u.len() - 1 - i])
}

/// Sequences with the same coefficients have the same products.
pub proof fn lemma_cmul_same_coeffs(a: Seq<int>, a2: Seq<int>, b: Seq<int>, b2: Seq<int>, k: int)
    requires
        forall|i: int| #[trigger] coeff(a, i) == coeff(a2, i),
        forall|i: int| #[trigger] coeff(b, i) == coeff(b2, i),
    ensures
        cmul(a, b, k) == cmul(a2, b2, k),
{
    let f = |i: int| coeff(a, i) * coeff(b, k - i);
    let g = |i: int| coeff(a2, i) * coeff(b2, k - i);
    assert forall|i: int| 0 <= i < k + 1 implies #[trigger] f(i) == g(i) by {
        assert(coeff(a, i) == coeff(a2, i));
        assert(coeff(b, k - i) == coeff(b2, k - i));
    }
    lemma_sum_ext(f, g, k + 1);
}

/// Reversing both factors reverses their product:
/// `(u v)_t == (rev(u) rev(v))_(p + s - 2 - t)`.
pub proof fn lemma_cmul_rev(u: Seq<int>, v: Seq<int>, t: int)
    requires
        u.len() >= 1,
        v.len() >= 1,
        0 <= t <= u.len() + v.len() - 2,
    ensures
        cmul(u, v, t) == cmul(rev(u), rev(v), u.len() + v.len() - 2 - t),
{
    let p = u.len() as int;
    let s = v.len() as int;
    let tt = p + s - 2 - t;
    let ru = rev(u);
    let rv = rev(v);
    let f = |i: int| coeff(u, i) * coeff(v, t - i);
    let g = |i: int| coeff(ru, i) * coeff(rv, tt - i);
    let big = p + s;
    assert forall|i: int| t + 1 <= i < big implies #[trigger] f(i) == 0 by {
        assert(coeff(v, t - i) == 0);
    }
    lemma_sum_tail(f, t + 1, big);
    assert forall|i: int| p <= i < big implies #[trigger] f(i) == 0 by {
        assert(coeff(u, i) == 0);
    }
    lemma_sum_tail(f, p, big);
    assert forall|i: int| tt + 1 <= i < big implies #[trigger] g(i) == 0 by {
        assert(coeff(rv, tt - i) == 0);
    }
    lemma_sum_tail(g, tt + 1, big);
    assert forall|i: int| p <= i < big implies #[trigger] g(i) == 0 by {
        assert(coeff(ru, i) == 0);
    }
    lemma_sum_tail(g, p, big);
    assert forall|i: int| 0 <= i < p implies #[trigger] g(i) == f(p - 1 - i) by {
        assert(coeff(ru, i) == coeff(u, p - 1 - i));
        assert(s - 1 - (tt - i) == t - (p - 1 - i));
        if 0 <= tt - i < s {
            assert(coeff(rv, tt - i) == v[s - 1 - (tt - i)]);
            assert(coeff(v, t - (p - 1 - i)) == v[t - (p - 1 - i)]);
        } else {
            assert(coeff(rv, tt - i) == 0);
            assert(coeff(v, t - (p - 1 - i)) == 0);
        }
    }
    lemma_sum_ext(g, |i: int| f(p - 1 - i), p);
    lemma_sum_reverse(f, p);
    assert(cmul(u, v, t) == sum(f, t + 1)) by {
        assert((|i: int| coeff(u, i) * coeff(v, t - i)) =~= f);
    }
    assert(cmul(ru, rv, tt) == sum(g, tt + 1)) by {
        assert((|i: int| coeff(ru, i) * coeff(rv, tt - i)) =~= g);
    }
}

/// Division through reversed coefficients: with `ib` inverting `rev(b)` below degree
/// `L = a.len() - b.len() + 1` and `q` the reversal of the first `L` coefficients of
/// `rev(a) ib`, the product `q b` agrees with `a` from degree `b.len() - 1` on.
pub proof fn lemma_div_by_reversal(a: Seq<int>, b: Seq<int>, ib: Seq<int>, qr: Seq<int>, m: int, t: int)
    requires
        m >= 1,
        a.len() >= b.len() >= 1,
        forall|i: int|
            0 <= i < a.len() - b.len() + 1 ==> #[trigger] (cmul(rev(b), ib, i) % m) == delta(i) % m,
        qr.len() == a.len() - b.len() + 1,
        agree_below(qr, prod(rev(a), ib), a.len() - b.len() + 1, m),
        b.len() - 1 <= t < a.len(),
    ensures
        cmul(rev(qr), b, t) % m == a[t] % m,
{
    let n = a.len() as int;
    let l = n - b.len() + 1;
    let j = n - 1 - t;
    let ra = rev(a);
    let rb = rev(b);
    let one = seq![1int];
    lemma_cmul_rev(rev(qr), b, t);
    assert(rev(rev(qr)) =~= qr);
    assert(rev(qr).len() + b.len() - 2 - t == j);
    lemma_cmul_cong_left(qr, prod(ra, ib), rb, j, m);
    lemma_cmul_assoc(ra, ib, rb, j);
    assert forall|i: int| 0 <= i < j + 1 implies #[trigger] (coeff(prod(ib, rb), i) % m) == coeff(one, i) % m by {
        lemma_coeff_prod(ib, rb, i);
        lemma_cmul_comm(ib, rb, i);
        assert(coeff(one, i) == delta(i));
    }
    lemma_cmul_cong_right(ra, prod(ib, rb), one, j, m);
    let f = |i: int| coeff(ra, i) * coeff(one, j - i);
    assert forall|i: int| 0 <= i < j + 1 && i != j implies #[trigger] f(i) == 0 by {
        assert(coeff(one, j - i) == 0);
    }
    lemma_sum_single(f, j, j + 1);
    assert(cmul(ra, one, j) == sum(f, j + 1)) by {
        assert((|i: int| coeff(ra, i) * coeff(one, j - i)) =~= f);
    }
    assert(ra[j] == a[t]);
}

/// Multiplying back by the series that `ib` inverts: if `f ib ≡ 1` up to degree `t`, then
/// `((d ib) f)_t ≡ d_t`.
pub proof fn lemma_times_inverse(d: Seq<int>, ib: Seq<int>, f: Seq<int>, t: int, m: int)
    requires
        m >= 1,
        t >= 0,
        forall|i: int| 0 <= i <= t ==> #[trigger] (cmul(f, ib, i) % m) == delta(i) % m,
    ensures
        cmul(prod(d, ib), f, t) % m == coeff(d, t) % m,
{
    let one = seq![1int];
    lemma_cmul_assoc(d, ib, f, t);
    assert forall|i: int| 0 <= i < t + 1 implies #[trigger] (coeff(prod(ib, f), i) % m) == coeff(one, i) % m by {
        lemma_coeff_prod(ib, f, i);
        lemma_cmul_comm(ib, f, i);
        assert(coeff(one, i) == delta(i));
    }
    lemma_cmul_cong_right(d, prod(ib, f), one, t, m);
    let g = |i: int| coeff(d, i) * coeff(one, t - i);
    assert forall|i: int| 0 <= i < t + 1 && i != t implies #[trigger] g(i) == 0 by {
        assert(coeff(one, t - i) == 0);
    }
    lemma_sum_single(g, t, t + 1);
    assert(cmul(d, one, t) == sum(g, t + 1)) by {
        assert((|i: int| coeff(d, i) * coeff(one, t - i)) =~= g);
    }
}

/// The coefficients of the derivative: `(i + 1) s_(i+1)`.
pub open spec fn deriv(s: Seq<int>) -> Seq<int> {
    if s.len() == 0 {
        s
    } else {
        Seq::new((s.len() - 1) as nat, |i: int| (i + 1) * s[i + 1])
    }
}


/// The coefficients of the derivative at every degree: `(i + 1) s_(i+1)`, zero past the end.
pub proof fn lemma_coeff_deriv(s: Seq<int>, i: int)
    requires
        i >= 0,
    ensures
        coeff(deriv(s), i) == (i + 1) * coeff(s, i + 1),
{
}

/// The product rule: `(t + 1) (a b)_(t+1) == (a' b)_t + (a b')_t`.
pub proof fn lemma_cmul_leibniz(a: Seq<int>, b: Seq<int>, t: int)
    requires
        t >= 0,
    ensures
        (t + 1) * cmul(a, b, t + 1) == cmul(deriv(a), b, t) + cmul(a, deriv(b), t),
{
    let f = |i: int| coeff(a, i) * coeff(b, t + 1 - i);
    let fl = |i: int| i * f(i);
    let fr = |i: int| (t + 1 - i) * f(i);
    let ft = |i: int| (t + 1) * f(i);
    assert(cmul(a, b, t + 1) == sum(f, t + 2)) by {
        assert((|i: int| coeff(a, i) * coeff(b, (t + 1) - i)) =~= f);
    }
    lemma_sum_scale(f, ft, t + 1, t + 2);
    assert forall|k: int| 0 <= k < t + 2 implies #[trigger] ft(k) == fl(k) + fr(k) by {
        let v = f(k);
        assert((t + 1) * v == k * v + (t + 1 - k) * v) by (nonlinear_arith);
    }
    lemma_sum_add(fl, fr, ft, t + 2);
    // the left half: the term at 0 vanishes, the rest is (a' b)_t
    lemma_sum_shift_first(fl, t + 1);
    let sl = |i: int| fl(i + 1);
    assert(sum(|i: int| fl(i + 1), t + 1) == sum(sl, t + 1)) by {
        assert((|i: int| fl(i + 1)) =~= sl);
    }
    let gl = |i: int| coeff(deriv(a), i) * coeff(b, t - i);
    assert forall|i: int| 0 <= i < t + 1 implies #[trigger] sl(i) == gl(i) by {
        lemma_coeff_deriv(a, i);
        let x = coeff(a, i + 1);
        let y = coeff(b, t - i);
        assert(t + 1 - (i + 1) == t - i);
        assert((i + 1) * (x * y) == ((i + 1) * x) * y) by (nonlinear_arith);
    }
    lemma_sum_ext(sl, gl, t + 1);
    assert(cmul(deriv(a), b, t) == sum(gl, t + 1)) by {
        assert((|i: int| coeff(deriv(a), i) * coeff(b, t - i)) =~= gl);
    }
    assert(fl(0) == 0);
    // the right half: the term at t + 1 vanishes, the rest is (a b')_t
    assert(sum(fr, t + 2) == sum(fr, t + 1) + fr(t + 1));
    assert(fr(t + 1) == 0);
    let gr = |i: int| coeff(a, i) * coeff(deriv(b), t - i);
    assert forall|i: int| 0 <= i < t + 1 implies #[trigger] fr(i) == gr(i) by {
        lemma_coeff_deriv(b, t - i);
        let x = coeff(a, i);
        let y = coeff(b, t + 1 - i);
        assert(t - i + 1 == t + 1 - i);
        assert((t + 1 - i) * (x * y) == x * ((t - i + 1) * y)) by (nonlinear_arith);
    }
    lemma_sum_ext(fr, gr, t + 1);
    assert(cmul(a, deriv(b), t) == sum(gr, t + 1)) by {
        assert((|i: int| coeff(a, i) * coeff(deriv(b), t - i)) =~= gr);
    }
}

/// The product is linear in its right factor: `x = y + c z` below degree `t` gives
/// `(a x)_t == (a y)_t + c (a z)_t`.
pub proof fn lemma_cmul_lin_right(a: Seq<int>, x: Seq<int>, y: Seq<int>, z: Seq<int>, c: int, t: int)
    requires
        t >= 0,
        forall|i: int| 0 <= i <= t ==> #[trigger] coeff(x, i) == coeff(y, i) + c * coeff(z, i),
    ensures
        cmul(a, x, t) == cmul(a, y, t) + c * cmul(a, z, t),
{
    let fx = |i: int| coeff(a, i) * coeff(x, t - i);
    let fy = |i: int| coeff(a, i) * coeff(y, t - i);
    let fz = |i: int| coeff(a, i) * coeff(z, t - i);
    let fcz = |i: int| c * fz(i);
    assert forall|i: int| 0 <= i < t + 1 implies #[trigger] fx(i) == fy(i) + fcz(i) by {
        assert(coeff(x, t - i) == coeff(y, t - i) + c * coeff(z, t - i));
        let p = coeff(a, i);
        let q = coeff(y, t - i);
        let r = coeff(z, t - i);
        assert(p * (q + c * r) == p * q + c * (p * r)) by (nonlinear_arith);
    }
    lemma_sum_scale(fz, fcz, c, t + 1);
    lemma_sum_add(fy, fcz, fx, t + 1);
    assert((|i: int| coeff(a, i) * coeff(x, t - i)) =~= fx);
    assert((|i: int| coeff(a, i) * coeff(y, t - i)) =~= fy);
    assert((|i: int| coeff(a, i) * coeff(z, t - i)) =~= fz);
}

/// The same in the left factor.
pub proof fn lemma_cmul_lin_left(x: Seq<int>, y: Seq<int>, z: Seq<int>, c: int, b: Seq<int>, t: int)
    requires
        t >= 0,
        forall|i: int| 0 <= i <= t ==> #[trigger] coeff(x, i) == coeff(y, i) + c * coeff(z, i),
    ensures
        cmul(x, b, t) == cmul(y, b, t) + c * cmul(z, b, t),
{
    lemma_cmul_lin_right(b, x, y, z, c, t);
    lemma_cmul_comm(x, b, t);
    lemma_cmul_comm(y, b, t);
    lemma_cmul_comm(z, b, t);
}

/// A coefficient of a product vanishes modulo `m` when each of its terms has a factor that does.
pub proof fn lemma_cmul_vanish(a: Seq<int>, b: Seq<int>, t: int, m: int)
    requires
        m >= 1,
        t >= 0,
        forall|i: int| 0 <= i <= t ==> (#[trigger] coeff(a, i)) % m == 0 || coeff(b, t - i) % m == 0,
    ensures
        cmul(a, b, t) % m == 0,
{
    let f = |i: int| coeff(a, i) * coeff(b, t - i);
    let z = |i: int| 0int;
    assert forall|i: int| 0 <= i < t + 1 implies #[trigger] f(i) % m == z(i) % m by {
        if coeff(a, i) % m == 0 {
            vstd::arithmetic::div_mod::lemma_mul_mod_noop_left(coeff(a, i), coeff(b, t - i), m);
        } else {
            vstd::arithmetic::div_mod::lemma_mul_mod_noop_right(coeff(a, i), coeff(b, t - i), m);
        }
    }
    lemma_sum_mod(f, z, t + 1, m);
    lemma_sum_zero(z, t + 1);
    assert((|i: int| coeff(a, i) * coeff(b, t - i)) =~= f);
}

/// Cancelling a factor whose constant term is `1`: `(u g)_t ≡ 0` for every `t < l` gives
/// `u_t ≡ 0` for every `t < l`.
pub proof fn lemma_cmul_cancel(u: Seq<int>, g: Seq<int>, l: int, m: int)
    requires
        m >= 1,
        coeff(g, 0) % m == 1int % m,
        forall|t: int| 0 <= t < l ==> #[trigger] (cmul(u, g, t) % m) == 0,
    ensures
        forall|t: int| 0 <= t < l ==> #[trigger] (coeff(u, t) % m) == 0,
    decreases l,
{
    if l > 0 {
        lemma_cmul_cancel(u, g, l - 1, m);
        let t = l - 1;
        let f = |i: int| coeff(u, i) * coeff(g, t - i);
        let h = |i: int| if i == t { coeff(u, t) * coeff(g, 0) } else { 0int };
        assert forall|i: int| 0 <= i < t + 1 implies #[trigger] f(i) % m == h(i) % m by {
            if i < t {
                assert(coeff(u, i) % m == 0);
                vstd::arithmetic::div_mod::lemma_mul_mod_noop_left(coeff(u, i), coeff(g, t - i), m);
            }
        }
        lemma_sum_mod(f, h, t + 1, m);
        lemma_sum_single(h, t, t + 1);
        assert((|i: int| coeff(u, i) * coeff(g, t - i)) =~= f);
        assert(cmul(u, g, t) % m == 0);
        vstd::arithmetic::div_mod::lemma_mod_twice(coeff(u, t), m);
        lemma_cong_mul(coeff(u, t), coeff(g, 0), coeff(u, t), 1, m);
    }
}

/// Multiplying by the unit series: `(a 1)_t == a_t`.
pub proof fn lemma_cmul_one(a: Seq<int>, t: int)
    requires
        t >= 0,
    ensures
        cmul(a, seq![1int], t) == coeff(a, t),
{
    let one = seq![1int];
    let g = |i: int| coeff(a, i) * coeff(one, t - i);
    assert forall|i: int| 0 <= i < t + 1 && i != t implies #[trigger] g(i) == 0 by {
        assert(coeff(one, t - i) == 0);
    }
    lemma_sum_single(g, t, t + 1);
    assert((|i: int| coeff(a, i) * coeff(one, t - i)) =~= g);
}

/// Multiplying the factors by `x^s1` and `x^s2`: coefficient `t` of the product is coefficient
/// `t - s1 - s2` of `a b`, and zero below `s1 + s2`.
pub proof fn lemma_cmul_shift(a: Seq<int>, b: Seq<int>, sa: Seq<int>, sb: Seq<int>, s1: int, s2: int, t: int)
    requires
        s1 >= 0,
        s2 >= 0,
        forall|i: int| #[trigger] coeff(sa, i) == if i >= s1 { coeff(a, i - s1) } else { 0 },
        forall|i: int| #[trigger] coeff(sb, i) == if i >= s2 { coeff(b, i - s2) } else { 0 },
    ensures
        cmul(sa, sb, t) == if t >= s1 + s2 { cmul(a, b, t - s1 - s2) } else { 0 },
{
    let f = |i: int| coeff(sa, i) * coeff(sb, t - i);
    assert((|i: int| coeff(sa, i) * coeff(sb, t - i)) =~= f);
    if t < s1 + s2 {
        assert forall|i: int| 0 <= i < t + 1 implies #[trigger] f(i) == 0 by {
            if i >= s1 {
                assert(coeff(sb, t - i) == 0);
            } else {
                assert(coeff(sa, i) == 0);
            }
        }
        lemma_sum_zero(f, t + 1);
    } else {
        let u = t - s1 - s2;
        let h = |j: int| coeff(a, j) * coeff(b, u - j);
        assert forall|i: int| 0 <= i < t + 1 implies #[trigger] f(i) == h(i - s1) by {
            if i < s1 {
                assert(coeff(sa, i) == 0);
                assert(coeff(a, i - s1) == 0);
            } else if i <= t - s2 {
                assert(coeff(sa, i) == coeff(a, i - s1));
                assert(coeff(sb, t - i) == coeff(b, t - i - s2));
                assert(t - i - s2 == u - (i - s1));
            } else {
                assert(coeff(sb, t - i) == 0);
                assert(coeff(b, u - (i - s1)) == 0);
            }
        }
        lemma_sum_ext(f, |i: int| h(i - s1), t + 1);
        assert forall|j: int| -s1 <= j < 0 implies #[trigger] h(j) == 0 by {
            assert(coeff(a, j) == 0);
        }
        lemma_sum_shift(h, s1, s2 + u + 1);
        assert forall|j: int| u + 1 <= j < s2 + u + 1 implies #[trigger] h(j) == 0 by {
            assert(coeff(b, u - j) == 0);
        }
        lemma_sum_tail(h, u + 1, s2 + u + 1);
        assert((|j: int| coeff(a, j) * coeff(b, u - j)) =~= h);
    }
}

/// `a^e` as a coefficient sequence: `1` for `e == 0`, and one more factor `a` for each step.
pub open spec fn spow(a: Seq<int>, e: nat) -> Seq<int>
    decreases e,
{
    if e == 0 {
        seq![1int]
    } else {
        prod(spow(a, (e - 1) as nat), a)
    }
}

/// The constant term of a product: `(a b)_0 == a_0 b_0`.
pub proof fn lemma_cmul_const(a: Seq<int>, b: Seq<int>)
    ensures
        cmul(a, b, 0) == coeff(a, 0) * coeff(b, 0),
{
    let f0 = |i: int| coeff(a, i) * coeff(b, 0 - i);
    lemma_sum_single(f0, 0, 1);
    assert((|i: int| coeff(a, i) * coeff(b, 0 - i)) =~= f0);
    assert(f0(0) == coeff(a, 0) * coeff(b, 0));
}

} // verus!

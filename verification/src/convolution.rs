//! Convolution of sequences over `Z/MZ` by the number-theoretic transform, and of integer
//! sequences by three transforms and the Chinese remainder theorem.
//!
//! The modulus must be NTT-friendly: a prime with `M - 1` divisible by the transform length,
//! as `998244353 = 119 * 2^23 + 1` is.
use vstd::prelude::*;
use vstd::arithmetic::power::{pow, lemma_pow0, lemma_pow_mod_noop, lemma_pow_adds};
use vstd::arithmetic::div_mod::{
    lemma_fundamental_div_mod, lemma_fundamental_div_mod_converse, lemma_small_mod,
    lemma_mul_mod_noop_left, lemma_mul_mod_noop_right, lemma_mod_bound,
};
use crate::numtheory::{is_prime, gcd, lemma_euclid, lemma_pow_step, lemma_divisor_of_pred_coprime, mod_inv};
use crate::modint::{ModInt, rem_euclid_i128};
use crate::residue::{eval, coeff};
use crate::poly::{cmul, prod, agree_below, lemma_coeff_prod, lemma_cmul_past_end};
use crate::dft::{
    lemma_sum_tail, evens, odds, half_turn, lemma_half_turn_square, lemma_butterfly, lemma_inverse_unique, sum, terms,
    lemma_eval_sum, lemma_sum_ext, pow2_len, lemma_eval_product, lemma_inversion,
};

verus! {

/// The three NTT-friendly moduli of `convolution_i64`; their product exceeds `2^63`.
const MOD1: u32 = 754_974_721;
const MOD2: u32 = 167_772_161;
const MOD3: u32 = 469_762_049;

/// `x % e == 0` when `x % d == 0` and `d % e == 0`.
proof fn lemma_divides_trans(x: int, d: int, e: int)
    requires
        x >= 0,
        d > 0,
        e > 0,
        x % d == 0,
        d % e == 0,
    ensures
        x % e == 0,
{
    lemma_fundamental_div_mod(x, d);
    lemma_fundamental_div_mod(d, e);
    let a = x / d;
    let b = d / e;
    assert(x == (a * b) * e) by (nonlinear_arith)
        requires
            x == d * a,
            d == e * b,
    ;
    lemma_fundamental_div_mod_converse(x, e, a * b, 0);
}

/// A divisor of `x / i` divides `x` when `i` divides `x`.
proof fn lemma_divides_quotient(x: int, i: int, d: int)
    requires
        x >= 0,
        i > 0,
        d > 0,
        x % i == 0,
        (x / i) % d == 0,
    ensures
        x % d == 0,
{
    lemma_fundamental_div_mod(x, i);
    lemma_fundamental_div_mod(x / i, d);
    let a = x / i;
    let b = a / d;
    assert(x == (i * b) * d) by (nonlinear_arith)
        requires
            x == i * a,
            a == d * b,
    ;
    lemma_fundamental_div_mod_converse(x, d, i * b, 0);
}

/// `x^n mod m`, for `1 <= m < 2^31`; `x^0` is `1` whatever `m` is.
pub fn pow_mod(x: u64, n: u64, m: u64) -> (r: u64)
    requires
        1 <= m < 0x8000_0000,
    ensures
        r == (if n == 0 {
            1
        } else {
            pow(x as int, n as nat) % (m as int)
        }),
{
    let ghost mi = m as int;
    let ghost x0 = x as int;
    let mut x = x;
    let mut n = n;
    let ghost n0 = n as nat;
    let mut ret = 1u64;
    x %= m;
    proof {
        lemma_pow_mod_noop(x0, n0, mi);
        lemma_mul_mod_noop_left(1, pow(x as int, n0), mi);
    }
    while n > 0
        invariant
            1 <= m < 0x8000_0000,
            mi == m as int,
            x < m,
            ret < m || ret == 1,
            n0 > 0 && n == 0 ==> ret < m,
            n0 == 0 ==> ret == 1 && n == 0,
            (ret * pow(x as int, n as nat)) % mi == pow(x0, n0) % mi,
        decreases n,
    {
        let ghost old_ret = ret as int;
        let ghost old_x = x as int;
        let ghost old_n = n as nat;
        proof {
            lemma_pow_step(old_x, old_n, mi);
            assert(n & 1 == n % 2) by (bit_vector);
            assert(n >> 1 == n / 2) by (bit_vector);
            assert(ret * x <= 0x8000_0000u64 * 0x8000_0000u64) by (nonlinear_arith)
                requires
                    ret <= 0x8000_0000u64,
                    x <= 0x8000_0000u64,
            ;
            assert(x * x <= 0x8000_0000u64 * 0x8000_0000u64) by (nonlinear_arith)
                requires
                    x <= 0x8000_0000u64,
            ;
        }
        if n & 1 == 1 {
            ret = ret * x % m;
        }
        x = x * x % m;
        n >>= 1;
        proof {
            let b: int = if old_n % 2 == 1 {
                old_x
            } else {
                1
            };
            let q = pow(x as int, n as nat);
            if old_n % 2 == 1 {
                lemma_mod_bound(old_ret * old_x, mi);
            } else {
                assert(ret == old_ret);
            }
            assert(ret as int % mi == (old_ret * b) % mi) by {
                if old_n % 2 == 1 {
                    lemma_small_mod(ret as nat, mi as nat);
                }
            }
            lemma_mul_mod_noop_left(ret as int, q, mi);
            lemma_mul_mod_noop_left(old_ret * b, q, mi);
            vstd::arithmetic::mul::lemma_mul_is_associative(old_ret, b, q);
            lemma_mul_mod_noop_right(old_ret, b * q, mi);
            lemma_mul_mod_noop_right(b, q, mi);
            lemma_mul_mod_noop_right(old_ret, pow(old_x, old_n), mi);
            if n == 0 {
                assert(old_n == 1);
            }
        }
    }
    proof {
        lemma_pow0(x as int);
        if n0 > 0 {
            lemma_small_mod(ret as nat, mi as nat);
        }
    }
    ret
}

/// The residue tested by `primitive_root` for `m`: `2` and each odd prime factor of `m - 1`.
pub open spec fn is_tested_factor(m: int, p: int) -> bool {
    p == 2 || (is_prime(p) && (m - 1) % p == 0)
}

/// `g^((m - 1) / p) mod m != 1` for every tested factor `p` of `m`; for a prime `m` this says
/// that `g` generates the multiplicative group.
pub open spec fn passes_root_test(m: int, g: int) -> bool {
    forall|p: int| #[trigger] is_tested_factor(m, p) ==> pow(g, ((m - 1) / p) as nat) % m != 1
}

/// The moduli whose primitive root is looked up in a table, with their roots; `0` elsewhere.
pub open spec fn root_table(m: int) -> int {
    if m == 2 {
        1
    } else if m == 167_772_161 {
        3
    } else if m == 469_762_049 {
        3
    } else if m == 754_974_721 {
        11
    } else if m == 998_244_353 {
        3
    } else if m == 1_000_000_007 {
        5
    } else {
        0
    }
}

/// The odd prime factors of `m - 1` by trial division, after `2`.
fn tested_factors(m: u32) -> (divs: Vec<u32>)
    requires
        3 <= m < 0x8000_0000,
    ensures
        forall|k: int| 0 <= k < divs@.len() ==> #[trigger] is_tested_factor(m as int, divs@[k] as int),
        forall|k: int| 0 <= k < divs@.len() ==> 2 <= #[trigger] divs@[k] <= m - 1,
        forall|p: int| #[trigger] is_tested_factor(m as int, p) ==> exists|k: int|
            0 <= k < divs@.len() && divs@[k] == p,
{
    let ghost mm = (m - 1) as int;
    let mut divs: Vec<u32> = Vec::new();
    let mut x = m - 1;
    let ghost mut k: int = 1;
    while x % 2 == 0
        invariant
            x >= 1,
            x * k == mm,
            k >= 1,
            x <= mm,
            mm == m - 1,
            forall|q: int| is_prime(q) && q >= 3 && #[trigger] (mm % q) == 0 ==> (x as int) % q == 0,
        decreases x,
    {
        proof {
            assert forall|q: int| is_prime(q) && q >= 3 && #[trigger] (mm % q) == 0 implies ((x / 2) as int) % q
                == 0 by {
                lemma_fundamental_div_mod(x as int, 2);
                assert(x as int == 2 * (x / 2));
                assert(2int % q != 0) by {
                    lemma_small_mod(2, q as nat);
                }
                lemma_euclid(q, 2, (x / 2) as int);
            }
            lemma_fundamental_div_mod(x as int, 2);
            assert((x / 2) * (2 * k) == mm) by (nonlinear_arith)
                requires
                    x * k == mm,
                    x == 2 * (x / 2),
            ;
        }
        x /= 2;
        proof {
            k = 2 * k;
        }
    }
    divs.push(2);
    let mut i: u32 = 3;
    proof {
        assert((i as u64) * (i as u64) <= 0x7fff_ffff_ffff) by (nonlinear_arith)
            requires
                i == 3,
        ;
    }
    while (i as u64) * (i as u64) <= x as u64
        invariant
            x >= 1,
            x % 2 != 0,
            x * k == mm,
            k >= 1,
            x <= mm,
            mm == m - 1,
            m < 0x8000_0000,
            3 <= i,
            i % 2 == 1,
            i <= 0xb507,
            (i as u64) * (i as u64) <= 0x7fff_ffff_ffff,
            forall|d: int| 2 <= d < i ==> #[trigger] ((x as int) % d) != 0,
            divs@.len() >= 1,
            divs@[0] == 2,
            forall|t: int|
                1 <= t < divs@.len() ==> is_prime(#[trigger] divs@[t] as int) && mm % (divs@[t] as int)
                    == 0,
            forall|q: int|
                is_prime(q) && 3 <= q < i && #[trigger] (mm % q) == 0 ==> exists|t: int|
                    1 <= t < divs@.len() && divs@[t] == q,
            forall|q: int| is_prime(q) && q >= i && #[trigger] (mm % q) == 0 ==> (x as int) % q == 0,
        decreases 0xb508 - i,
    {
        let ghost x_before = x as int;
        let ghost divs_before = divs@;
        let ghost pushed = x % i == 0;
        if x % i == 0 {
            proof {
                assert forall|d: int| 2 <= d < i implies #[trigger] ((i as int) % d) != 0 by {
                    if (i as int) % d == 0 {
                        lemma_divides_trans(x as int, i as int, d);
                    }
                }
            }
            proof {
                lemma_fundamental_div_mod_converse(mm, x as int, k, 0);
                lemma_divides_trans(mm, x as int, i as int);
            }
            divs.push(i);
            while x % i == 0
                invariant
                    x >= 1,
                    x % 2 != 0,
                    x * k == mm,
                    k >= 1,
                    x <= mm,
                    3 <= i,
                    is_prime(i as int),
                    forall|d: int| 2 <= d < i ==> #[trigger] ((x as int) % d) != 0,
                    forall|q: int| is_prime(q) && q > i && #[trigger] (mm % q) == 0 ==> (x as int) % q == 0,
                decreases x,
            {
                proof {
                    let y = (x / i) as int;
                    lemma_fundamental_div_mod(x as int, i as int);
                    assert(x as int == i * y);
                    assert forall|d: int| 2 <= d < i implies #[trigger] (y % d) != 0 by {
                        if y % d == 0 {
                            lemma_divides_quotient(x as int, i as int, d);
                        }
                    }
                    assert forall|q: int| is_prime(q) && q > i && #[trigger] (mm % q) == 0 implies y
                        % q == 0 by {
                        lemma_small_mod(i as nat, q as nat);
                        lemma_euclid(q, i as int, y);
                    }
                    if y % 2 == 0 {
                        lemma_divides_quotient(x as int, i as int, 2);
                    }
                    assert(y * (i * k) == mm) by (nonlinear_arith)
                        requires
                            x * k == mm,
                            x == i * y,
                    ;
                    assert(y < x) by (nonlinear_arith)
                        requires
                            x == i * y,
                            i >= 3,
                            x >= 1,
                    ;
                    assert(y >= 1) by (nonlinear_arith)
                        requires
                            x == i * y,
                            i >= 3,
                            x >= 1,
                    ;
                }
                x /= i;
                proof {
                    assert(k * i >= 1) by (nonlinear_arith)
                        requires
                            k >= 1,
                            i >= 3,
                    ;
                    k = k * i;
                }
            }
        }
        proof {
            let ii = i as int;
            assert((x as int) % (ii + 1) != 0) by {
                if (x as int) % (ii + 1) == 0 {
                    lemma_divides_trans(x as int, ii + 1, 2);
                }
            }
            assert forall|q: int| is_prime(q) && 3 <= q < ii + 2 && #[trigger] (mm % q) == 0 implies exists|
                t: int,
            | 1 <= t < divs@.len() && divs@[t] == q by {
                if q == ii + 1 {
                    assert(q % 2 == 0);
                } else if q == ii {
                    if pushed {
                        assert(divs@[divs@.len() - 1] == q);
                    } else {
                        assert(x_before % q == 0);
                    }
                } else {
                    let t = choose|t: int| 1 <= t < divs_before.len() && divs_before[t] == q;
                    assert(divs@[t] == q);
                }
            }
            assert forall|q: int| is_prime(q) && q >= ii + 2 && #[trigger] (mm % q) == 0 implies (x as int) % q
                == 0 by {
            }
            assert(ii <= 0xb505) by (nonlinear_arith)
                requires
                    ii * ii <= x_before,
                    x_before < 0x8000_0000,
                    ii >= 0,
            ;
            assert((ii + 2) * (ii + 2) <= 0x7fff_ffff_ffff) by (nonlinear_arith)
                requires
                    ii <= 0xb505,
                    ii >= 0,
            ;
        }
        i += 2;
    }
    let ghost i_end = i as int;
    let ghost divs_mid = divs@;
    if x > 1 {
        proof {
            assert forall|d: int| 2 <= d < x implies #[trigger] ((x as int) % d) != 0 by {
                if (x as int) % d == 0 {
                    lemma_fundamental_div_mod(x as int, d);
                    let e = (x as int) / d;
                    assert(e >= 2) by (nonlinear_arith)
                        requires
                            x == d * e,
                            d < x,
                            d >= 2,
                    ;
                    assert((x as int) % e == 0) by {
                        lemma_fundamental_div_mod_converse(x as int, e, d, 0);
                    }
                    assert(d >= i_end);
                    assert(e >= i_end);
                    assert(x >= i_end * i_end) by (nonlinear_arith)
                        requires
                            x == d * e,
                            d >= i_end,
                            e >= i_end,
                            i_end >= 0,
                    ;
                }
            }
            assert(x as int % x as int == 0);
            assert(is_prime(x as int));
            lemma_fundamental_div_mod_converse(mm, x as int, k, 0);
            assert(mm % (x as int) == 0);
        }
        divs.push(x);
    }
    proof {
        assert forall|p: int| #[trigger] is_tested_factor(m as int, p) implies exists|t: int|
            0 <= t < divs@.len() && divs@[t] == p by {
            if p == 2 {
                assert(divs@[0] == 2);
            } else if p < i_end {
                assert(mm % p == 0);
                assert(p >= 3);
                let t = choose|t: int| 1 <= t < divs_mid.len() && divs_mid[t] == p;
                assert(divs@[t] == p);
            } else {
                assert(mm % p == 0);
                assert((x as int) % p == 0);
                if x <= 1 {
                    assert(x == 1);
                    lemma_small_mod(1, p as nat);
                }
                assert(p <= x) by {
                    if p > x {
                        lemma_small_mod(x as nat, p as nat);
                    }
                }
                if p < x {
                    assert((x as int) % p != 0);
                }
                assert(divs@[divs@.len() - 1] == p);
            }
        }
        assert forall|t: int| 0 <= t < divs@.len() implies 2 <= #[trigger] divs@[t] <= m - 1 && is_tested_factor(
            m as int,
            divs@[t] as int,
        ) by {
            if t > 0 {
                let p = divs@[t] as int;
                if t >= divs_mid.len() {
                    assert(p == x);
                } else {
                    assert(divs_mid[t] == p);
                }
                assert(is_prime(p) && mm % p == 0);
                if p > mm {
                    lemma_small_mod(mm as nat, p as nat);
                }
            }
        }
    }
    divs
}

/// The primitive root used for `m`: looked up for the moduli of the table, otherwise the least
/// `g >= 2` that passes the test against `2` and the odd prime factors of `m - 1`.
pub fn primitive_root(m: u32) -> (r: u32)
    requires
        2 <= m < 0x8000_0000,
        root_table(m as int) != 0 || exists|g: int| 2 <= g < m && passes_root_test(m as int, g),
    ensures
        root_table(m as int) != 0 ==> r == root_table(m as int),
        root_table(m as int) == 0 ==> is_least_root(m as int, r as int),
        r == root_of(m as int),
{
    match m {
        2 => 1,
        167_772_161 => 3,
        469_762_049 => 3,
        754_974_721 => 11,
        998_244_353 => 3,
        1_000_000_007 => 5,
        _ => {
            let divs = tested_factors(m);
            let cnt = divs.len();
            let mut g: u32 = 2;
            loop
                invariant
                    2 <= g < m,
                    3 <= m < 0x8000_0000,
                    root_table(m as int) == 0,
                    cnt == divs@.len(),
                    forall|k: int| 0 <= k < divs@.len() ==> #[trigger] is_tested_factor(m as int, divs@[k] as int),
                    forall|k: int| 0 <= k < divs@.len() ==> 2 <= #[trigger] divs@[k] <= m - 1,
                    forall|p: int| #[trigger] is_tested_factor(m as int, p) ==> exists|k: int|
                        0 <= k < divs@.len() && divs@[k] == p,
                    forall|h: int| 2 <= h < g ==> !passes_root_test(m as int, h),
                    exists|w: int| g <= w < m && passes_root_test(m as int, w),
                decreases m - g,
            {
                let mut ok = true;
                let mut i: usize = 0;
                while i < cnt
                    invariant
                        i <= cnt,
                        cnt == divs@.len(),
                        3 <= m < 0x8000_0000,
                        forall|k: int| 0 <= k < divs@.len() ==> #[trigger] is_tested_factor(m as int, divs@[k] as int),
                        forall|k: int| 0 <= k < divs@.len() ==> 2 <= #[trigger] divs@[k] <= m - 1,
                        ok ==> forall|t: int| 0 <= t < i ==> #[trigger] pow(
                            g as int,
                            ((m - 1) as int / divs@[t] as int) as nat,
                        ) % (m as int) != 1,
                        !ok ==> !passes_root_test(m as int, g as int),
                    ensures
                        ok ==> forall|t: int| 0 <= t < cnt ==> #[trigger] pow(
                            g as int,
                            ((m - 1) as int / divs@[t] as int) as nat,
                        ) % (m as int) != 1,
                        !ok ==> !passes_root_test(m as int, g as int),
                    decreases cnt - i,
                {
                    let e = (m - 1) / divs[i];
                    proof {
                        let p = divs@[i as int] as int;
                        assert(e >= 1) by {
                            vstd::arithmetic::div_mod::lemma_div_is_ordered(p, (m - 1) as int, p);
                            vstd::arithmetic::div_mod::lemma_div_by_self(p);
                        }
                    }
                    if pow_mod(g as u64, e as u64, m as u64) == 1 {
                        ok = false;
                        proof {
                            assert(is_tested_factor(m as int, divs@[i as int] as int));
                        }
                        break;
                    }
                    i += 1;
                }
                if ok {
                    proof {
                        assert forall|p: int| #[trigger] is_tested_factor(m as int, p) implies pow(
                            g as int,
                            ((m - 1) / p) as nat,
                        ) % (m as int) != 1 by {
                            let t = choose|t: int| 0 <= t < divs@.len() && divs@[t] == p;
                            assert(pow(g as int, ((m - 1) as int / divs@[t] as int) as nat) % (m as int) != 1);
                        }
                    }
                    proof {
                        assert(is_least_root(m as int, g as int));
                        let c = choose|c: int| is_least_root(m as int, c);
                        if c < g {
                            assert(!passes_root_test(m as int, c));
                        }
                        if g < c {
                            assert(!passes_root_test(m as int, g as int));
                        }
                    }
                    return g;
                }
                g += 1;
            }
        }
    }
}

/// `n` is a power of two.
pub open spec fn is_pow2(n: usize) -> bool {
    n > 0 && n & ((n - 1) as usize) == 0
}

/// The root `primitive_root` gives for `m`.
pub open spec fn root_of(m: int) -> int {
    if root_table(m) != 0 {
        root_table(m)
    } else {
        choose|g: int| is_least_root(m, g)
    }
}

/// `g` is the least `g >= 2` that passes the test of `m`.
pub open spec fn is_least_root(m: int, g: int) -> bool {
    2 <= g < m && passes_root_test(m, g) && forall|h: int| 2 <= h < g ==> !passes_root_test(m, h)
}

/// `m` is a modulus below `2^31` for which `primitive_root` finds a root, and that root is
/// invertible modulo `m` (as it is when `m` is prime).
pub open spec fn ntt_modulus(m: int) -> bool {
    &&& 2 <= m < 0x8000_0000
    &&& (root_table(m) != 0 || exists|g: int| 2 <= g < m && passes_root_test(m, g))
    &&& gcd(root_of(m) as nat, m as nat) == 1
}

/// A transform of length `n` is possible modulo `m`: `n` is a power of two dividing `m - 1`.
pub open spec fn ntt_length(m: int, n: int) -> bool {
    n <= 1 || (is_pow2(n as usize) && (m - 1) % n == 0)
}

/// All elements are valid residues.
pub open spec fn all_wf<const M: u32>(s: Seq<ModInt<M>>) -> bool {
    forall|i: int| 0 <= i < s.len() ==> #[trigger] s[i].wf()
}

/// The root of unity of order `n` that the transform of length `n` uses modulo `m`.
pub open spec fn ntt_root(m: int, n: int) -> int {
    pow(root_of(m), ((m - 1) / n) as nat) % m
}

/// `v` is the inverse of `g` modulo `m`, reduced.
pub open spec fn is_inverse_mod(g: int, v: int, m: int) -> bool {
    0 <= v < m && (g * v) % m == 1int % m
}

/// The inverse of the primitive root modulo `m`.
pub open spec fn root_inverse(m: int) -> int {
    choose|v: int| #[trigger] is_inverse_mod(root_of(m), v, m)
}

/// The root of unity the inverse transform of length `n` uses: the inverse of `ntt_root`.
pub open spec fn ntt_root_inv(m: int, n: int) -> int {
    pow(root_inverse(m), ((m - 1) / n) as nat) % m
}

/// `b^n mod m` by repeated squaring, in the form the prover evaluates.
pub open spec fn pow_mod_fast(b: int, n: nat, m: int) -> int
    decreases n,
{
    if n == 0 {
        1int % m
    } else {
        ((if n % 2 == 1 {
            b
        } else {
            1
        }) * pow_mod_fast((b * b) % m, n / 2, m)) % m
    }
}

proof fn lemma_pow_mod_fast(b: int, n: nat, m: int)
    requires
        m > 0,
    ensures
        pow_mod_fast(b, n, m) == pow(b, n) % m,
    decreases n,
{
    if n == 0 {
        lemma_pow0(b);
    } else {
        lemma_pow_mod_fast((b * b) % m, n / 2, m);
        lemma_pow_step(b, n, m);
    }
}

/// `3^83886080 ≡ -1 (mod 167772161)`, step by step.
proof fn lemma_euler_root_167772161()
    ensures
        pow_mod_fast(3, 83886080, 167772161) == 167772160,
{
    assert(pow_mod_fast(165175535, 0, 167772161) == 1);
    assert(pow_mod_fast(131266413, 1, 167772161) == 131266413);
    assert(pow_mod_fast(124765, 2, 167772161) == 131266413);
    assert(pow_mod_fast(128794553, 5, 167772161) == 167772160);
    assert(pow_mod_fast(154314873, 10, 167772161) == 167772160);
    assert(pow_mod_fast(147321604, 20, 167772161) == 167772160);
    assert(pow_mod_fast(95407373, 40, 167772161) == 167772160);
    assert(pow_mod_fast(73579452, 80, 167772161) == 167772160);
    assert(pow_mod_fast(114888901, 160, 167772161) == 167772160);
    assert(pow_mod_fast(62096608, 320, 167772161) == 167772160);
    assert(pow_mod_fast(28054988, 640, 167772161) == 167772160);
    assert(pow_mod_fast(54842545, 1280, 167772161) == 167772160);
    assert(pow_mod_fast(17612854, 2560, 167772161) == 167772160);
    assert(pow_mod_fast(28389775, 5120, 167772161) == 167772160);
    assert(pow_mod_fast(70457337, 10240, 167772161) == 167772160);
    assert(pow_mod_fast(46355356, 20480, 167772161) == 167772160);
    assert(pow_mod_fast(116327488, 40960, 167772161) == 167772160);
    assert(pow_mod_fast(21058128, 81920, 167772161) == 167772160);
    assert(pow_mod_fast(60059263, 163840, 167772161) == 167772160);
    assert(pow_mod_fast(138869079, 327680, 167772161) == 167772160);
    assert(pow_mod_fast(88024218, 655360, 167772161) == 167772160);
    assert(pow_mod_fast(113277884, 1310720, 167772161) == 167772160);
    assert(pow_mod_fast(158709381, 2621440, 167772161) == 167772160);
    assert(pow_mod_fast(43046721, 5242880, 167772161) == 167772160);
    assert(pow_mod_fast(6561, 10485760, 167772161) == 167772160);
    assert(pow_mod_fast(81, 20971520, 167772161) == 167772160);
    assert(pow_mod_fast(9, 41943040, 167772161) == 167772160);
    assert(pow_mod_fast(3, 83886080, 167772161) == 167772160);
}

/// `3^234881024 ≡ -1 (mod 469762049)`, step by step.
proof fn lemma_euler_root_469762049()
    ensures
        pow_mod_fast(3, 234881024, 469762049) == 469762048,
{
    assert(pow_mod_fast(42566872, 0, 469762049) == 1);
    assert(pow_mod_fast(59920349, 1, 469762049) == 59920349);
    assert(pow_mod_fast(132422475, 3, 469762049) == 353007581);
    assert(pow_mod_fast(427195177, 7, 469762049) == 469762048);
    assert(pow_mod_fast(437279217, 14, 469762049) == 469762048);
    assert(pow_mod_fast(6900502, 28, 469762049) == 469762048);
    assert(pow_mod_fast(304552728, 56, 469762049) == 469762048);
    assert(pow_mod_fast(81125136, 112, 469762049) == 469762048);
    assert(pow_mod_fast(363926210, 224, 469762049) == 469762048);
    assert(pow_mod_fast(389773744, 448, 469762049) == 469762048);
    assert(pow_mod_fast(465408120, 896, 469762049) == 469762048);
    assert(pow_mod_fast(294502742, 1792, 469762049) == 469762048);
    assert(pow_mod_fast(24376670, 3584, 469762049) == 469762048);
    assert(pow_mod_fast(261148353, 7168, 469762049) == 469762048);
    assert(pow_mod_fast(153328329, 14336, 469762049) == 469762048);
    assert(pow_mod_fast(290385250, 28672, 469762049) == 469762048);
    assert(pow_mod_fast(95650243, 57344, 469762049) == 469762048);
    assert(pow_mod_fast(123888162, 114688, 469762049) == 469762048);
    assert(pow_mod_fast(263047000, 229376, 469762049) == 469762048);
    assert(pow_mod_fast(251317614, 458752, 469762049) == 469762048);
    assert(pow_mod_fast(324670755, 917504, 469762049) == 469762048);
    assert(pow_mod_fast(68624915, 1835008, 469762049) == 469762048);
    assert(pow_mod_fast(189125084, 3670016, 469762049) == 469762048);
    assert(pow_mod_fast(98700784, 7340032, 469762049) == 469762048);
    assert(pow_mod_fast(43046721, 14680064, 469762049) == 469762048);
    assert(pow_mod_fast(6561, 29360128, 469762049) == 469762048);
    assert(pow_mod_fast(81, 58720256, 469762049) == 469762048);
    assert(pow_mod_fast(9, 117440512, 469762049) == 469762048);
    assert(pow_mod_fast(3, 234881024, 469762049) == 469762048);
}

/// `11^377487360 ≡ -1 (mod 754974721)`, step by step.
proof fn lemma_euler_root_754974721()
    ensures
        pow_mod_fast(11, 377487360, 754974721) == 754974720,
{
    assert(pow_mod_fast(529221194, 0, 754974721) == 1);
    assert(pow_mod_fast(42327752, 1, 754974721) == 42327752);
    assert(pow_mod_fast(301896241, 2, 754974721) == 42327752);
    assert(pow_mod_fast(1495758, 5, 754974721) == 648547677);
    assert(pow_mod_fast(750374756, 11, 754974721) == 339519894);
    assert(pow_mod_fast(327840531, 22, 754974721) == 339519894);
    assert(pow_mod_fast(490647304, 45, 754974721) == 754974720);
    assert(pow_mod_fast(112066377, 90, 754974721) == 754974720);
    assert(pow_mod_fast(48233117, 180, 754974721) == 754974720);
    assert(pow_mod_fast(441141367, 360, 754974721) == 754974720);
    assert(pow_mod_fast(265580659, 720, 754974721) == 754974720);
    assert(pow_mod_fast(54552675, 1440, 754974721) == 754974720);
    assert(pow_mod_fast(707169078, 2880, 754974721) == 754974720);
    assert(pow_mod_fast(492274564, 5760, 754974721) == 754974720);
    assert(pow_mod_fast(428790113, 11520, 754974721) == 754974720);
    assert(pow_mod_fast(476248998, 23040, 754974721) == 754974720);
    assert(pow_mod_fast(634985353, 46080, 754974721) == 754974720);
    assert(pow_mod_fast(729689838, 92160, 754974721) == 754974720);
    assert(pow_mod_fast(361443749, 184320, 754974721) == 754974720);
    assert(pow_mod_fast(144869828, 368640, 754974721) == 754974720);
    assert(pow_mod_fast(110130744, 737280, 754974721) == 754974720);
    assert(pow_mod_fast(52722080, 1474560, 754974721) == 754974720);
    assert(pow_mod_fast(423999042, 2949120, 754974721) == 754974720);
    assert(pow_mod_fast(397288755, 5898240, 754974721) == 754974720);
    assert(pow_mod_fast(154966361, 11796480, 754974721) == 754974720);
    assert(pow_mod_fast(124414514, 23592960, 754974721) == 754974720);
    assert(pow_mod_fast(214358881, 47185920, 754974721) == 754974720);
    assert(pow_mod_fast(14641, 94371840, 754974721) == 754974720);
    assert(pow_mod_fast(121, 188743680, 754974721) == 754974720);
    assert(pow_mod_fast(11, 377487360, 754974721) == 754974720);
}

/// `3^499122176 ≡ -1 (mod 998244353)`, step by step.
proof fn lemma_euler_root_998244353()
    ensures
        pow_mod_fast(3, 499122176, 998244353) == 998244352,
{
    assert(pow_mod_fast(301496519, 0, 998244353) == 1);
    assert(pow_mod_fast(155543970, 1, 998244353) == 155543970);
    assert(pow_mod_fast(122371506, 3, 998244353) == 876747195);
    assert(pow_mod_fast(626269029, 7, 998244353) == 870177108);
    assert(pow_mod_fast(955499538, 14, 998244353) == 870177108);
    assert(pow_mod_fast(289156217, 29, 998244353) == 434112692);
    assert(pow_mod_fast(470355006, 59, 998244353) == 751659788);
    assert(pow_mod_fast(619426492, 119, 998244353) == 998244352);
    assert(pow_mod_fast(938296341, 238, 998244353) == 998244352);
    assert(pow_mod_fast(877908352, 476, 998244353) == 998244352);
    assert(pow_mod_fast(281849776, 952, 998244353) == 998244352);
    assert(pow_mod_fast(793151451, 1904, 998244353) == 998244352);
    assert(pow_mod_fast(947794670, 3808, 998244353) == 998244352);
    assert(pow_mod_fast(84695472, 7616, 998244353) == 998244352);
    assert(pow_mod_fast(192671909, 15232, 998244353) == 998244352);
    assert(pow_mod_fast(647441648, 30464, 998244353) == 998244352);
    assert(pow_mod_fast(940746568, 60928, 998244353) == 998244352);
    assert(pow_mod_fast(91020609, 121856, 998244353) == 998244352);
    assert(pow_mod_fast(261390798, 243712, 998244353) == 998244352);
    assert(pow_mod_fast(572051583, 487424, 998244353) == 998244352);
    assert(pow_mod_fast(763602687, 974848, 998244353) == 998244352);
    assert(pow_mod_fast(272705337, 1949696, 998244353) == 998244352);
    assert(pow_mod_fast(903365803, 3899392, 998244353) == 998244352);
    assert(pow_mod_fast(910876023, 7798784, 998244353) == 998244352);
    assert(pow_mod_fast(159509354, 15597568, 998244353) == 998244352);
    assert(pow_mod_fast(43046721, 31195136, 998244353) == 998244352);
    assert(pow_mod_fast(6561, 62390272, 998244353) == 998244352);
    assert(pow_mod_fast(81, 124780544, 998244353) == 998244352);
    assert(pow_mod_fast(9, 249561088, 998244353) == 998244352);
    assert(pow_mod_fast(3, 499122176, 998244353) == 998244352);
}

/// `5^500000003 ≡ -1 (mod 1000000007)`, step by step.
proof fn lemma_euler_root_1000000007()
    ensures
        pow_mod_fast(5, 500000003, 1000000007) == 1000000006,
{
    assert(pow_mod_fast(879876645, 0, 1000000007) == 1);
    assert(pow_mod_fast(964922751, 1, 1000000007) == 964922751);
    assert(pow_mod_fast(313728578, 3, 1000000007) == 432011198);
    assert(pow_mod_fast(51385147, 7, 1000000007) == 759483400);
    assert(pow_mod_fast(577494912, 14, 1000000007) == 759483400);
    assert(pow_mod_fast(282452398, 29, 1000000007) == 69567858);
    assert(pow_mod_fast(445167002, 59, 1000000007) == 564636518);
    assert(pow_mod_fast(43665392, 119, 1000000007) == 723399538);
    assert(pow_mod_fast(820077145, 238, 1000000007) == 723399538);
    assert(pow_mod_fast(11444161, 476, 1000000007) == 723399538);
    assert(pow_mod_fast(344549198, 953, 1000000007) == 906743428);
    assert(pow_mod_fast(701017735, 1907, 1000000007) == 673193047);
    assert(pow_mod_fast(305826865, 3814, 1000000007) == 673193047);
    assert(pow_mod_fast(72839504, 7629, 1000000007) == 296483359);
    assert(pow_mod_fast(65517632, 15258, 1000000007) == 296483359);
    assert(pow_mod_fast(177845459, 30517, 1000000007) == 698119255);
    assert(pow_mod_fast(197310381, 61035, 1000000007) == 223262930);
    assert(pow_mod_fast(421806954, 122070, 1000000007) == 223262930);
    assert(pow_mod_fast(834775234, 244140, 1000000007) == 223262930);
    assert(pow_mod_fast(607690879, 488281, 1000000007) == 230091555);
    assert(pow_mod_fast(154695804, 976562, 1000000007) == 230091555);
    assert(pow_mod_fast(353020617, 1953125, 1000000007) == 144000001);
    assert(pow_mod_fast(545839082, 3906250, 1000000007) == 144000001);
    assert(pow_mod_fast(171376783, 7812500, 1000000007) == 144000001);
    assert(pow_mod_fast(513473790, 15625000, 1000000007) == 144000001);
    assert(pow_mod_fast(587889561, 31250000, 1000000007) == 144000001);
    assert(pow_mod_fast(390625, 62500000, 1000000007) == 144000001);
    assert(pow_mod_fast(625, 125000000, 1000000007) == 144000001);
    assert(pow_mod_fast(25, 250000001, 1000000007) == 600000004);
    assert(pow_mod_fast(5, 500000003, 1000000007) == 1000000006);
}

/// The roots of the table fail Euler's criterion: `g^((m-1)/2) ≡ -1`.
proof fn lemma_table_roots_half_turn(m: int)
    requires
        root_table(m) != 0,
        m != 2,
    ensures
        pow(root_table(m), ((m - 1) / 2) as nat) % m == m - 1,
{
    let g = root_table(m);
    lemma_pow_mod_fast(g, ((m - 1) / 2) as nat, m);
    if m == 167772161 {
        lemma_euler_root_167772161();
    } else if m == 469762049 {
        lemma_euler_root_469762049();
    } else if m == 754974721 {
        lemma_euler_root_754974721();
    } else if m == 998244353 {
        lemma_euler_root_998244353();
    } else if m == 1000000007 {
        lemma_euler_root_1000000007();
    }
}

/// The NTT moduli `998244353 = 119 * 2^23 + 1`, `167772161 = 5 * 2^25 + 1`,
/// `469762049 = 7 * 2^26 + 1` and `754974721 = 45 * 2^24 + 1` are prime (Proth's theorem, with
/// their primitive roots as witnesses).
pub proof fn lemma_ntt_primes()
    ensures
        is_prime(998_244_353),
        is_prime(167_772_161),
        is_prime(469_762_049),
        is_prime(754_974_721),
{
    vstd::arithmetic::power2::lemma2_to64();
    lemma_euler_root_998244353();
    lemma_pow_mod_fast(3, 499122176, 998_244_353);
    crate::residue::lemma_proth(998_244_353, 119, 23, 3);
    lemma_euler_root_167772161();
    lemma_pow_mod_fast(3, 83886080, 167_772_161);
    crate::residue::lemma_proth(167_772_161, 5, 25, 3);
    lemma_euler_root_469762049();
    lemma_pow_mod_fast(3, 234881024, 469_762_049);
    crate::residue::lemma_proth(469_762_049, 7, 26, 3);
    lemma_euler_root_754974721();
    lemma_pow_mod_fast(11, 377487360, 754_974_721);
    crate::residue::lemma_proth(754_974_721, 45, 24, 11);
}

/// Among `g0 .. m` some `g` passes the test and none below `g0` does: a least one exists.
proof fn lemma_least_root_exists(m: int, g0: int)
    requires
        2 <= g0,
        exists|g: int| g0 <= g < m && passes_root_test(m, g),
        forall|h: int| 2 <= h < g0 ==> !passes_root_test(m, h),
    ensures
        exists|g: int| is_least_root(m, g),
    decreases m - g0,
{
    if passes_root_test(m, g0) {
        let w = choose|g: int| g0 <= g < m && passes_root_test(m, g);
        assert(is_least_root(m, g0));
    } else {
        let w = choose|g: int| g0 <= g < m && passes_root_test(m, g);
        assert(g0 + 1 <= w);
        lemma_least_root_exists(m, g0 + 1);
    }
}

/// For a prime modulus, the roots of unity of both transforms have the half turn at every
/// allowed length: `w^(n/2) ≡ -1`.
pub proof fn lemma_ntt_root_half_turn(m: int, n: int)
    requires
        is_prime(m),
        ntt_modulus(m),
        ntt_length(m, n),
        n >= 1,
    ensures
        half_turn(ntt_root(m, n), n as nat, m),
        half_turn(ntt_root_inv(m, n), n as nat, m),
        n >= 2 ==> m > 2 && (ntt_root(m, n) * ntt_root_inv(m, n)) % m == 1,
{
    if n >= 2 {
        if n > m - 1 {
            lemma_small_mod((m - 1) as nat, n as nat);
        }
        let nu = n as usize;
        assert(nu == n);
        assert(nu % 2 == 0) by (bit_vector)
            requires
                nu >= 2,
                nu & ((nu - 1) as usize) == 0,
        ;
        let g = root_of(m);
        let e = (m - 1) / n;
        let h = (m - 1) / 2;
        lemma_fundamental_div_mod(m - 1, n);
        assert(e * (n / 2) == h) by (nonlinear_arith)
            requires
                m - 1 == n * e,
                n % 2 == 0,
                h == (m - 1) / 2,
        ;
        assert(m % 2 != 0);
        // g^h ≡ -1
        if root_table(m) != 0 {
            lemma_table_roots_half_turn(m);
        } else {
            lemma_least_root_exists(m, 2);
            let c = choose|c: int| is_least_root(m, c);
            assert(is_tested_factor(m, 2));
            let x = pow(g, h as nat) % m;
            lemma_mod_bound(pow(g, h as nat), m);
            vstd::arithmetic::power::lemma_pow_adds(g, h as nat, h as nat);
            vstd::arithmetic::div_mod::lemma_mul_mod_noop(pow(g, h as nat), pow(g, h as nat), m);
            lemma_small_mod(g as nat, m as nat);
            crate::fermat::lemma_fermat(g as nat, m);
            crate::residue::lemma_sqrt_of_one(m, x);
        }
        assert(pow(g, h as nat) % m == m - 1);
        // the forward root
        lemma_pow_mod_noop(pow(g, e as nat), (n / 2) as nat, m);
        vstd::arithmetic::power::lemma_pow_multiplies(g, e as nat, (n / 2) as nat);
        // an inverse of g exists (g^(m-2)), so root_inverse is one
        let gi = pow(g, (m - 2) as nat) % m;
        assert(is_inverse_mod(g, gi, m)) by {
            lemma_mod_bound(pow(g, (m - 2) as nat), m);
            lemma_mul_mod_noop_right(g, pow(g, (m - 2) as nat), m);
            vstd::arithmetic::power::lemma_pow_adds(g, 1, (m - 2) as nat);
            vstd::arithmetic::power::lemma_pow1(g);
            lemma_small_mod(1, m as nat);
            if root_table(m) == 0 {
                let c = choose|c: int| is_least_root(m, c);
            }
            lemma_small_mod(g as nat, m as nat);
            crate::fermat::lemma_fermat(g as nat, m);
        }
        let u = root_inverse(m);
        // u^h ≡ -1: (g u)^h ≡ 1 and g^h ≡ -1
        let y = pow(u, h as nat) % m;
        lemma_mod_bound(pow(u, h as nat), m);
        vstd::arithmetic::power::lemma_pow_distributes(g, u, h as nat);
        lemma_pow_mod_noop(g * u, h as nat, m);
        vstd::arithmetic::power::lemma1_pow(h as nat);
        lemma_small_mod(1, m as nat);
        assert(pow(g * u, h as nat) % m == 1);
        lemma_small_mod((m - 1) as nat, m as nat);
        vstd::arithmetic::div_mod::lemma_mod_twice(pow(u, h as nat), m);
        assert((-1) % m == m - 1) by {
            vstd::arithmetic::div_mod::lemma_fundamental_div_mod_converse(-1, m, -1, m - 1);
        }
        crate::dft::lemma_cong_mul(pow(g, h as nat), pow(u, h as nat), m - 1, y, m);
        crate::dft::lemma_cong_mul(m - 1, y, -1, y, m);
        assert((-1) * y == -y);
        // -y ≡ 1 with 0 <= y < m, so y == m - 1
        if y == 0 {
            lemma_small_mod(0, m as nat);
        } else {
            assert((-y) % m == m - y) by {
                vstd::arithmetic::div_mod::lemma_fundamental_div_mod_converse(-y, m, -1, m - y);
            }
        }
        lemma_pow_mod_noop(pow(u, e as nat), (n / 2) as nat, m);
        vstd::arithmetic::power::lemma_pow_multiplies(u, e as nat, (n / 2) as nat);
        // the two roots are inverse to each other: (g u)^e ≡ 1
        let pg = pow(g, e as nat);
        let pu = pow(u, e as nat);
        vstd::arithmetic::div_mod::lemma_mod_twice(pg, m);
        vstd::arithmetic::div_mod::lemma_mod_twice(pu, m);
        crate::dft::lemma_cong_mul(pg % m, pu % m, pg, pu, m);
        vstd::arithmetic::power::lemma_pow_distributes(g, u, e as nat);
        crate::dft::lemma_pow_of_one(g * u, e as nat, m);
    }
}

/// The transform at `w` by radix-2 recursion on the even and odd degrees: entry `k` is the
/// value of `a` at `w^k`, when `w` has a half turn at the length.
fn fft<const M: u32>(a: Vec<ModInt<M>>, w: ModInt<M>) -> (r: Vec<ModInt<M>>)
    requires
        2 <= M < 0x8000_0000,
        a@.len() >= 1,
        is_pow2(a@.len() as usize),
        all_wf(a@),
        w.wf(),
    ensures
        r@.len() == a@.len(),
        all_wf(r@),
        half_turn(w@, a@.len(), M as int) ==> forall|k: int|
            0 <= k < a@.len() ==> #[trigger] r@[k]@ == eval(residues(a@), pow(w@, k as nat)) % (M as int),
    decreases a@.len(),
{
    let n = a.len();
    let ghost s = residues(a@);
    let ghost m = M as int;
    if n == 1 {
        proof {
            assert(s.drop_first().len() == 0);
            assert forall|k: int| 0 <= k < 1 implies #[trigger] a@[k]@ == eval(s, pow(w@, k as nat)) % m by {
                assert(eval(s.drop_first(), pow(w@, k as nat)) == 0);
                assert(a@[0].wf());
                lemma_small_mod(a@[0]@ as nat, M as nat);
            }
        }
        return a;
    }
    let half = n / 2;
    proof {
        assert(n == 2 * half && is_pow2(half) && (half == 1 || half % 2 == 0)) by (bit_vector)
            requires
                n >= 2,
                n & ((n - 1) as usize) == 0,
                half == n / 2,
        ;
    }
    let mut e: Vec<ModInt<M>> = Vec::new();
    let mut o: Vec<ModInt<M>> = Vec::new();
    let mut i: usize = 0;
    while i < half
        invariant
            n == a@.len(),
            half == n / 2,
            n == 2 * half,
            i <= half,
            e@.len() == i,
            o@.len() == i,
            forall|t: int| 0 <= t < i ==> #[trigger] e@[t] == a@[2 * t],
            forall|t: int| 0 <= t < i ==> #[trigger] o@[t] == a@[2 * t + 1],
        decreases half - i,
    {
        e.push(a[2 * i]);
        o.push(a[2 * i + 1]);
        i += 1;
    }
    proof {
        assert(residues(e@) =~= evens(s));
        assert(residues(o@) =~= odds(s));
        assert forall|t: int| 0 <= t < half implies #[trigger] e@[t].wf() && o@[t].wf() by {
            assert(a@[2 * t].wf());
            assert(a@[2 * t + 1].wf());
        }
        ModInt::<M>::lemma_ops(w, w);
        if half_turn(w@, n as nat, m) {
            lemma_half_turn_square(w@, n as nat, m);
        }
    }
    let w2 = w * w;
    let fe = fft(e, w2);
    let fo = fft(o, w2);
    let mut r: Vec<ModInt<M>> = vec![ModInt::raw(0); n];
    let mut wk = ModInt::<M>::new(1u32);
    proof {
        lemma_pow0(w@);
        lemma_small_mod(1, M as nat);
    }
    let mut k: usize = 0;
    while k < half
        invariant
            2 <= M < 0x8000_0000,
            m == M as int,
            n == a@.len(),
            s == residues(a@),
            half == n / 2,
            n == 2 * half,
            k <= half,
            r@.len() == n,
            all_wf(r@),
            fe@.len() == half,
            fo@.len() == half,
            all_wf(fe@),
            all_wf(fo@),
            w.wf(),
            wk.wf(),
            wk@ == pow(w@, k as nat) % m,
            w2@ == (w@ * w@) % m,
            half_turn(w@, n as nat, m) ==> forall|t: int|
                0 <= t < half ==> #[trigger] fe@[t]@ == eval(evens(s), pow(w2@, t as nat)) % m,
            half_turn(w@, n as nat, m) ==> forall|t: int|
                0 <= t < half ==> #[trigger] fo@[t]@ == eval(odds(s), pow(w2@, t as nat)) % m,
            half_turn(w@, n as nat, m) ==> forall|t: int|
                0 <= t < k ==> #[trigger] r@[t]@ == eval(s, pow(w@, t as nat)) % m,
            half_turn(w@, n as nat, m) ==> forall|t: int|
                half <= t < half + k ==> #[trigger] r@[t]@ == eval(s, pow(w@, t as nat)) % m,
        decreases half - k,
    {
        let x = fe[k];
        let y0 = fo[k];
        proof {
            assert(fe@[k as int].wf());
            assert(fo@[k as int].wf());
            ModInt::<M>::lemma_ops(y0, wk);
        }
        let y = y0 * wk;
        proof {
            ModInt::<M>::lemma_ops(x, y);
        }
        r.set(k, x + y);
        r.set(k + half, x - y);
        proof {
            if half_turn(w@, n as nat, m) {
                lemma_butterfly(s, m, w@, n as nat, k as nat, x@, y0@, wk@);
                assert((k + half) as nat == k as nat + (n as nat) / 2);
            }
            ModInt::<M>::lemma_ops(wk, w);
            lemma_pow_adds(w@, k as nat, 1);
            vstd::arithmetic::power::lemma_pow1(w@);
            lemma_mul_mod_noop_left(pow(w@, k as nat), w@, m);
        }
        wk = wk * w;
        k += 1;
    }
    r
}

/// The number-theoretic transform in place (`intt` undoes it, `1/n` included); the length is a
/// power of two dividing `M - 1`.  The forward transform evaluates at the powers of
/// `ntt_root`, the inverse one at those of `ntt_root_inv` and divides by the length.
fn transform<const M: u32>(a: &mut [ModInt<M>], inverse: bool)
    requires
        ntt_modulus(M as int),
        ntt_length(M as int, old(a)@.len() as int),
        all_wf(old(a)@),
    ensures
        final(a)@.len() == old(a)@.len(),
        all_wf(final(a)@),
        !inverse && half_turn(ntt_root(M as int, old(a)@.len() as int), old(a)@.len(), M as int)
            ==> forall|k: int| 0 <= k < old(a)@.len() ==> #[trigger] final(a)@[k]@ == eval(
                residues(old(a)@),
                pow(ntt_root(M as int, old(a)@.len() as int), k as nat),
            ) % (M as int),
        inverse && half_turn(ntt_root_inv(M as int, old(a)@.len() as int), old(a)@.len(), M as int)
            ==> forall|k: int| 0 <= k < old(a)@.len() ==> #[trigger] ((old(a)@.len() * final(a)@[k]@) % (M as int))
                == eval(residues(old(a)@), pow(ntt_root_inv(M as int, old(a)@.len() as int), k as nat)) % (M as int),
{
    let n = a.len();
    let ghost m = M as int;
    let ghost s = residues(a@);
    if n <= 1 {
        proof {
            if n == 1 {
                assert(s.drop_first().len() == 0);
                assert forall|k: int| 0 <= k < 1 implies #[trigger] a@[k]@ == eval(s, pow(ntt_root(m, 1), k as nat)) % m
                    && ((1 * a@[k]@) % m) == eval(s, pow(ntt_root_inv(m, 1), k as nat)) % m by {
                    assert(eval(s.drop_first(), pow(ntt_root(m, 1), k as nat)) == 0);
                    assert(eval(s.drop_first(), pow(ntt_root_inv(m, 1), k as nat)) == 0);
                    assert(a@[0].wf());
                    lemma_small_mod(a@[0]@ as nat, M as nat);
                }
            }
        }
        return;
    }
    proof {
        if n > M - 1 {
            vstd::arithmetic::div_mod::lemma_small_mod((M - 1) as nat, n as nat);
        }
    }
    let pr = primitive_root(M);
    proof {
        if root_table(M as int) != 0 {
            assert(pr < M);
        }
    }
    let g = ModInt::<M>::new(pr);
    proof {
        vstd::arithmetic::div_mod::lemma_small_mod(pr as nat, M as nat);
    }
    let g = if inverse {
        let gi = g.inv();
        proof {
            assert(is_inverse_mod(root_of(m), gi@, m));
            lemma_inverse_unique(m, root_of(m), gi@, root_inverse(m));
        }
        gi
    } else {
        g
    };
    let w = g.pow(((M - 1) / n as u32) as u64);
    proof {
        assert(n as u32 == n);
        if inverse {
            assert(w@ == ntt_root_inv(m, n as int));
        } else {
            assert(w@ == ntt_root(m, n as int));
        }
    }
    let mut v: Vec<ModInt<M>> = Vec::new();
    let mut i: usize = 0;
    while i < n
        invariant
            n == a@.len(),
            i <= n,
            v@ == a@.subrange(0, i as int),
        decreases n - i,
    {
        v.push(a[i]);
        i += 1;
    }
    proof {
        assert(v@ =~= a@);
    }
    let r = fft(v, w);
    let mut n_inv = ModInt::<M>::new(1u32);
    if inverse {
        let nm = ModInt::<M>::new(n as u32);
        proof {
            vstd::arithmetic::div_mod::lemma_small_mod(n as nat, M as nat);
            lemma_divisor_of_pred_coprime(n as int, M as int);
        }
        n_inv = nm.inv();
    }
    let ghost a0 = a@;
    let mut j: usize = 0;
    while j < n
        invariant
            n == a@.len(),
            a0 == old(a)@,
            s == residues(a0),
            r@.len() == n,
            all_wf(r@),
            j <= n,
            n_inv.wf(),
            m == M as int,
            2 <= M < 0x8000_0000,
            inverse ==> (n * n_inv@) % m == 1int % m,
            all_wf(a@),
            forall|t: int| 0 <= t < j ==> #[trigger] a@[t]@ == if inverse {
                (r@[t]@ * n_inv@) % m
            } else {
                r@[t]@
            },
        decreases n - j,
    {
        let x = r[j];
        proof {
            assert(r@[j as int].wf());
            ModInt::<M>::lemma_ops(x, n_inv);
        }
        if inverse {
            a[j] = x * n_inv;
        } else {
            a[j] = x;
        }
        j += 1;
    }
    proof {
        if inverse {
            assert forall|k: int| 0 <= k < n implies #[trigger] ((n * a@[k]@) % m) == r@[k]@ by {
                let y = r@[k]@;
                assert(r@[k].wf());
                // n (y ninv mod m) ≡ y (n ninv) ≡ y
                vstd::arithmetic::div_mod::lemma_mul_mod_noop_right(n as int, y * n_inv@, m);
                assert((n as int) * (y * n_inv@) == y * ((n as int) * n_inv@)) by (nonlinear_arith);
                vstd::arithmetic::div_mod::lemma_mul_mod_noop_right(y, (n as int) * n_inv@, m);
                vstd::arithmetic::div_mod::lemma_mul_mod_noop_right(y, 1, m);
                lemma_small_mod(y as nat, M as nat);
            }
        }
    }
}

/// `t` is the transform of `a`: entry `k` is the value of `a` at `w^k`, `w = ntt_root(M, n)`.
pub open spec fn is_transform<const M: u32>(a: Seq<ModInt<M>>, t: Seq<ModInt<M>>) -> bool {
    &&& t.len() == a.len()
    &&& forall|k: int|
        0 <= k < a.len() ==> #[trigger] t[k]@ == eval(residues(a), pow(ntt_root(M as int, a.len() as int), k as nat))
            % (M as int)
}

/// `t` is the inverse transform of `a`: `n` times entry `k` is the value of `a` at `u^k`,
/// `u = ntt_root_inv(M, n)` the inverse of the forward root.
pub open spec fn is_inverse_transform<const M: u32>(a: Seq<ModInt<M>>, t: Seq<ModInt<M>>) -> bool {
    &&& t.len() == a.len()
    &&& forall|k: int|
        0 <= k < a.len() ==> #[trigger] ((a.len() * t[k]@) % (M as int)) == eval(
            residues(a),
            pow(ntt_root_inv(M as int, a.len() as int), k as nat),
        ) % (M as int)
}

/// The number-theoretic transform of `a` in place; for a prime modulus entry `k` becomes the
/// value of `a` at `w^k`, `w = ntt_root(M, n)` a root of unity of order `n`.
pub fn ntt<const M: u32>(a: &mut [ModInt<M>])
    requires
        ntt_modulus(M as int),
        ntt_length(M as int, old(a)@.len() as int),
        all_wf(old(a)@),
    ensures
        final(a)@.len() == old(a)@.len(),
        all_wf(final(a)@),
        is_prime(M as int) ==> is_transform(old(a)@, final(a)@),
{
    proof {
        if is_prime(M as int) && old(a)@.len() >= 1 {
            lemma_ntt_root_half_turn(M as int, old(a)@.len() as int);
        }
    }
    transform(a, false);
}

/// The inverse transform of `a` in place, `1/n` included; for a prime modulus `n` times entry
/// `k` becomes the value of `a` at `u^k`, `u = ntt_root_inv(M, n)`.
pub fn intt<const M: u32>(a: &mut [ModInt<M>])
    requires
        ntt_modulus(M as int),
        ntt_length(M as int, old(a)@.len() as int),
        all_wf(old(a)@),
    ensures
        final(a)@.len() == old(a)@.len(),
        all_wf(final(a)@),
        is_prime(M as int) ==> is_inverse_transform(old(a)@, final(a)@),
{
    proof {
        if is_prime(M as int) && old(a)@.len() >= 1 {
            lemma_ntt_root_half_turn(M as int, old(a)@.len() as int);
        }
    }
    transform(a, true);
}

/// The inverse transform undoes the transform: for a prime modulus, `intt(ntt(a)) == a`.
pub proof fn lemma_intt_undoes_ntt<const M: u32>(a: Seq<ModInt<M>>, t: Seq<ModInt<M>>, r: Seq<ModInt<M>>)
    requires
        is_prime(M as int),
        ntt_modulus(M as int),
        ntt_length(M as int, a.len() as int),
        all_wf(a),
        all_wf(r),
        is_transform(a, t),
        is_inverse_transform(t, r),
    ensures
        r == a,
{
    let n = a.len() as int;
    let m = M as int;
    if n == 0 {
        assert(r =~= a);
        return;
    }
    lemma_ntt_root_half_turn(m, n);
    let w = ntt_root(m, n);
    let u = ntt_root_inv(m, n);
    let sa = residues(a);
    let st = residues(t);
    if n == 1 {
        assert(sa.drop_first().len() == 0);
        assert(st.drop_first().len() == 0);
        assert(eval(sa.drop_first(), pow(w, 0)) == 0);
        assert(eval(st.drop_first(), pow(u, 0)) == 0);
        assert(eval(sa, pow(w, 0)) == sa[0]);
        assert(eval(st, pow(u, 0)) == st[0]);
        assert(a[0].wf());
        assert(t[0].wf());
        assert(r[0].wf());
        assert(t[0]@ == sa[0] % m);
        lemma_small_mod(a[0]@ as nat, m as nat);
        lemma_small_mod(r[0]@ as nat, m as nat);
        lemma_small_mod(t[0]@ as nat, m as nat);
        assert((1 * r[0]@) % m == st[0] % m);
        assert(r[0]@ == a[0]@);
        ModInt::<M>::lemma_view_eq(r[0], a[0]);
        assert(r =~= a);
        return;
    }
    if n > m - 1 {
        lemma_small_mod((m - 1) as nat, n as nat);
    }
    lemma_pow2_len(n as usize);
    assert forall|k: int| 0 <= k < n implies #[trigger] st[k] % m == eval(sa, pow(w, k as nat)) % m by {
        vstd::arithmetic::div_mod::lemma_mod_twice(eval(sa, pow(w, k as nat)), m);
    }
    assert forall|l: int| 0 <= l < n implies #[trigger] r[l] == a[l] by {
        lemma_inversion(sa, st, w, u, n, m, l);
        assert(coeff(sa, l) == a[l]@);
        // n r_l ≡ n a_l, n a unit, both reduced: r_l == a_l
        let x = r[l]@;
        let y = a[l]@;
        assert(r[l].wf());
        assert(a[l].wf());
        let d = (x - y) % m;
        vstd::arithmetic::div_mod::lemma_mod_bound(x - y, m);
        crate::dft::lemma_cong_sub(n * x, n * y, n * x, n * y, m);
        assert(n * x - n * y == n * (x - y)) by (nonlinear_arith);
        vstd::arithmetic::div_mod::lemma_mod_twice(x - y, m);
        lemma_small_mod(n as nat, m as nat);
        crate::dft::lemma_cong_mul(n, x - y, n, d, m);
        vstd::arithmetic::div_mod::lemma_sub_mod_noop(n * x, n * y, m);
        lemma_small_mod(0, m as nat);
        lemma_euclid(m, n, d);
        lemma_small_mod(d as nat, m as nat);
        crate::dft::lemma_cong_add(x - y, y, 0, y, m);
        lemma_small_mod(x as nat, m as nat);
        lemma_small_mod(y as nat, m as nat);
        ModInt::<M>::lemma_view_eq(r[l], a[l]);
    }
    assert(r =~= a);
}

/// `sum_{i' < i, 0 <= k - i' < b.len()} a[i'] * b[k - i']`: the part of the `k`-th coefficient
/// of the product of `a` and `b` that uses `a[..i]`.
pub open spec fn conv_sum(a: Seq<int>, b: Seq<int>, k: int, i: int) -> int
    decreases i,
{
    if i <= 0 {
        0
    } else {
        conv_sum(a, b, k, i - 1) + (if 0 <= k - (i - 1) < b.len() {
            a[i - 1] * b[k - (i - 1)]
        } else {
            0
        })
    }
}

/// The `k`-th coefficient of the product of the polynomials with coefficients `a` and `b`.
pub open spec fn conv_coef(a: Seq<int>, b: Seq<int>, k: int) -> int {
    conv_sum(a, b, k, a.len() as int)
}

/// The residues of a sequence of `ModInt`s.
pub open spec fn residues<const M: u32>(a: Seq<ModInt<M>>) -> Seq<int> {
    a.map_values(|x: ModInt<M>| x@)
}

/// The values of a sequence of `i64`s.
pub open spec fn int_values(a: Seq<i64>) -> Seq<int> {
    a.map_values(|x: i64| x as int)
}

/// The product is computable by transforms of the power-of-two length in `[x, 2x)`.
pub open spec fn ntt_friendly_for(m: int, x: int) -> bool {
    &&& x <= 0x4000_0000
    &&& forall|len: usize| is_pow2(len) && x <= len < 2 * x ==> #[trigger] ntt_length(m, len as int)
}

/// `conv_sum` as a sum of `a_t b_(k-t)`.
proof fn lemma_conv_sum_is_sum(a: Seq<int>, b: Seq<int>, k: int, i: int)
    requires
        0 <= i <= a.len(),
    ensures
        conv_sum(a, b, k, i) == sum(|t: int| coeff(a, t) * coeff(b, k - t), i),
    decreases i,
{
    if i > 0 {
        lemma_conv_sum_is_sum(a, b, k, i - 1);
    }
}

/// `conv_coef` is the Cauchy product coefficient `cmul`.
pub proof fn lemma_conv_coef_is_cmul(a: Seq<int>, b: Seq<int>, k: int)
    requires
        k >= 0,
    ensures
        conv_coef(a, b, k) == cmul(a, b, k),
{
    let f = |t: int| coeff(a, t) * coeff(b, k - t);
    lemma_conv_sum_is_sum(a, b, k, a.len() as int);
    let big = if a.len() > k + 1 {
        a.len() as int
    } else {
        k + 1
    };
    assert forall|t: int| a.len() <= t < big implies #[trigger] f(t) == 0 by {
        assert(coeff(a, t) == 0);
    }
    lemma_sum_tail(f, a.len() as int, big);
    assert forall|t: int| k + 1 <= t < big implies #[trigger] f(t) == 0 by {
        assert(coeff(b, k - t) == 0);
    }
    lemma_sum_tail(f, k + 1, big);
    assert(conv_coef(a, b, k) == sum(f, a.len() as int)) by {
        assert((|t: int| coeff(a, t) * coeff(b, k - t)) =~= f);
    }
    assert(cmul(a, b, k) == sum(f, k + 1)) by {
        assert((|t: int| coeff(a, t) * coeff(b, k - t)) =~= f);
    }
}

/// The first `k` coefficients of a product, reduced modulo `m`, agree with the product below
/// degree `k`.
pub proof fn lemma_truncated_product(a: Seq<int>, b: Seq<int>, c: Seq<int>, k: int, m: int)
    requires
        m >= 1,
        k >= 0,
        a.len() >= 1,
        b.len() >= 1,
        c.len() <= a.len() + b.len() - 1,
        c.len() == a.len() + b.len() - 1 || c.len() == k,
        forall|t: int| 0 <= t < c.len() ==> #[trigger] c[t] == conv_coef(a, b, t) % m,
    ensures
        agree_below(c, prod(a, b), k, m),
{
    assert forall|t: int| 0 <= t < k implies #[trigger] (coeff(c, t) % m) == coeff(prod(a, b), t) % m by {
        lemma_coeff_prod(a, b, t);
        if t < c.len() {
            lemma_conv_coef_is_cmul(a, b, t);
            vstd::arithmetic::div_mod::lemma_mod_twice(conv_coef(a, b, t), m);
        } else {
            lemma_cmul_past_end(a, b, t);
        }
    }
}

/// The bit test for powers of two agrees with halving down to `1`.
proof fn lemma_pow2_len(n: usize)
    requires
        is_pow2(n),
    ensures
        pow2_len(n as int),
    decreases n,
{
    if n >= 2 {
        let h = n / 2;
        assert(n % 2 == 0 && is_pow2(h)) by (bit_vector)
            requires
                n >= 2,
                n & ((n - 1) as usize) == 0,
                h == n / 2,
        ;
        lemma_pow2_len(h);
    }
}

/// Padding with zeros leaves the value of a polynomial unchanged.
proof fn lemma_eval_padded(s: Seq<int>, p: Seq<int>, z: int)
    requires
        s.len() <= p.len(),
        forall|i: int| 0 <= i < s.len() ==> #[trigger] p[i] == s[i],
        forall|i: int| s.len() <= i < p.len() ==> #[trigger] p[i] == 0,
    ensures
        eval(p, z) == eval(s, z),
{
    let n = p.len() as int;
    lemma_eval_sum(p, z, n);
    lemma_eval_sum(s, z, n);
    assert forall|j: int| 0 <= j < n implies #[trigger] terms(p, z)(j) == terms(s, z)(j) by {
        if j < s.len() {
            assert(p[j] == s[j]);
        } else {
            assert(p[j] == 0);
        }
    }
    lemma_sum_ext(terms(p, z), terms(s, z), n);
}

/// The transform method computes the product: transforming both padded factors at `w`,
/// multiplying pointwise and transforming back at `u = w^-1` gives `n` times the coefficients
/// of the product, modulo a prime.
proof fn lemma_ntt_product(
    m: int,
    nn: int,
    sa: Seq<int>,
    sb: Seq<int>,
    pa: Seq<int>,
    pb: Seq<int>,
    fa: Seq<int>,
    fb: Seq<int>,
    p: Seq<int>,
    r: Seq<int>,
    w: int,
    u: int,
)
    requires
        is_prime(m),
        m > 2,
        pow2_len(nn),
        half_turn(w, nn as nat, m),
        half_turn(u, nn as nat, m),
        (w * u) % m == 1,
        sa.len() >= 1,
        sb.len() >= 1,
        sa.len() + sb.len() - 1 <= nn < m,
        pa.len() == nn,
        pb.len() == nn,
        forall|i: int| 0 <= i < sa.len() ==> #[trigger] pa[i] == sa[i],
        forall|i: int| sa.len() <= i < nn ==> #[trigger] pa[i] == 0,
        forall|i: int| 0 <= i < sb.len() ==> #[trigger] pb[i] == sb[i],
        forall|i: int| sb.len() <= i < nn ==> #[trigger] pb[i] == 0,
        fa.len() == nn,
        fb.len() == nn,
        forall|k: int| 0 <= k < nn ==> #[trigger] fa[k] == eval(pa, pow(w, k as nat)) % m,
        forall|k: int| 0 <= k < nn ==> #[trigger] fb[k] == eval(pb, pow(w, k as nat)) % m,
        p.len() == nn,
        forall|k: int| 0 <= k < nn ==> #[trigger] p[k] == (fa[k] * fb[k]) % m,
        r.len() == nn,
        forall|l: int| 0 <= l < nn ==> 0 <= #[trigger] r[l] < m,
        forall|l: int| 0 <= l < nn ==> #[trigger] ((nn * r[l]) % m) == eval(p, pow(u, l as nat)) % m,
    ensures
        forall|l: int| 0 <= l < sa.len() + sb.len() - 1 ==> #[trigger] r[l] == conv_coef(sa, sb, l) % m,
{
    let x = sa.len() + sb.len() - 1;
    let cc = Seq::new(x as nat, |k: int| conv_coef(sa, sb, k));
    assert forall|k: int| 0 <= k < cc.len() implies #[trigger] cc[k] == sum(
        |i: int| coeff(sa, i) * coeff(sb, k - i),
        sa.len() as int,
    ) by {
        lemma_conv_sum_is_sum(sa, sb, k, sa.len() as int);
    }
    assert forall|k: int| 0 <= k < nn implies #[trigger] p[k] % m == eval(cc, pow(w, k as nat)) % m by {
        let z = pow(w, k as nat);
        lemma_eval_padded(sa, pa, z);
        lemma_eval_padded(sb, pb, z);
        lemma_eval_product(sa, sb, cc, z);
        vstd::arithmetic::div_mod::lemma_mod_twice(eval(pa, z), m);
        vstd::arithmetic::div_mod::lemma_mod_twice(eval(pb, z), m);
        vstd::arithmetic::div_mod::lemma_mod_twice(fa[k] * fb[k], m);
        crate::dft::lemma_cong_mul(fa[k], fb[k], eval(pa, z), eval(pb, z), m);
    }
    assert forall|l: int| 0 <= l < x implies #[trigger] r[l] == conv_coef(sa, sb, l) % m by {
        lemma_inversion(cc, p, w, u, nn, m, l);
        assert(coeff(cc, l) == conv_coef(sa, sb, l));
        // nn r_l ≡ nn c_l, and nn is a unit, so r_l ≡ c_l
        let c = conv_coef(sa, sb, l);
        let d = (r[l] - c) % m;
        vstd::arithmetic::div_mod::lemma_mod_bound(r[l] - c, m);
        crate::dft::lemma_cong_sub(nn * r[l], nn * c, nn * r[l], nn * c, m);
        assert(nn * r[l] - nn * c == nn * (r[l] - c)) by (nonlinear_arith);
        vstd::arithmetic::div_mod::lemma_mod_twice(r[l] - c, m);
        lemma_small_mod(nn as nat, m as nat);
        crate::dft::lemma_cong_mul(nn, r[l] - c, nn, d, m);
        vstd::arithmetic::div_mod::lemma_sub_mod_noop(nn * r[l], nn * c, m);
        lemma_small_mod(0, m as nat);
        assert((nn * d) % m == 0);
        lemma_euclid(m, nn, d);
        lemma_small_mod(d as nat, m as nat);
        // r_l - c ≡ 0
        crate::dft::lemma_cong_add(r[l] - c, c, 0, c, m);
        lemma_small_mod(r[l] as nat, m as nat);
    }
}

/// The product of `a` and `b` by the schoolbook method, `O(n m)`.
pub fn convolution_naive<const M: u32>(a: &[ModInt<M>], b: &[ModInt<M>]) -> (ret: Vec<ModInt<M>>)
    requires
        1 <= M < 0x8000_0000,
        all_wf(a@),
        all_wf(b@),
        a@.len() + b@.len() <= usize::MAX,
    ensures
        a@.len() == 0 || b@.len() == 0 ==> ret@.len() == 0,
        a@.len() > 0 && b@.len() > 0 ==> ret@.len() == a@.len() + b@.len() - 1,
        all_wf(ret@),
        forall|k: int| 0 <= k < ret@.len() ==> #[trigger] ret@[k]@ == conv_coef(residues(a@), residues(b@), k) % (M as int),
{
    if a.is_empty() || b.is_empty() {
        return vec![];
    }
    let n = a.len();
    let m = b.len();
    let ghost ra = residues(a@);
    let ghost rb = residues(b@);
    let ghost mi = M as int;
    let zero = ModInt::<M>::raw(0);
    let mut ret = vec![zero; n + m - 1];
    proof {
        assert forall|k: int| 0 <= k < ret@.len() implies #[trigger] ret@[k]@ == conv_sum(ra, rb, k, 0) % mi && ret@[k].wf() by {
            lemma_small_mod(0, mi as nat);
        }
    }
    let mut i: usize = 0;
    while i < n
        invariant
            1 <= M < 0x8000_0000,
            mi == M as int,
            n == a@.len(),
            m == b@.len(),
            n >= 1,
            m >= 1,
            ra == residues(a@),
            rb == residues(b@),
            all_wf(a@),
            all_wf(b@),
            n + m <= usize::MAX,
            i <= n,
            ret@.len() == n + m - 1,
            forall|k: int| 0 <= k < ret@.len() ==> #[trigger] ret@[k]@ == conv_sum(ra, rb, k, i as int) % mi && ret@[k].wf(),
        decreases n - i,
    {
        let x = a[i];
        let mut j: usize = 0;
        while j < m
            invariant
                1 <= M < 0x8000_0000,
                mi == M as int,
                n == a@.len(),
                m == b@.len(),
                ra == residues(a@),
                rb == residues(b@),
                all_wf(b@),
                n >= 1,
                m >= 1,
                n + m <= usize::MAX,
                i < n,
                j <= m,
                x == a@[i as int],
                x.wf(),
                ret@.len() == n + m - 1,
                forall|k: int| 0 <= k < ret@.len() ==> #[trigger] ret@[k]@ == (conv_sum(ra, rb, k, i as int) + (
                    if i <= k < i + j {
                        ra[i as int] * rb[k - i]
                    } else {
                        0
                    })) % mi && ret@[k].wf(),
            decreases m - j,
        {
            let y = b[j];
            let c = ret[i + j];
            proof {
                ModInt::<M>::lemma_ops(x, y);
                ModInt::<M>::lemma_ops(c, ModInt::<M>::from_view((x@ * y@) % mi));
            }
            let xy = x * y;
            ret.set(i + j, c + xy);
            proof {
                let k0 = (i + j) as int;
                let p = conv_sum(ra, rb, k0, i as int);
                assert(ra[i as int] == x@);
                assert(rb[j as int] == y@);
                vstd::arithmetic::div_mod::lemma_add_mod_noop(p, x@ * y@, mi);
                vstd::arithmetic::div_mod::lemma_mod_twice(p, mi);
                vstd::arithmetic::div_mod::lemma_mod_twice(x@ * y@, mi);
                vstd::arithmetic::div_mod::lemma_add_mod_noop(p % mi, (x@ * y@) % mi, mi);
            }
            j += 1;
        }
        i += 1;
    }
    ret
}

/// The product of `a` and `b`: `c[k] = sum_{i + j = k} a[i] b[j]`, in `O((n + m) log(n + m))`.
/// When both lengths exceed 60 the product goes through transforms, which need `M` to be
/// NTT-friendly for the padded length.
pub fn convolution<const M: u32>(a: &[ModInt<M>], b: &[ModInt<M>]) -> (ret: Vec<ModInt<M>>)
    requires
        1 <= M < 0x8000_0000,
        all_wf(a@),
        all_wf(b@),
        a@.len() + b@.len() <= usize::MAX,
        a@.len() > 60 && b@.len() > 60 ==> ntt_modulus(M as int) && ntt_friendly_for(
            M as int,
            a@.len() + b@.len() - 1,
        ),
    ensures
        a@.len() == 0 || b@.len() == 0 ==> ret@.len() == 0,
        a@.len() > 0 && b@.len() > 0 ==> ret@.len() == a@.len() + b@.len() - 1,
        all_wf(ret@),
        a@.len() <= 60 || b@.len() <= 60 || is_prime(M as int) ==> forall|k: int|
            0 <= k < ret@.len() ==> #[trigger] ret@[k]@ == conv_coef(residues(a@), residues(b@), k) % (M as int),
{
    if a.is_empty() || b.is_empty() {
        return vec![];
    }
    let n = a.len();
    let m = b.len();
    if n <= 60 || m <= 60 {
        return convolution_naive(a, b);
    }
    let x = n + m - 1;
    let mut len: usize = 1;
    proof {
        assert(is_pow2(1usize)) by (bit_vector);
    }
    while len < x
        invariant
            is_pow2(len),
            1 <= len,
            len < 2 * x,
            x <= 0x4000_0000,
        decreases 2 * x - len,
    {
        proof {
            assert(is_pow2((len * 2) as usize)) by (bit_vector)
                requires
                    len > 0,
                    len & ((len - 1) as usize) == 0,
                    len < 0x8000_0000,
            ;
        }
        let ghost before = len;
        len = len * 2;
        assert(len == 2 * before);
    }
    proof {
        assert(ntt_length(M as int, len as int));
    }
    let zero = ModInt::<M>::raw(0);
    let mut fa: Vec<ModInt<M>> = Vec::new();
    fa.extend_from_slice(a);
    let mut fb: Vec<ModInt<M>> = Vec::new();
    fb.extend_from_slice(b);
    fa.resize(len, zero);
    fb.resize(len, zero);
    proof {
        assert forall|i: int| 0 <= i < len implies #[trigger] fa@[i].wf() by {
            if i < n {
                assert(fa@.subrange(0, n as int)[i] == a@[i]);
            }
        }
        assert forall|i: int| 0 <= i < len implies #[trigger] fb@[i].wf() by {
            if i < m {
                assert(fb@.subrange(0, m as int)[i] == b@[i]);
            }
        }
    }
    let ghost pa = residues(fa@);
    let ghost pb = residues(fb@);
    proof {
        assert forall|i: int| 0 <= i < len implies #[trigger] pa[i] == (if i < n {
            residues(a@)[i]
        } else {
            0
        }) by {
            if i < n {
                assert(fa@.subrange(0, n as int)[i] == a@[i]);
            }
        }
        assert forall|i: int| 0 <= i < len implies #[trigger] pb[i] == (if i < m {
            residues(b@)[i]
        } else {
            0
        }) by {
            if i < m {
                assert(fb@.subrange(0, m as int)[i] == b@[i]);
            }
        }
    }
    ntt(fa.as_mut_slice());
    ntt(fb.as_mut_slice());
    let ghost fa1 = fa@;
    let ghost fb1 = fb@;
    let mut i: usize = 0;
    while i < len
        invariant
            fa@.len() == len,
            fb@.len() == len,
            fb@ == fb1,
            fa1.len() == len,
            all_wf(fa1),
            all_wf(fa@),
            all_wf(fb@),
            i <= len,
            forall|t: int| 0 <= t < i ==> #[trigger] fa@[t]@ == (fa1[t]@ * fb1[t]@) % (M as int),
            forall|t: int| i <= t < len ==> #[trigger] fa@[t] == fa1[t],
        decreases len - i,
    {
        let p = fa[i];
        let q = fb[i];
        proof {
            ModInt::<M>::lemma_ops(p, q);
        }
        fa.set(i, p * q);
        i += 1;
    }
    let ghost pr = fa@;
    intt(fa.as_mut_slice());
    let ghost rr = fa@;
    fa.truncate(x);
    proof {
        if is_prime(M as int) {
            let mm = M as int;
            let nn = len as int;
            lemma_ntt_root_half_turn(mm, nn);
            lemma_pow2_len(len);
            if nn > mm - 1 {
                lemma_small_mod((mm - 1) as nat, nn as nat);
            }
            let w = ntt_root(mm, nn);
            let u = ntt_root_inv(mm, nn);
            let sa = residues(a@);
            let sb = residues(b@);
            assert forall|l: int| 0 <= l < nn implies 0 <= #[trigger] residues(rr)[l] < mm by {
                assert(rr[l].wf());
            }
            assert(residues(pr).len() == nn);
            assert forall|k: int| 0 <= k < nn implies #[trigger] residues(pr)[k] == (residues(fa1)[k]
                * residues(fb1)[k]) % mm by {
            }
            lemma_ntt_product(
                mm,
                nn,
                sa,
                sb,
                pa,
                pb,
                residues(fa1),
                residues(fb1),
                residues(pr),
                residues(rr),
                w,
                u,
            );
            assert forall|k: int| 0 <= k < fa@.len() implies #[trigger] fa@[k]@ == conv_coef(sa, sb, k) % mm by {
                assert(fa@[k] == rr[k]);
                assert(residues(rr)[k] == rr[k]@);
            }
        }
    }
    fa
}

/// Reducing the factors modulo `m` leaves the coefficients of the product unchanged modulo `m`.
proof fn lemma_conv_sum_mod(a: Seq<int>, b: Seq<int>, ra: Seq<int>, rb: Seq<int>, k: int, i: int, m: int)
    requires
        m >= 1,
        ra.len() == a.len(),
        rb.len() == b.len(),
        0 <= i <= a.len(),
        forall|t: int| 0 <= t < a.len() ==> #[trigger] ra[t] == a[t] % m,
        forall|t: int| 0 <= t < b.len() ==> #[trigger] rb[t] == b[t] % m,
    ensures
        conv_sum(ra, rb, k, i) % m == conv_sum(a, b, k, i) % m,
    decreases i,
{
    if i > 0 {
        lemma_conv_sum_mod(a, b, ra, rb, k, i - 1, m);
        let p = conv_sum(a, b, k, i - 1);
        let rp = conv_sum(ra, rb, k, i - 1);
        let (x, rx) = if 0 <= k - (i - 1) < b.len() {
            (a[i - 1] * b[k - (i - 1)], ra[i - 1] * rb[k - (i - 1)])
        } else {
            (0, 0)
        };
        if 0 <= k - (i - 1) < b.len() {
            vstd::arithmetic::div_mod::lemma_mul_mod_noop(a[i - 1], b[k - (i - 1)], m);
            vstd::arithmetic::div_mod::lemma_mod_twice(a[i - 1], m);
            vstd::arithmetic::div_mod::lemma_mod_twice(b[k - (i - 1)], m);
            vstd::arithmetic::div_mod::lemma_mul_mod_noop(ra[i - 1], rb[k - (i - 1)], m);
        }
        vstd::arithmetic::div_mod::lemma_add_mod_noop(rp, rx, m);
        vstd::arithmetic::div_mod::lemma_add_mod_noop(p, x, m);
    }
}

/// The product of two integer sequences modulo `M`, as residues.
fn convolution_mod<const M: u32>(a: &[i64], b: &[i64]) -> (ret: Vec<u32>)
    requires
        1 <= M < 0x8000_0000,
        a@.len() + b@.len() <= usize::MAX,
        a@.len() > 60 && b@.len() > 60 ==> ntt_modulus(M as int) && ntt_friendly_for(
            M as int,
            a@.len() + b@.len() - 1,
        ),
    ensures
        a@.len() == 0 || b@.len() == 0 ==> ret@.len() == 0,
        a@.len() > 0 && b@.len() > 0 ==> ret@.len() == a@.len() + b@.len() - 1,
        forall|k: int| 0 <= k < ret@.len() ==> #[trigger] ret@[k] < M,
        a@.len() <= 60 || b@.len() <= 60 || is_prime(M as int) ==> forall|k: int|
            0 <= k < ret@.len() ==> #[trigger] ret@[k] == conv_coef(int_values(a@), int_values(b@), k) % (M as int),
{
    let mut fa: Vec<ModInt<M>> = Vec::new();
    let mut i: usize = 0;
    while i < a.len()
        invariant
            1 <= M < 0x8000_0000,
            i <= a@.len(),
            fa@.len() == i,
            all_wf(fa@),
            forall|t: int| 0 <= t < i ==> #[trigger] fa@[t]@ == (a@[t] as int) % (M as int),
        decreases a@.len() - i,
    {
        fa.push(ModInt::new(a[i]));
        i += 1;
    }
    let mut fb: Vec<ModInt<M>> = Vec::new();
    let mut j: usize = 0;
    while j < b.len()
        invariant
            1 <= M < 0x8000_0000,
            j <= b@.len(),
            fb@.len() == j,
            all_wf(fb@),
            forall|t: int| 0 <= t < j ==> #[trigger] fb@[t]@ == (b@[t] as int) % (M as int),
        decreases b@.len() - j,
    {
        fb.push(ModInt::new(b[j]));
        j += 1;
    }
    let c = convolution(fa.as_slice(), fb.as_slice());
    let mut ret: Vec<u32> = Vec::new();
    let mut k: usize = 0;
    while k < c.len()
        invariant
            k <= c@.len(),
            ret@.len() == k,
            all_wf(c@),
            forall|t: int| 0 <= t < k ==> #[trigger] ret@[t] == c@[t]@,
        decreases c@.len() - k,
    {
        ret.push(c[k].val());
        k += 1;
    }
    proof {
        assert forall|t: int| 0 <= t < ret@.len() implies #[trigger] ret@[t] < M by {
            assert(c@[t].wf());
        }
        if a@.len() <= 60 || b@.len() <= 60 || is_prime(M as int) {
            let ai = int_values(a@);
            let bi = int_values(b@);
            assert forall|t: int| 0 <= t < ret@.len() implies #[trigger] ret@[t] == conv_coef(ai, bi, t) % (M as int) by {
                lemma_conv_sum_mod(ai, bi, residues(fa@), residues(fb@), t, a@.len() as int, M as int);
            }
        }
    }
    ret
}

/// The inverse of `a` modulo `m`, for `a` coprime to `m`.
fn inv_mod(a: i128, m: i128) -> (r: i128)
    requires
        1 <= m < 0x8000_0000,
        0 <= a < m,
        gcd(a as nat, m as nat) == 1,
    ensures
        0 <= r < m,
        (a * r) % (m as int) == 1int % (m as int),
{
    mod_inv(a as u32, m as u32) as i128
}

/// `d` divisible by `p` and by `q`, where `p` is invertible modulo `q`, is divisible by `p * q`.
proof fn lemma_crt_step(d: int, p: int, q: int, inv: int)
    requires
        p > 0,
        q > 1,
        d % p == 0,
        d % q == 0,
        ((p % q) * inv) % q == 1,
    ensures
        d % (p * q) == 0,
{
    lemma_fundamental_div_mod(d, p);
    let s = d / p;
    assert(d == p * s);
    // s ≡ (p * inv) * s = (p * s) * inv ≡ 0 (mod q)
    vstd::arithmetic::div_mod::lemma_mul_mod_noop_left(p, inv, q);
    assert((p * inv) % q == 1);
    vstd::arithmetic::div_mod::lemma_mul_mod_noop_left(p * inv, s, q);
    assert(((p * inv) * s) % q == (1 * s) % q);
    assert((p * inv) * s == (p * s) * inv) by (nonlinear_arith);
    vstd::arithmetic::div_mod::lemma_mul_mod_noop_left(p * s, inv, q);
    assert((p * s) % q == 0);
    assert(((p * s) * inv) % q == (0 * inv) % q);
    assert(0 * inv == 0);
    lemma_small_mod(0, q as nat);
    assert(1 * s == s);
    assert(s % q == 0);
    lemma_fundamental_div_mod(s, q);
    let r = s / q;
    assert(d == r * (p * q) + 0 && p * q > 0) by (nonlinear_arith)
        requires
            d == p * s,
            s == q * r,
            p > 0,
            q > 1,
    ;
    lemma_fundamental_div_mod_converse(d, p * q, r, 0);
}

/// `x + (((c - x) mod q) * inv mod q) * base` agrees with `c` modulo `q` and with `x` modulo
/// `base`, when `inv` inverts `base` modulo `q`.
proof fn lemma_garner_step(x: int, c: int, base: int, q: int, inv: int)
    requires
        base > 0,
        q > 1,
        ((base % q) * inv) % q == 1,
    ensures
        ({
            let tt = (((c - x) % q) * inv) % q;
            let y = x + tt * base;
            &&& y % q == c % q
            &&& y % base == x % base
            &&& 0 <= tt < q
        }),
{
    let tt = (((c - x) % q) * inv) % q;
    let y = x + tt * base;
    lemma_mod_bound(((c - x) % q) * inv, q);
    vstd::arithmetic::div_mod::lemma_mod_multiples_vanish(tt, x, base);
    assert(y % base == x % base) by {
        assert(y == tt * base + x);
        vstd::arithmetic::mul::lemma_mul_is_commutative(tt, base);
    }
    // tt * base ≡ (c - x) * (inv * base) ≡ c - x (mod q)
    let a = (c - x) % q;
    let b = a * inv;
    vstd::arithmetic::div_mod::lemma_mul_mod_noop_left(b, base, q);
    assert((tt * base) % q == (b * base) % q);
    assert(b * base == a * (inv * base)) by (nonlinear_arith)
        requires
            b == a * inv,
    ;
    vstd::arithmetic::div_mod::lemma_mul_mod_noop_left(base, inv, q);
    vstd::arithmetic::mul::lemma_mul_is_commutative(inv, base);
    assert((inv * base) % q == 1);
    vstd::arithmetic::div_mod::lemma_mul_mod_noop_right(a, inv * base, q);
    assert((a * (inv * base)) % q == (a * 1) % q);
    vstd::arithmetic::div_mod::lemma_mod_twice(c - x, q);
    assert((tt * base) % q == (c - x) % q);
    vstd::arithmetic::div_mod::lemma_add_mod_noop(x, tt * base, q);
    vstd::arithmetic::div_mod::lemma_add_mod_noop(x, c - x, q);
}

/// Garner's reconstruction from the residues modulo the three moduli gives back `t`, as the
/// representative in `(-M/2, M/2]` of the product `M` of the moduli.
proof fn lemma_garner(t: int, x1: int, x2: int, x3: int, i1: int, i2: int)
    requires
        x1 == t % (MOD1 as int),
        x2 == t % (MOD2 as int),
        x3 == t % (MOD3 as int),
        ((MOD1 as int % MOD2 as int) * i1) % (MOD2 as int) == 1,
        (((MOD1 as int * MOD2 as int) % MOD3 as int) * i2) % (MOD3 as int) == 1,
        -0x8000_0000_0000_0000 <= t < 0x8000_0000_0000_0000,
    ensures
        ({
            let m1 = MOD1 as int;
            let m2 = MOD2 as int;
            let m3 = MOD3 as int;
            let m = m1 * m2 * m3;
            let t1 = (((x2 - x1) % m2) * i1) % m2;
            let x12 = x1 + t1 * m1;
            let t2 = (((x3 - x12) % m3) * i2) % m3;
            let x123 = x12 + t2 * m1 * m2;
            (if x123 > m / 2 { x123 - m } else { x123 }) == t
        }),
{
    let m1 = MOD1 as int;
    let m2 = MOD2 as int;
    let m3 = MOD3 as int;
    let m = m1 * m2 * m3;
    let t1 = (((x2 - x1) % m2) * i1) % m2;
    let x12 = x1 + t1 * m1;
    let t2 = (((x3 - x12) % m3) * i2) % m3;
    let x123 = x12 + t2 * m1 * m2;
    lemma_garner_step(x1, x2, m1, m2, i1);
    lemma_garner_step(x12, x3, m1 * m2, m3, i2);
    assert(t2 * m1 * m2 == t2 * (m1 * m2)) by (nonlinear_arith);
    let d = x123 - t;
    // d vanishes modulo each modulus
    vstd::arithmetic::div_mod::lemma_mod_twice(t, m1);
    vstd::arithmetic::div_mod::lemma_mod_twice(t, m2);
    vstd::arithmetic::div_mod::lemma_mod_twice(t, m3);
    vstd::arithmetic::div_mod::lemma_mod_multiples_vanish(t2 * m2, x12, m1);
    assert(x123 == t2 * m2 * m1 + x12) by (nonlinear_arith)
        requires
            x123 == x12 + t2 * m1 * m2,
    ;
    assert(t2 * m2 * m1 == (t2 * m2) * m1) by (nonlinear_arith);
    vstd::arithmetic::div_mod::lemma_mod_multiples_vanish(t2 * m1, x12, m2);
    assert(t2 * m1 * m2 == (t2 * m1) * m2) by (nonlinear_arith);
    assert(x123 % m1 == t % m1);
    assert(x123 % m2 == t % m2);
    assert(x123 % m3 == t % m3);
    vstd::arithmetic::div_mod::lemma_sub_mod_noop(x123, t, m1);
    vstd::arithmetic::div_mod::lemma_sub_mod_noop(x123, t, m2);
    vstd::arithmetic::div_mod::lemma_sub_mod_noop(x123, t, m3);
    lemma_small_mod(0, m1 as nat);
    lemma_small_mod(0, m2 as nat);
    lemma_small_mod(0, m3 as nat);
    assert(d % m1 == 0);
    assert(d % m2 == 0);
    assert(d % m3 == 0);
    lemma_crt_step(d, m1, m2, i1);
    lemma_crt_step(d, m1 * m2, m3, i2);
    assert(m == (m1 * m2) * m3);
    // 0 <= x123 < m
    assert(0 <= x12 < m1 * m2) by (nonlinear_arith)
        requires
            0 <= x1 < m1,
            0 <= t1 < m2,
            x12 == x1 + t1 * m1,
            m1 == 754_974_721,
            m2 == 167_772_161,
    ;
    assert(0 <= x123 < m) by (nonlinear_arith)
        requires
            0 <= x12 < m1 * m2,
            0 <= t2 < m3,
            x123 == x12 + t2 * m1 * m2,
            m == m1 * m2 * m3,
            m1 == 754_974_721,
            m2 == 167_772_161,
            m3 == 469_762_049,
    ;
    let v = if x123 > m / 2 { x123 - m } else { x123 };
    vstd::arithmetic::div_mod::lemma_fundamental_div_mod(d, m);
    let q = d / m;
    assert(v == t) by (nonlinear_arith)
        requires
            d == m * q,
            d == x123 - t,
            0 <= x123 < m,
            v == (if x123 > m / 2 { x123 - m } else { x123 }),
            -0x8000_0000_0000_0000 <= t < 0x8000_0000_0000_0000,
            m == 59_501_818_244_292_734_739_283_969,
    ;
}

/// The three moduli are NTT-friendly for every product of length at most `2^24`.
proof fn lemma_moduli_friendly(x: int)
    requires
        1 <= x <= 0x100_0000,
    ensures
        ntt_modulus(MOD1 as int),
        ntt_modulus(MOD2 as int),
        ntt_modulus(MOD3 as int),
        ntt_friendly_for(MOD1 as int, x),
        ntt_friendly_for(MOD2 as int, x),
        ntt_friendly_for(MOD3 as int, x),
{
    assert(gcd(11, 754_974_721) == 1) by {
        assert(gcd(1, 0) == 1);
        assert(gcd(5, 1) == 1);
        assert(gcd(6, 5) == 1);
        assert(gcd(11, 6) == 1);
        assert(gcd(754_974_721, 11) == 1);
    }
    assert(gcd(3, 167_772_161) == 1) by {
        assert(gcd(1, 0) == 1);
        assert(gcd(2, 1) == 1);
        assert(gcd(3, 2) == 1);
        assert(gcd(167_772_161, 3) == 1);
    }
    assert(gcd(3, 469_762_049) == 1) by {
        assert(gcd(1, 0) == 1);
        assert(gcd(2, 1) == 1);
        assert(gcd(3, 2) == 1);
        assert(gcd(469_762_049, 3) == 1);
    }
    assert forall|len: usize| is_pow2(len) && x <= len < 2 * x implies #[trigger] ntt_length(
        MOD1 as int,
        len as int,
    ) by {
        assert(754_974_720usize % len == 0) by (bit_vector)
            requires
                len > 0,
                len & ((len - 1) as usize) == 0,
                len < 0x200_0000,
        ;
    }
    assert forall|len: usize| is_pow2(len) && x <= len < 2 * x implies #[trigger] ntt_length(
        MOD2 as int,
        len as int,
    ) by {
        assert(167_772_160usize % len == 0) by (bit_vector)
            requires
                len > 0,
                len & ((len - 1) as usize) == 0,
                len < 0x200_0000,
        ;
    }
    assert forall|len: usize| is_pow2(len) && x <= len < 2 * x implies #[trigger] ntt_length(
        MOD3 as int,
        len as int,
    ) by {
        assert(469_762_048usize % len == 0) by (bit_vector)
            requires
                len > 0,
                len & ((len - 1) as usize) == 0,
                len < 0x200_0000,
        ;
    }
}

/// The product of two integer sequences, for products whose coefficients all fit in `i64`:
/// the product is taken modulo three NTT-friendly primes and rebuilt by the Chinese remainder
/// theorem, so no modulus constrains the values.
pub fn convolution_i64(a: &[i64], b: &[i64]) -> (ret: Vec<i64>)
    requires
        a@.len() + b@.len() <= usize::MAX,
        a@.len() > 60 && b@.len() > 60 ==> a@.len() + b@.len() - 1 <= 0x100_0000,
        forall|k: int|
            0 <= k < a@.len() + b@.len() - 1 ==> i64::MIN <= #[trigger] conv_coef(
                int_values(a@),
                int_values(b@),
                k,
            ) <= i64::MAX,
    ensures
        a@.len() == 0 || b@.len() == 0 ==> ret@.len() == 0,
        a@.len() > 0 && b@.len() > 0 ==> ret@.len() == a@.len() + b@.len() - 1,
        forall|k: int| 0 <= k < ret@.len() ==> #[trigger] ret@[k] == conv_coef(int_values(a@), int_values(b@), k),
{
    if a.is_empty() || b.is_empty() {
        return vec![];
    }
    proof {
        if a@.len() > 60 && b@.len() > 60 {
            lemma_moduli_friendly(a@.len() + b@.len() - 1);
        }
        lemma_ntt_primes();
    }
    let c1 = convolution_mod::<MOD1>(a, b);
    let c2 = convolution_mod::<MOD2>(a, b);
    let c3 = convolution_mod::<MOD3>(a, b);
    let m1 = MOD1 as i128;
    let m2 = MOD2 as i128;
    let m3 = MOD3 as i128;
    let m = m1 * m2 * m3;
    proof {
        assert(754_974_721int % 167_772_161int == 83_886_077);
        assert((754_974_721int * 167_772_161int) % 469_762_049int == 451_786_460);
        assert(gcd(1, 0) == 1);
        assert(gcd(2, 1) == 1);
        assert(gcd(7, 2) == 1);
        assert(gcd(83886077, 7) == 1);
        assert(gcd(167772161, 83886077) == 1);
        assert(gcd(83886077, 167772161) == 1);
        assert(gcd(1, 0) == 1);
        assert(gcd(2, 1) == 1);
        assert(gcd(3, 2) == 1);
        assert(gcd(5, 3) == 1);
        assert(gcd(148, 5) == 1);
        assert(gcd(153, 148) == 1);
        assert(gcd(1198291, 153) == 1);
        assert(gcd(1198444, 1198291) == 1);
        assert(gcd(2396735, 1198444) == 1);
        assert(gcd(17975589, 2396735) == 1);
        assert(gcd(451786460, 17975589) == 1);
        assert(gcd(469762049, 451786460) == 1);
        assert(gcd(451786460, 469762049) == 1);
    }
    let m1_inv_m2 = inv_mod(m1 % m2, m2);
    let m1m2_inv_m3 = inv_mod(m1 * m2 % m3, m3);
    let ghost ai = int_values(a@);
    let ghost bi = int_values(b@);
    let mut ret: Vec<i64> = Vec::new();
    let mut k: usize = 0;
    while k < c1.len()
        invariant
            c1@.len() == c2@.len(),
            c1@.len() == c3@.len(),
            c1@.len() == a@.len() + b@.len() - 1,
            m1 == MOD1 as int,
            m2 == MOD2 as int,
            m3 == MOD3 as int,
            m == m1 * m2 * m3,
            0 <= m1_inv_m2 < m2,
            0 <= m1m2_inv_m3 < m3,
            (((m1 as int) % (m2 as int)) * m1_inv_m2) % (m2 as int) == 1,
            (((m1 * m2) % (m3 as int)) * m1m2_inv_m3) % (m3 as int) == 1,
            forall|t: int| 0 <= t < c1@.len() ==> #[trigger] c1@[t] < MOD1,
            forall|t: int| 0 <= t < c2@.len() ==> #[trigger] c2@[t] < MOD2,
            forall|t: int| 0 <= t < c3@.len() ==> #[trigger] c3@[t] < MOD3,
            forall|t: int| 0 <= t < c1@.len() ==> {
                &&& #[trigger] c1@[t] == conv_coef(ai, bi, t) % (MOD1 as int)
                &&& c2@[t] == conv_coef(ai, bi, t) % (MOD2 as int)
                &&& c3@[t] == conv_coef(ai, bi, t) % (MOD3 as int)
            },
            ai == int_values(a@),
            bi == int_values(b@),
            forall|t: int|
                0 <= t < a@.len() + b@.len() - 1 ==> i64::MIN <= #[trigger] conv_coef(ai, bi, t) <= i64::MAX,
            k <= c1@.len(),
            ret@.len() == k,
            forall|t: int| 0 <= t < k ==> #[trigger] ret@[t] == conv_coef(ai, bi, t),
        decreases c1@.len() - k,
    {
        let x1 = c1[k] as i128;
        let x2 = c2[k] as i128;
        let x3 = c3[k] as i128;
        let r1 = rem_euclid_i128(x2 - x1, MOD2) as i128;
        proof {
            assert(r1 * m1_inv_m2 < 0x8000_0000 * 0x8000_0000) by (nonlinear_arith)
                requires
                    0 <= r1 < 0x8000_0000,
                    0 <= m1_inv_m2 < 0x8000_0000,
            ;
        }
        let t1 = r1 * m1_inv_m2 % m2;
        proof {
            lemma_mod_bound(r1 * m1_inv_m2, m2 as int);
            assert(t1 * m1 < 0x8000_0000 * 0x8000_0000) by (nonlinear_arith)
                requires
                    0 <= t1 < 0x8000_0000,
                    0 <= m1 < 0x8000_0000,
            ;
        }
        let x12 = x1 + t1 * m1;
        let r2 = rem_euclid_i128(x3 - x12, MOD3) as i128;
        proof {
            assert(r2 * m1m2_inv_m3 < 0x8000_0000 * 0x8000_0000) by (nonlinear_arith)
                requires
                    0 <= r2 < 0x8000_0000,
                    0 <= m1m2_inv_m3 < 0x8000_0000,
            ;
        }
        let t2 = r2 * m1m2_inv_m3 % m3;
        proof {
            lemma_mod_bound(r2 * m1m2_inv_m3, m3 as int);
            assert(t2 * m1 * m2 < 0x8000_0000int * 0x8000_0000int * 0x8000_0000int) by (nonlinear_arith)
                requires
                    0 <= t2 < 0x8000_0000,
                    0 <= m1 < 0x8000_0000,
                    0 <= m2 < 0x8000_0000,
            ;
            assert(0 <= t2 * m1 * m2) by (nonlinear_arith)
                requires
                    0 <= t2,
                    0 <= m1,
                    0 <= m2,
            ;
            assert(0 <= t1 * m1) by (nonlinear_arith)
                requires
                    0 <= t1,
                    0 <= m1,
            ;
        }
        let x123 = x12 + t2 * m1 * m2;
        let v = if x123 > m / 2 {
            x123 - m
        } else {
            x123
        };
        proof {
            let tk = conv_coef(ai, bi, k as int);
            assert(c1@[k as int] == tk % (MOD1 as int));
            lemma_garner(tk, x1 as int, x2 as int, x3 as int, m1_inv_m2 as int, m1m2_inv_m3 as int);
        }
        ret.push(v as i64);
        k += 1;
    }
    ret
}

} // verus!

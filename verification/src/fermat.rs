//! Fermat's little theorem, by the binomial theorem.
use vstd::prelude::*;
use vstd::arithmetic::power::{pow, lemma_pow0, lemma_pow1};
use vstd::arithmetic::div_mod::{lemma_small_mod, lemma_mod_multiples_vanish, lemma_mul_mod_noop_left, lemma_mod_twice};
use crate::numtheory::{is_prime, lemma_euclid};

verus! {

/// The binomial coefficient `n choose k`, by Pascal's rule.
pub open spec fn binom(n: nat, k: nat) -> nat
    decreases n,
{
    if k == 0 {
        1
    } else if n == 0 {
        0
    } else {
        binom((n - 1) as nat, (k - 1) as nat) + binom((n - 1) as nat, k)
    }
}

/// `sum_{j < k} binom(n, j) a^j`.
pub open spec fn binom_sum(a: int, n: nat, k: nat) -> int
    decreases k,
{
    if k == 0 {
        0
    } else {
        binom_sum(a, n, (k - 1) as nat) + binom(n, (k - 1) as nat) * pow(a, (k - 1) as nat)
    }
}

proof fn lemma_binom_above(n: nat, k: nat)
    requires
        k > n,
    ensures
        binom(n, k) == 0,
    decreases n,
{
    if n > 0 {
        lemma_binom_above((n - 1) as nat, (k - 1) as nat);
        lemma_binom_above((n - 1) as nat, k);
    }
}

/// Pascal's rule summed: `S(n + 1, k) = S(n, k) + a S(n, k - 1)`.
proof fn lemma_binom_sum_step(a: int, n: nat, k: nat)
    requires
        k >= 1,
    ensures
        binom_sum(a, n + 1, k) == binom_sum(a, n, k) + a * binom_sum(a, n, (k - 1) as nat),
    decreases k,
{
    if k == 1 {
        lemma_pow0(a);
        assert(binom_sum(a, n + 1, 0) == 0);
        assert(binom_sum(a, n, 0) == 0);
    } else {
        let j = (k - 1) as nat;
        lemma_binom_sum_step(a, n, j);
        vstd::arithmetic::power::lemma_pow_adds(a, 1, (j - 1) as nat);
        lemma_pow1(a);
        let p = pow(a, (j - 1) as nat);
        assert(pow(a, j) == a * p);
        assert(binom((n + 1) as nat, j) == binom(n, (j - 1) as nat) + binom(n, j));
        let s1 = binom_sum(a, n, (j - 1) as nat);
        let c = binom(n, (j - 1) as nat) as int;
        assert(a * (s1 + c * p) == a * s1 + c * (a * p)) by (nonlinear_arith);
        assert((c + binom(n, j)) * (a * p) == c * (a * p) + binom(n, j) * (a * p)) by (nonlinear_arith);
    }
}

/// The binomial theorem for `(a + 1)^n`.
proof fn lemma_binomial(a: int, n: nat)
    ensures
        pow(a + 1, n) == binom_sum(a, n, n + 1),
    decreases n,
{
    if n == 0 {
        lemma_pow0(a + 1);
        lemma_pow0(a);
        assert(binom_sum(a, 0, 0) == 0);
    } else {
        let m = (n - 1) as nat;
        lemma_binomial(a, m);
        vstd::arithmetic::power::lemma_pow_adds(a + 1, 1, m);
        lemma_pow1(a + 1);
        lemma_binom_sum_step(a, m, n + 1);
        lemma_binom_above(m, n);
        assert(binom_sum(a, m, n + 1) == binom_sum(a, m, n));
        let s = binom_sum(a, m, n);
        assert((a + 1) * s == s + a * s) by (nonlinear_arith);
    }
}

/// The absorption identity `k binom(n, k) = n binom(n - 1, k - 1)`.
proof fn lemma_binom_absorb(n: nat, k: nat)
    requires
        n >= 1,
        k >= 1,
    ensures
        k * binom(n, k) == n * binom((n - 1) as nat, (k - 1) as nat),
    decreases n,
{
    if n == 1 {
        assert(binom(0, 0) == 1);
        lemma_binom_above(0, k);
        if k > 1 {
            lemma_binom_above(0, (k - 1) as nat);
            lemma_binom_above(1, k);
        }
    } else if k == 1 {
        lemma_binom_one(n);
        assert(binom((n - 1) as nat, 0) == 1);
    } else {
        let n1 = (n - 1) as nat;
        let k1 = (k - 1) as nat;
        lemma_binom_absorb(n1, k1);
        lemma_binom_absorb(n1, k);
        let a = binom(n1, k1) as int;
        let b = binom(n1, k) as int;
        let c = binom((n1 - 1) as nat, (k1 - 1) as nat) as int;
        let d = binom((n1 - 1) as nat, k1) as int;
        assert(binom(n, k) == a + b);
        assert(a == c + d);
        assert(k * (a + b) == n * a) by (nonlinear_arith)
            requires
                k1 * a == n1 * c,
                k * b == n1 * d,
                a == c + d,
                k == k1 + 1,
                n == n1 + 1,
        ;
    }
}

proof fn lemma_binom_one(n: nat)
    ensures
        binom(n, 1) == n,
    decreases n,
{
    if n > 0 {
        lemma_binom_one((n - 1) as nat);
        assert(binom((n - 1) as nat, 0) == 1);
    }
}

/// A prime `p` divides `binom(p, k)` for `0 < k < p`.
proof fn lemma_prime_divides_binom(p: int, k: nat)
    requires
        is_prime(p),
        0 < k < p,
    ensures
        (binom(p as nat, k) as int) % p == 0,
{
    lemma_binom_absorb(p as nat, k);
    let c = binom((p - 1) as nat, (k - 1) as nat) as int;
    lemma_mod_multiples_vanish(c, 0, p);
    assert(((k * binom(p as nat, k)) as int) % p == 0) by {
        assert(k * binom(p as nat, k) == p * c);
        vstd::arithmetic::div_mod::lemma_mod_multiples_basic(c, p);
        assert(c * p == p * c) by (nonlinear_arith);
    }
    lemma_small_mod(k, p as nat);
    lemma_euclid(p, k as int, binom(p as nat, k) as int);
}

/// The middle terms of `(a + 1)^p` vanish modulo `p`: `S(p, k) ≡ 1` for `1 <= k <= p`.
proof fn lemma_binom_sum_prime(a: int, p: int, k: nat)
    requires
        is_prime(p),
        1 <= k <= p,
    ensures
        binom_sum(a, p as nat, k) % p == 1,
    decreases k,
{
    if k == 1 {
        lemma_pow0(a);
        assert(binom_sum(a, p as nat, 0) == 0);
        lemma_small_mod(1, p as nat);
    } else {
        let j = (k - 1) as nat;
        lemma_binom_sum_prime(a, p, j);
        lemma_prime_divides_binom(p, j);
        let c = binom(p as nat, j) as int;
        let t = c * pow(a, j);
        lemma_mul_mod_noop_left(c, pow(a, j), p);
        assert(t % p == 0) by {
            assert((c % p) * pow(a, j) == 0 * pow(a, j));
            vstd::arithmetic::div_mod::lemma_mod_multiples_basic(0, p);
        }
        vstd::arithmetic::div_mod::lemma_add_mod_noop(binom_sum(a, p as nat, j), t, p);
        lemma_small_mod(1, p as nat);
    }
}

/// `a^p ≡ a (mod p)` for `a >= 0`.
proof fn lemma_pow_prime_self(a: nat, p: int)
    requires
        is_prime(p),
    ensures
        pow(a as int, p as nat) % p == (a as int) % p,
    decreases a,
{
    if a == 0 {
        vstd::arithmetic::power::lemma0_pow(p as nat);
    } else {
        let b = (a - 1) as nat;
        lemma_pow_prime_self(b, p);
        lemma_binomial(b as int, p as nat);
        // S(p, p + 1) = S(p, p) + b^p
        lemma_binom_sum_prime(b as int, p, p as nat);
        assert(binom(p as nat, p as nat) == 1) by {
            lemma_binom_diag(p as nat);
        }
        let s = binom_sum(b as int, p as nat, p as nat);
        let bp = pow(b as int, p as nat);
        assert(binom_sum(b as int, p as nat, (p + 1) as nat) == s + binom(p as nat, p as nat) * bp);
        assert(pow(a as int, p as nat) == pow(b as int + 1, p as nat));
        assert(pow(a as int, p as nat) == s + bp);
        vstd::arithmetic::div_mod::lemma_add_mod_noop(s, bp, p);
        vstd::arithmetic::div_mod::lemma_add_mod_noop(1, b as int, p);
        lemma_small_mod(1, p as nat);
    }
}

proof fn lemma_binom_diag(n: nat)
    ensures
        binom(n, n) == 1,
    decreases n,
{
    if n > 0 {
        lemma_binom_diag((n - 1) as nat);
        lemma_binom_above((n - 1) as nat, n);
    }
}

/// Fermat's little theorem: `a^(p - 1) ≡ 1 (mod p)` for a prime `p` not dividing `a >= 0`.
pub proof fn lemma_fermat(a: nat, p: int)
    requires
        is_prime(p),
        (a as int) % p != 0,
    ensures
        pow(a as int, (p - 1) as nat) % p == 1,
{
    lemma_pow_prime_self(a, p);
    vstd::arithmetic::power::lemma_pow_adds(a as int, 1, (p - 1) as nat);
    lemma_pow1(a as int);
    let q = pow(a as int, (p - 1) as nat);
    let x = q % p;
    vstd::arithmetic::div_mod::lemma_mod_bound(q, p);
    // a * q ≡ a, so a * x ≡ a
    vstd::arithmetic::div_mod::lemma_mul_mod_noop_right(a as int, q, p);
    if x == 0 {
        assert((a as int) * x == 0);
        lemma_small_mod(0, p as nat);
        assert(false);
    }
    // a * (x - 1) ≡ 0
    assert((a as int) * x == (a as int) * (x - 1) + (a as int)) by (nonlinear_arith);
    vstd::arithmetic::div_mod::lemma_add_mod_noop((a as int) * (x - 1), a as int, p);
    lemma_mod_twice(a as int, p);
    vstd::arithmetic::div_mod::lemma_mod_bound(a as int, p);
    vstd::arithmetic::div_mod::lemma_mod_bound((a as int) * (x - 1), p);
    let r = ((a as int) * (x - 1)) % p;
    let s = (a as int) % p;
    if r + s >= p {
        vstd::arithmetic::div_mod::lemma_mod_add_multiples_vanish(r + s - p, p);
        lemma_small_mod((r + s - p) as nat, p as nat);
    } else {
        lemma_small_mod((r + s) as nat, p as nat);
    }
    assert(r == 0);
    lemma_euclid(p, a as int, x - 1);
    lemma_small_mod((x - 1) as nat, p as nat);
}

} // verus!

//! Greatest common divisors, the extended Euclidean algorithm and modular powers.
use vstd::prelude::*;
use vstd::arithmetic::div_mod::{
    lemma_fundamental_div_mod, lemma_fundamental_div_mod_converse, lemma_mod_multiples_basic,
    lemma_small_mod, lemma_mul_mod_noop, lemma_mul_mod_noop_left, lemma_mul_mod_noop_right,
    lemma_mod_twice, lemma_mod_bound,
};
use vstd::arithmetic::power::{
    pow, lemma_pow0, lemma_pow1, lemma_pow_adds, lemma_pow_multiplies, lemma_square_is_pow2,
    lemma_pow_mod_noop,
};
use vstd::arithmetic::power2::{pow2, lemma_pow2, lemma_pow2_unfold, lemma_pow2_adds};

verus! {

/// Greatest common divisor by Euclid's recursion; `gcd(a, 0) == a`.
pub open spec fn gcd(a: nat, b: nat) -> nat
    decreases b,
{
    if b == 0 {
        a
    } else {
        gcd(b, a % b)
    }
}

pub open spec fn abs(x: int) -> int {
    if x < 0 {
        -x
    } else {
        x
    }
}

/// `k * d`, named so that it can serve as a trigger.
pub open spec fn times(k: int, d: int) -> int {
    k * d
}

/// `d` divides `x`.
pub open spec fn divides(d: int, x: int) -> bool {
    exists|k: int| #[trigger] times(k, d) == x
}

proof fn lemma_divides_combo(d: int, x: int, y: int, q: int)
    requires
        divides(d, x),
        divides(d, y),
    ensures
        divides(d, q * x + y),
{
    let kx = choose|k: int| times(k, d) == x;
    let ky = choose|k: int| times(k, d) == y;
    assert(q * x + y == (q * kx + ky) * d) by (nonlinear_arith)
        requires
            x == kx * d,
            y == ky * d,
    ;
    assert(times(q * kx + ky, d) == q * x + y);
}

/// `gcd(a, b)` divides both `a` and `b`.
pub proof fn lemma_gcd_divides(a: nat, b: nat)
    ensures
        divides(gcd(a, b) as int, a as int),
        divides(gcd(a, b) as int, b as int),
    decreases b,
{
    if b == 0 {
        assert(times(1, a as int) == a);
        assert(times(0, a as int) == 0);
    } else {
        lemma_gcd_divides(b, a % b);
        let ai = a as int;
        let bi = b as int;
        lemma_fundamental_div_mod(ai, bi);
        let g = gcd(a, b) as int;
        lemma_divides_combo(g, bi, ai % bi, ai / bi);
        assert(ai == (ai / bi) * bi + ai % bi) by (nonlinear_arith)
            requires
                ai == bi * (ai / bi) + ai % bi,
        ;
    }
}

/// `gcd(a, b) >= 1` when `b >= 1`.
pub proof fn lemma_gcd_pos(a: nat, b: nat)
    requires
        a > 0 || b > 0,
    ensures
        gcd(a, b) >= 1,
    decreases b,
{
    if b > 0 {
        lemma_gcd_pos(b, a % b);
    }
}

/// If `g` divides `x` and `x > 0`, then `x == (x / g) * g`.
pub proof fn lemma_divides_exact(g: int, x: int)
    requires
        g >= 1,
        divides(g, x),
    ensures
        x == (x / g) * g,
        x % g == 0,
{
    let k = choose|k: int| times(k, g) == x;
    lemma_fundamental_div_mod_converse(x, g, k, 0);
}

/// The Euclidean remainder of `x` by `m`, computed on machine integers.
pub fn rem_euclid_i64(x: i64, m: i64) -> (r: i64)
    requires
        m >= 1,
    ensures
        r == x % m,
        0 <= r < m,
{
    if x >= 0 {
        ((x as u64) % (m as u64)) as i64
    } else {
        let p: u64 = (-(x as i128)) as u64;
        let q: u64 = p % (m as u64);
        proof {
            lemma_neg_mod(x as int, m as int, q as int);
        }
        if q == 0 {
            0
        } else {
            m - (q as i64)
        }
    }
}

/// For negative `x`, `x mod m` is `m - ((-x) mod m)` unless that is `m`.
pub proof fn lemma_neg_mod(x: int, m: int, q: int)
    requires
        x < 0,
        m >= 1,
        q == (-x) % m,
    ensures
        x % m == if q == 0 {
            0
        } else {
            m - q
        },
{
    lemma_fundamental_div_mod(-x, m);
    let d = (-x) / m;
    if q == 0 {
        assert(x == (-d) * m + 0) by (nonlinear_arith)
            requires
                -x == m * d + q,
                q == 0,
        ;
        lemma_fundamental_div_mod_converse(x, m, -d, 0);
    } else {
        assert(x == (-d - 1) * m + (m - q)) by (nonlinear_arith)
            requires
                -x == m * d + q,
        ;
        lemma_fundamental_div_mod_converse(x, m, -d - 1, m - q);
    }
}

/// The extended Euclidean algorithm.
///
/// Returns `(g, x)` with `g == gcd(a mod b, b)`, `a * x ≡ g (mod b)` and `0 <= x < b / g`
/// (or `(b, 0)` when `b` divides `a`).
pub fn inv_gcd(a: i64, b: i64) -> (res: (i64, i64))
    requires
        b >= 1,
    ensures
        ({
            let a0 = a as int % b as int;
            &&& res.0 == gcd(a0 as nat, b as nat)
            &&& (a0 == 0 ==> res.0 == b && res.1 == 0)
            &&& 0 <= res.1
            &&& (a0 != 0 ==> res.1 < b / res.0)
            &&& (a0 * res.1 - res.0) % (b as int) == 0
        }),
{
    let a = rem_euclid_i64(a, b);
    if a == 0 {
        proof {
            assert(gcd(0, b as nat) == gcd(b as nat, 0));
            lemma_mod_multiples_basic(-1, b as int);
        }
        return (b, 0);
    }
    let ghost a0 = a as int;
    let ghost g0 = gcd(b as nat, a as nat);
    let mut s = b;
    let mut t = a;
    let mut m0: i64 = 0;
    let mut m1: i64 = 1;
    let ghost mut k0: int = 1;
    let ghost mut k1: int = 0;
    let ghost mut prev_s: int = b + 1;
    assert(abs(m1 as int) == 1 && abs(m0 as int) == 0);
    assert(s * abs(m1 as int) + t * abs(m0 as int) == b) by (nonlinear_arith)
        requires
            abs(m1 as int) == 1,
            abs(m0 as int) == 0,
            s == b,
    ;
    while t != 0
        invariant
            1 <= b,
            0 < a0 < b,
            a == a0,
            0 <= t < s <= b,
            s == m0 * a0 + k0 * b,
            t == m1 * a0 + k1 * b,
            m0 * m1 <= 0,
            s * abs(m1 as int) + t * abs(m0 as int) <= b,
            s < prev_s,
            prev_s * abs(m0 as int) <= b,
            gcd(s as nat, t as nat) == g0,
        decreases t,
    {
        let u = s / t;
        proof {
            lemma_fundamental_div_mod(s as int, t as int);
            assert(t * u <= s) by (nonlinear_arith)
                requires
                    s == t * u + s % t,
                    s % t >= 0,
            ;
            assert(u >= 1) by (nonlinear_arith)
                requires
                    s == t * u + s % t,
                    s % t < t,
                    t < s,
            ;
            assert(abs(m1 as int) * u <= b) by (nonlinear_arith)
                requires
                    t * u <= s,
                    s * abs(m1 as int) <= b,
                    t >= 1,
                    u >= 1,
                    abs(m1 as int) >= 0,
            ;
            assert(abs(m1 * u) == abs(m1 as int) * u) by (nonlinear_arith)
                requires
                    u >= 1,
            ;
            assert(abs(m0 - m1 * u) == abs(m0 as int) + abs(m1 as int) * u) by (nonlinear_arith)
                requires
                    m0 * m1 <= 0,
                    u >= 1,
            ;
            assert(t * (abs(m0 as int) + abs(m1 as int) * u) <= b) by (nonlinear_arith)
                requires
                    t * u <= s,
                    s * abs(m1 as int) + t * abs(m0 as int) <= b,
                    abs(m1 as int) >= 0,
            ;
            assert(abs(m0 as int) + abs(m1 as int) * u <= b) by (nonlinear_arith)
                requires
                    t * (abs(m0 as int) + abs(m1 as int) * u) <= b,
                    t >= 1,
                    abs(m0 as int) >= 0,
                    abs(m1 as int) >= 0,
                    u >= 1,
            ;
        }
        let ns = t;
        let nt = s - t * u;
        let nm0 = m1;
        let nm1 = m0 - m1 * u;
        proof {
            assert(nt == s % t) by (nonlinear_arith)
                requires
                    s == t * u + s % t,
                    nt == s - t * u,
            ;
            assert(gcd(s as nat, t as nat) == gcd(t as nat, (s % t) as nat));
            assert(nt == nm1 * a0 + (k0 - u * k1) * b) by (nonlinear_arith)
                requires
                    s == m0 * a0 + k0 * b,
                    t == m1 * a0 + k1 * b,
                    nt == s - t * u,
                    nm1 == m0 - m1 * u,
            ;
            assert(nm0 * nm1 <= 0) by (nonlinear_arith)
                requires
                    m0 * m1 <= 0,
                    nm0 == m1,
                    nm1 == m0 - m1 * u,
                    u >= 1,
            ;
            assert(ns * abs(nm1 as int) + nt * abs(nm0 as int) <= b) by (nonlinear_arith)
                requires
                    abs(nm1 as int) == abs(m0 as int) + abs(m1 as int) * u,
                    nm0 == m1,
                    ns == t,
                    nt == s - t * u,
                    s * abs(m1 as int) + t * abs(m0 as int) <= b,
            ;
            prev_s = s as int;
            let nk1 = k0 - u * k1;
            k0 = k1;
            k1 = nk1;
        }
        s = ns;
        t = nt;
        m0 = nm0;
        m1 = nm1;
    }
    proof {
        assert(gcd(s as nat, 0) == s);
        lemma_gcd_divides(b as nat, a as nat);
        lemma_gcd_pos(b as nat, a as nat);
        assert(gcd(a0 as nat, b as nat) == gcd(b as nat, a0 as nat)) by {
            lemma_small_mod(a0 as nat, b as nat);
        }
        lemma_divides_exact(s as int, b as int);
        lemma_divides_exact(s as int, a0);
        assert(a0 == (a0 / (s as int)) * s);
        if m0 != 0 {
            assert(abs(m0 as int) * s < b) by (nonlinear_arith)
                requires
                    s < prev_s,
                    prev_s * abs(m0 as int) <= b,
                    abs(m0 as int) >= 1,
            ;
            assert(abs(m0 as int) < b / s) by (nonlinear_arith)
                requires
                    abs(m0 as int) * s < b,
                    b == (b / s) * s,
                    s >= 1,
            ;
        }
    }
    if m0 < 0 {
        let q = b / s;
        proof {
            let sa = a0 / (s as int);
            assert((a0 * (m0 + q) - s) == (sa - k0) * b) by (nonlinear_arith)
                requires
                    s == m0 * a0 + k0 * b,
                    a0 == sa * s,
                    b == q * s,
            ;
            lemma_mod_multiples_basic(sa - k0, b as int);
        }
        m0 = m0 + q;
    } else {
        proof {
            assert(a0 * m0 - s == (-k0) * b) by (nonlinear_arith)
                requires
                    s == m0 * a0 + k0 * b,
            ;
            lemma_mod_multiples_basic(-k0, b as int);
        }
    }
    (s, m0)
}


/// One step of binary exponentiation: `b^n` is `b^(n mod 2) * (b*b)^(n/2)`, all modulo `m`.
pub proof fn lemma_pow_step(b: int, n: nat, m: int)
    requires
        m > 0,
    ensures
        pow(b, n) % m == ((if n % 2 == 1 {
            b
        } else {
            1
        }) * (pow((b * b) % m, n / 2) % m)) % m,
{
    let h = n / 2;
    let r = n % 2;
    assert(n == 2 * h + r);
    lemma_pow_adds(b, 2 * h, r);
    lemma_pow_multiplies(b, 2, h);
    lemma_square_is_pow2(b);
    lemma_pow0(b);
    lemma_pow1(b);
    let x: int = if r == 1 {
        b
    } else {
        1
    };
    assert(pow(b, r) == x);
    lemma_pow_mod_noop(b * b, h, m);
    let p = pow(b * b, h);
    assert(pow(b, n) == p * x);
    lemma_mul_mod_noop_left(p, x, m);
    lemma_mul_mod_noop_right(x, pow((b * b) % m, h), m);
    vstd::arithmetic::mul::lemma_mul_is_commutative(p, x);
    vstd::arithmetic::mul::lemma_mul_is_commutative(p % m, x);
}

/// `(a * b) mod m` on 32-bit residues.
pub fn mod_mul(a: u32, b: u32, m: u32) -> (r: u32)
    requires
        m >= 1,
    ensures
        r == (a * b) % (m as int),
        r < m,
{
    proof {
        lemma_mod_bound(a * b, m as int);
        assert((a as u64) * (b as u64) <= u64::MAX) by (nonlinear_arith)
            requires
                a <= u32::MAX,
                b <= u32::MAX,
        ;
    }
    ((a as u64) * (b as u64) % (m as u64)) as u32
}

/// `a^n mod m` by binary exponentiation.
pub fn mod_pow(a: u32, n: u64, m: u32) -> (r: u32)
    requires
        m >= 1,
        a < m,
    ensures
        r == pow(a as int, n as nat) % (m as int),
        r < m,
{
    let ghost mi = m as int;
    let mut ret: u32 = 1 % m;
    let mut base = a;
    let mut e = n;
    proof {
        lemma_pow0(a as int);
        lemma_small_mod(0, m as nat);
        lemma_mul_mod_noop_left(1, pow(a as int, n as nat), mi);
    }
    while e > 0
        invariant
            1 <= m,
            mi == m as int,
            ret < m,
            base < m,
            (ret * pow(base as int, e as nat)) % mi == pow(a as int, n as nat) % mi,
        decreases e,
    {
        let ghost old_ret = ret as int;
        let ghost old_base = base as int;
        let ghost old_e = e as nat;
        proof {
            lemma_pow_step(old_base, old_e, mi);
            assert(e & 1 == e % 2) by (bit_vector);
            assert(e >> 1 == e / 2) by (bit_vector);
        }
        if e & 1 == 1 {
            ret = mod_mul(ret, base, m);
        }
        base = mod_mul(base, base, m);
        e = e >> 1;
        proof {
            let x: int = if old_e % 2 == 1 {
                old_base
            } else {
                1
            };
            let q = pow(base as int, e as nat);
            // ret * q ≡ old_ret * x * q ≡ old_ret * pow(old_base, old_e)
            assert(ret as int == (old_ret * x) % mi) by {
                if old_e % 2 != 1 {
                    lemma_small_mod(old_ret as nat, mi as nat);
                }
            }
            lemma_mul_mod_noop_left(old_ret * x, q, mi);
            vstd::arithmetic::mul::lemma_mul_is_associative(old_ret, x, q);
            lemma_mul_mod_noop_right(old_ret, x * q, mi);
            lemma_mul_mod_noop_right(x, q, mi);
            lemma_mul_mod_noop_right(old_ret, pow(old_base, old_e), mi);
        }
    }
    proof {
        lemma_pow0(base as int);
        lemma_small_mod(ret as nat, m as nat);
    }
    ret
}

/// The inverse of `a` modulo `m`, for `a` coprime to `m`.
pub fn mod_inv(a: u32, m: u32) -> (r: u32)
    requires
        1 <= m < 0x8000_0000,
        a < m,
        gcd(a as nat, m as nat) == 1,
    ensures
        r < m,
        (a * r) % (m as int) == 1int % (m as int),
{
    let (g, x) = inv_gcd(a as i64, m as i64);
    proof {
        lemma_small_mod(a as nat, m as nat);
        let ai = a as int;
        let mi = m as int;
        lemma_fundamental_div_mod(ai * x - g, mi);
        let k = (ai * x - g) / mi;
        assert(ai * x == k * mi + 1) by (nonlinear_arith)
            requires
                ai * x - g == mi * k + 0,
                g == 1,
        ;
        lemma_mod_multiples_vanish_alt(k, 1, mi);
        if a != 0 {
            assert(x < mi);
        } else {
            assert(x == 0);
        }
    }
    x as u32
}

/// `(k * m + r) % m == r % m`.
pub proof fn lemma_mod_multiples_vanish_alt(k: int, r: int, m: int)
    requires
        m > 0,
    ensures
        (k * m + r) % m == r % m,
{
    vstd::arithmetic::div_mod::lemma_mod_multiples_vanish(k, r, m);
    vstd::arithmetic::mul::lemma_mul_is_commutative(k, m);
}


/// `x^2 = x * x` and `x^(e1) * x^(e2) = x^(e1 + e2)` modulo `m`, in the form the square-root
/// proof uses: `(x^e)^2 ≡ x^(2e)`.
proof fn lemma_pow_square(x: int, e: nat)
    ensures
        pow(x, e) * pow(x, e) == pow(x, 2 * e),
{
    lemma_pow_adds(x, e, e);
}

/// `(y^(2^k) mod m)^2 ≡ y^(2^(k+1)) (mod m)`.
proof fn lemma_square_pow2(y: int, k: nat, m: int)
    requires
        m >= 1,
    ensures
        ((pow(y, pow2(k)) % m) * (pow(y, pow2(k)) % m)) % m == pow(y, pow2(k + 1)) % m,
{
    lemma_pow2_unfold(k + 1);
    lemma_pow_square(y, pow2(k));
    lemma_mul_mod_noop(pow(y, pow2(k)), pow(y, pow2(k)), m);
}

/// `(y^e mod m)^f ≡ y^(e f) (mod m)`.
proof fn lemma_pow_pow_mod(y: int, e: nat, f: nat, m: int)
    requires
        m >= 1,
    ensures
        pow(pow(y, e) % m, f) % m == pow(y, e * f) % m,
{
    lemma_pow_mod_noop(pow(y, e), f, m);
    lemma_pow_multiplies(y, e, f);
}

/// `(-1)^2 ≡ 1 (mod m)`.
proof fn lemma_minus_one_squared(m: int)
    requires
        m >= 2,
    ensures
        ((m - 1) * (m - 1)) % m == 1,
{
    assert((m - 1) * (m - 1) == m * (m - 2) + 1) by (nonlinear_arith);
    vstd::arithmetic::div_mod::lemma_mod_multiples_vanish(m - 2, 1, m);
    lemma_small_mod(1, m as nat);
}

/// Where Tonelli–Shanks starts, for a prime modulus: `t = a^q` has order dividing `2^(s-1)`
/// and `c = z^q` has order exactly `2^s`, `z` being a non-residue.
proof fn lemma_ts_init(m: int, a: int, z: int, q: nat, s: nat, t: int, c: int)
    requires
        is_prime(m),
        2 <= z < m,
        s >= 1,
        q * pow(2, s) == m - 1,
        pow(a, ((m - 1) / 2) as nat) % m == 1,
        pow(z, ((m - 1) / 2) as nat) % m != 1,
        t == pow(a, q) % m,
        c == pow(z, q) % m,
    ensures
        pow(t, pow2((s - 1) as nat)) % m == 1,
        pow(c, pow2((s - 1) as nat)) % m == m - 1,
{
    let e1 = pow2((s - 1) as nat);
    let h = ((m - 1) / 2) as nat;
    lemma_pow2(s);
    lemma_pow2_unfold(s);
    let qe = q * e1;
    assert(q * (2 * e1) == 2 * (q * e1)) by (nonlinear_arith);
    assert(qe == h);
    lemma_pow_pow_mod(a, q, e1, m);
    lemma_pow_pow_mod(z, q, e1, m);
    let ez = pow(z, h) % m;
    lemma_mod_bound(pow(z, h), m);
    lemma_pow_square(z, h);
    lemma_mul_mod_noop(pow(z, h), pow(z, h), m);
    lemma_small_mod(z as nat, m as nat);
    crate::fermat::lemma_fermat(z as nat, m);
    assert(2 * h == m - 1);
    crate::residue::lemma_sqrt_of_one(m, ez);
}

/// One round of Tonelli–Shanks, for a prime modulus: with `t^(2^i) = 1` for the least such
/// `i`, and `b = c^(2^(level-i-1))`, the new `c = b^2` has order `2^i` and the new
/// `t = t c` has order dividing `2^(i-1)`.
proof fn lemma_ts_step(m: int, level: nat, i: nat, t: int, c: int, b: int, c2: int, t3: int)
    requires
        is_prime(m),
        1 <= i < level,
        0 <= t < m,
        0 <= c < m,
        pow(c, pow2((level - 1) as nat)) % m == m - 1,
        pow(t, pow2(i)) % m == 1,
        pow(t, pow2((i - 1) as nat)) % m != 1,
        b == pow(c, pow2((level - i - 1) as nat)) % m,
        c2 == (b * b) % m,
        t3 == (t * c2) % m,
    ensures
        pow(c2, pow2((i - 1) as nat)) % m == m - 1,
        pow(t3, pow2((i - 1) as nat)) % m == 1,
{
    let ei = pow2((i - 1) as nat);
    // b^(2^i) = c^(2^(level-1)) = -1
    lemma_pow2_adds((level - i - 1) as nat, i);
    lemma_pow_pow_mod(c, pow2((level - i - 1) as nat), pow2(i), m);
    // c2^(2^(i-1)) = b^(2^i)
    lemma_square_is_pow2(b);
    lemma_pow_pow_mod(b, 2, ei, m);
    lemma_pow2_unfold(i);
    // t^(2^(i-1)) = -1
    let v = pow(t, ei) % m;
    lemma_mod_bound(pow(t, ei), m);
    lemma_square_pow2(t, (i - 1) as nat, m);
    crate::residue::lemma_sqrt_of_one(m, v);
    // t3^(2^(i-1)) = t^(2^(i-1)) c2^(2^(i-1)) = (-1)(-1)
    lemma_pow_mod_noop(t * c2, ei, m);
    vstd::arithmetic::power::lemma_pow_distributes(t, c2, ei);
    lemma_mul_mod_noop(pow(t, ei), pow(c2, ei), m);
    lemma_minus_one_squared(m);
}

/// In `m - 1 = q 2^s` with `q` odd: `s >= 1` for odd `m`, and `s == 1` when `m ≡ 3 (mod 4)`.
proof fn lemma_two_adic(m: int, q: int, s: nat)
    requires
        q >= 1,
        q % 2 == 1,
        q * pow(2, s) == m - 1,
    ensures
        m % 2 == 1 ==> s >= 1,
        m % 4 == 3 ==> s == 1,
{
    if s == 0 {
        lemma_pow0(2);
        assert(q == m - 1);
    } else if s >= 2 {
        let p2 = pow(2, (s - 2) as nat);
        lemma_pow_adds(2, 2, (s - 2) as nat);
        assert(pow(2, 2) == 4) by {
            lemma_pow1(2);
            lemma_pow_adds(2, 1, 1);
        }
        assert((m - 1) == 4 * (q * p2)) by (nonlinear_arith)
            requires
                q * pow(2, s) == m - 1,
                pow(2, s) == pow(2, 2) * p2,
                pow(2, 2) == 4,
        ;
    }
}

/// `x` is a square root of `a` modulo `m`.
pub open spec fn is_sqrt_mod(x: int, a: int, m: int) -> bool {
    0 <= x < m && (x * x) % m == a
}

/// A square root of `a` modulo the odd prime `m` (Tonelli–Shanks), or `None`.
///
/// `a <= 1` and `m == 2` give `a` itself. When Euler's criterion `a^((m-1)/2) ≡ 1` fails the
/// answer is `None`. For a prime modulus the answer is `None` exactly when `a` has no square
/// root: a non-residue to start from exists, and every round finds the order it looks for.
/// The search loops are bounded, so for another modulus the function may give up with `None`.
pub fn mod_sqrt(a: u32, m: u32) -> (r: Option<u32>)
    requires
        1 <= m < 0x8000_0000,
        a < m,
    ensures
        (a <= 1 || m == 2) ==> r == Some(a),
        m > 2 && a > 1 && pow(a as int, ((m - 1) / 2) as nat) % (m as int) != 1 ==> r is None,
        m % 4 == 3 && pow(a as int, ((m - 1) / 2) as nat) % (m as int) == 1 ==> r is Some,
        r matches Some(x) ==> x < m && (x * x) % (m as int) == a as int,
        is_prime(m as int) && pow(a as int, ((m - 1) / 2) as nat) % (m as int) == 1 ==> r is Some,
        is_prime(m as int) && (exists|x: int| is_sqrt_mod(x, a as int, m as int)) ==> r is Some,
{
    let ghost mi = m as int;
    if m == 2 || a <= 1 {
        proof {
            if a == 0 {
                assert(a * a == 0);
            } else {
                assert(a == 1);
                assert(a * a == 1);
            }
            lemma_small_mod((a * a) as nat, m as nat);
        }
        return Some(a);
    }
    proof {
        if is_prime(mi) && exists|x: int| is_sqrt_mod(x, a as int, mi) {
            let x = choose|x: int| is_sqrt_mod(x, a as int, mi);
            crate::residue::lemma_euler_of_square(mi, a as int, x);
        }
    }
    let one: u32 = 1;
    let e = mod_pow(a, ((m - 1) / 2) as u64, m);
    if e != one {
        return None;
    }
    let mut q = m - 1;
    let mut s: u32 = 0;
    proof {
        lemma_pow0(2);
    }
    while q % 2 == 0
        invariant
            1 <= q <= m - 1,
            s <= 31,
            q * pow(2, s as nat) == m - 1,
        decreases q,
    {
        proof {
            vstd::arithmetic::power::lemma_pow_adds(2, s as nat, 1);
            vstd::arithmetic::power::lemma_pow1(2);
            vstd::arithmetic::power::lemma_pow_positive(2, s as nat);
            assert((q / 2) * pow(2, (s + 1) as nat) == m - 1) by (nonlinear_arith)
                requires
                    q * pow(2, s as nat) == m - 1,
                    q % 2 == 0,
                    pow(2, (s + 1) as nat) == pow(2, s as nat) * 2,
            ;
            if s == 31 {
                vstd::arithmetic::power2::lemma2_to64();
                vstd::arithmetic::power2::lemma_pow2(31);
                assert(pow(2, 32) == 0x1_0000_0000) by {
                    vstd::arithmetic::power2::lemma_pow2(32);
                }
                assert(q * pow(2, 32) >= 0x1_0000_0000) by (nonlinear_arith)
                    requires
                        q >= 1,
                        pow(2, 32) == 0x1_0000_0000,
                ;
                assert(false);
            }
        }
        q = q / 2;
        s = s + 1;
    }
    proof {
        vstd::arithmetic::power::lemma_pow_positive(2, s as nat);
        lemma_two_adic(mi, q as int, s as nat);
    }
    if s == 1 {
        let r = mod_pow(a, ((m + 1) / 4) as u64, m);
        proof {
            // m - 1 = 2q with q odd, so (m + 1) / 4 * 2 == (m + 1) / 2 == 1 + (m - 1) / 2
            vstd::arithmetic::power::lemma_pow1(2);
            let h = ((m + 1) / 4) as nat;
            let k = ((m - 1) / 2) as nat;
            assert(m - 1 == 2 * q) by (nonlinear_arith)
                requires
                    q * pow(2, s as nat) == m - 1,
                    s == 1,
                    pow(2, 1) == 2,
            ;
            assert(q % 2 == 1);
            assert(k == q);
            assert(2 * h == 1 + k);
            lemma_pow_square(a as int, h);
            lemma_pow_adds(a as int, 1, k);
            vstd::arithmetic::power::lemma_pow1(a as int);
            lemma_mul_mod_noop(pow(a as int, h), pow(a as int, h), mi);
            lemma_mul_mod_noop(a as int, pow(a as int, k), mi);
            lemma_small_mod(a as nat, m as nat);
            lemma_small_mod(1, m as nat);
        }
        return Some(r);
    }
    let ghost h = ((m - 1) / 2) as nat;
    let mut z: u32 = 2;
    while z < m && mod_pow(z, ((m - 1) / 2) as u64, m) == one
        invariant
            2 <= z <= m,
            one == 1,
            h == ((m - 1) / 2) as nat,
            forall|w: int| 2 <= w < z ==> #[trigger] pow(w, h) % (m as int) == 1,
        decreases m - z,
    {
        z = z + 1;
    }
    if z == m {
        proof {
            if is_prime(mi) {
                crate::residue::lemma_nonresidue_exists(mi);
            }
        }
        return None;
    }
    let mut level = s;
    let mut c = mod_pow(z, q as u64, m);
    let mut t = mod_pow(a, q as u64, m);
    let mut r = mod_pow(a, ((q + 1) / 2) as u64, m);
    proof {
        // r^2 = a^(q+1) = a * a^q = a * t
        let h1 = ((q + 1) / 2) as nat;
        assert(2 * h1 == q + 1);
        lemma_pow_square(a as int, h1);
        lemma_pow_adds(a as int, 1, q as nat);
        vstd::arithmetic::power::lemma_pow1(a as int);
        lemma_mul_mod_noop(pow(a as int, h1), pow(a as int, h1), mi);
        lemma_mul_mod_noop(a as int, pow(a as int, q as nat), mi);
        lemma_small_mod(a as nat, m as nat);
        if is_prime(mi) {
            assert(mi % 2 != 0);
            if s == 0 {
                lemma_pow0(2);
            }
            lemma_ts_init(mi, a as int, z as int, q as nat, s as nat, t as int, c as int);
        }
    }
    while t != one
        invariant
            2 < m < 0x8000_0000,
            m % 4 != 3,
            mi == m as int,
            one == 1,
            a < m,
            a > 1,
            r < m,
            t < m,
            c < m,
            level <= 31,
            (r * r) % mi == (a * t) % mi,
            is_prime(mi) ==> 1 <= level && pow(t as int, pow2((level - 1) as nat)) % mi == 1
                && pow(c as int, pow2((level - 1) as nat)) % mi == mi - 1,
        decreases level,
    {
        let mut i: u32 = 0;
        let mut t2 = t;
        proof {
            lemma_pow2(0);
            lemma_pow0(2);
            vstd::arithmetic::power::lemma_pow1(t as int);
            lemma_small_mod(t as nat, m as nat);
        }
        while t2 != one && i < level
            invariant
                i <= level,
                t2 < m,
                1 <= m,
                mi == m as int,
                one == 1,
                t < m,
                t != 1,
                t2 == pow(t as int, pow2(i as nat)) % mi,
                i >= 1 ==> pow(t as int, pow2((i - 1) as nat)) % mi != 1,
                is_prime(mi) ==> i < level && pow(t as int, pow2((level - 1) as nat)) % mi == 1,
            decreases level - i,
        {
            proof {
                lemma_square_pow2(t as int, i as nat, mi);
            }
            t2 = mod_mul(t2, t2, m);
            i = i + 1;
        }
        if t2 != one {
            return None;
        }
        if i >= level {
            return None;
        }
        let sh: u64 = (level - i - 1) as u64;
        proof {
            vstd::bits::lemma_u64_pow2_no_overflow(sh as nat);
            vstd::bits::lemma_u64_shl_is_mul(1, sh);
        }
        let b = mod_pow(c, 1u64 << sh, m);
        let ghost old_c = c as int;
        let ghost old_level = level;
        level = i;
        c = mod_mul(b, b, m);
        let ghost old_t = t as int;
        let ghost old_r = r as int;
        t = mod_mul(t, c, m);
        r = mod_mul(r, b, m);
        proof {
            let bi = b as int;
            // r'^2 = r^2 b^2 ≡ a t b^2 = a t'
            lemma_mul_mod_noop(old_r * bi, old_r * bi, mi);
            assert((old_r * bi) * (old_r * bi) == (old_r * old_r) * (bi * bi)) by (nonlinear_arith);
            lemma_mul_mod_noop(old_r * old_r, bi * bi, mi);
            lemma_mul_mod_noop(a * old_t, bi * bi, mi);
            assert((a * old_t) * (bi * bi) == a * (old_t * (bi * bi))) by (nonlinear_arith);
            lemma_mul_mod_noop(old_t, bi * bi, mi);
            lemma_mul_mod_noop(a as int, old_t * (bi * bi), mi);
            lemma_mul_mod_noop(a as int, (old_t * ((bi * bi) % mi)) % mi, mi);
            lemma_mul_mod_noop(old_t, (bi * bi) % mi, mi);
            lemma_mod_twice(bi * bi, mi);
            lemma_mod_twice(old_t * (bi * bi), mi);
            lemma_mod_twice(a as int, mi);
            if is_prime(mi) {
                if i == 0 {
                    lemma_pow2(0);
                    lemma_pow0(2);
                    vstd::arithmetic::power::lemma_pow1(old_t);
                    lemma_small_mod(old_t as nat, m as nat);
                }
                lemma_ts_step(mi, old_level as nat, i as nat, old_t, old_c, bi, c as int, t as int);
            }
        }
    }
    proof {
        lemma_small_mod(a as nat, m as nat);
    }
    Some(r)
}


/// Barrett reduction: multiplication modulo a modulus fixed at run time, without division.
///
/// `m == 0` stands for "no modulus set".
#[derive(Clone, Copy)]
pub struct Barrett {
    pub m: u32,
    pub im: u64,
}

/// The quotient estimate `(z * im) >> 64` is the true quotient or one more.
proof fn lemma_barrett_estimate(m: int, z: int, im: int, x: int)
    requires
        2 <= m < 0x8000_0000,
        0 <= z < m * m,
        im == (0xffff_ffff_ffff_ffffint / m) + 1,
        x == (z * im) / 0x1_0000_0000_0000_0000int,
    ensures
        x == z / m || x == z / m + 1,
{
    let t: int = 0x1_0000_0000_0000_0000int;
    let f = 0xffff_ffff_ffff_ffffint / m;
    let rr = 0xffff_ffff_ffff_ffffint % m;
    lemma_fundamental_div_mod(0xffff_ffff_ffff_ffffint, m);
    let d = m - 1 - rr;
    assert(im * m == t + d) by (nonlinear_arith)
        requires
            0xffff_ffff_ffff_ffffint == m * f + rr,
            im == f + 1,
            d == m - 1 - rr,
            t == 0x1_0000_0000_0000_0000int,
    ;
    let q = z / m;
    lemma_fundamental_div_mod(z, m);
    lemma_fundamental_div_mod(z * im, t);
    assert(0 <= d < m);
    assert(m * m < t) by (nonlinear_arith)
        requires
            m < 0x8000_0000,
            m >= 0,
            t == 0x1_0000_0000_0000_0000int,
    ;
    assert(z * d < m * t) by (nonlinear_arith)
        requires
            0 <= z < m * m,
            0 <= d < m,
            m * m < t,
            m >= 2,
    ;
    assert((z * im) * m == z * t + z * d) by (nonlinear_arith)
        requires
            im * m == t + d,
    ;
    assert(z >= q * m && z < (q + 1) * m) by (nonlinear_arith)
        requires
            z == m * q + z % m,
            0 <= z % m < m,
    ;
    assert(z * im >= q * t) by (nonlinear_arith)
        requires
            (z * im) * m == z * t + z * d,
            z >= q * m,
            z * d >= 0,
            m >= 1,
            q >= 0,
            t > 0,
    ;
    assert(z * im < (q + 2) * t) by (nonlinear_arith)
        requires
            (z * im) * m == z * t + z * d,
            z < (q + 1) * m,
            z * d < m * t,
            m >= 1,
            t > 0,
    ;
    assert(x >= q) by (nonlinear_arith)
        requires
            z * im == t * x + (z * im) % t,
            (z * im) % t < t,
            z * im >= q * t,
            t > 0,
    ;
    assert(x < q + 2) by (nonlinear_arith)
        requires
            z * im == t * x + (z * im) % t,
            (z * im) % t >= 0,
            z * im < (q + 2) * t,
            t > 0,
    ;
}

impl Barrett {
    pub open spec fn wf(&self) -> bool {
        &&& 1 <= self.m < 0x8000_0000
        &&& self.im == (if self.m == 1 {
            0
        } else {
            (0xffff_ffff_ffff_ffffint / (self.m as int)) + 1
        })
    }

    /// The "no modulus set" value.
    pub fn unset() -> (r: Self)
        ensures
            r.m == 0,
    {
        Barrett { m: 0, im: 0 }
    }

    /// Precomputes `ceil(2^64 / m)` (as `0` when `m == 1`, where it wraps).
    pub fn new(m: u32) -> (r: Self)
        requires
            1 <= m < 0x8000_0000,
        ensures
            r.m == m,
            r.wf(),
    {
        let f = u64::MAX / (m as u64);
        proof {
            if m == 1 {
                assert(f == u64::MAX) by (nonlinear_arith)
                    requires
                        f == (u64::MAX as int) / (m as int),
                        m == 1,
                ;
            } else {
                assert(f < u64::MAX) by (nonlinear_arith)
                    requires
                        f == (u64::MAX as int) / (m as int),
                        m >= 2,
                ;
            }
        }
        Barrett { m, im: f.wrapping_add(1) }
    }

    /// `a * b % m`, for `a, b < m`.
    pub fn mul(&self, a: u32, b: u32) -> (r: u32)
        requires
            self.wf(),
            a < self.m,
            b < self.m,
        ensures
            r == (a * b) % (self.m as int),
    {
        let m = self.m;
        proof {
            assert((a as int) * (b as int) < (m as int) * (m as int)) by (nonlinear_arith)
                requires
                    a < m,
                    b < m,
            ;
            assert((m as int) * (m as int) < 0x4000_0000_0000_0000) by (nonlinear_arith)
                requires
                    m < 0x8000_0000,
            ;
        }
        let z = a as u64 * b as u64;
        proof {
            assert((z as u128) * (self.im as u128) <= u128::MAX) by (nonlinear_arith)
                requires
                    z <= u64::MAX,
                    self.im <= u64::MAX,
            ;
        }
        let p: u128 = z as u128 * self.im as u128;
        proof {
            assert(p >> 64 == p / 0x1_0000_0000_0000_0000) by (bit_vector);
            assert(p / 0x1_0000_0000_0000_0000 <= u64::MAX) by (nonlinear_arith)
                requires
                    p <= u128::MAX,
            ;
        }
        let x = (p >> 64) as u64;
        proof {
            lemma_fundamental_div_mod(z as int, m as int);
            if m == 1 {
                assert(p == 0) by (nonlinear_arith)
                    requires
                        p == (z as u128) * (self.im as u128),
                        self.im == 0,
                ;
                assert(x == 0);
                assert(z == 0) by (nonlinear_arith)
                    requires
                        a < 1,
                        z == a * b,
                ;
            } else {
                lemma_barrett_estimate(m as int, z as int, self.im as int, x as int);
            }
        }
        let xm = x.wrapping_mul(m as u64);
        proof {
            let q = (z as int) / (m as int);
            assert(x * m <= z + m) by (nonlinear_arith)
                requires
                    x == q || x == q + 1,
                    q * m <= z,
                    m >= 1,
                    q == (z as int) / (m as int),
                    z as int == m * q + (z as int) % (m as int),
            ;
            assert(xm == x * m);
        }
        let w = z.wrapping_sub(xm);
        let v = #[verifier::truncate] (w as u32);
        proof {
            assert(v == w % 0x1_0000_0000) by (bit_vector)
                requires
                    v == #[verifier::truncate] (w as u32),
            ;
            let q = (z as int) / (m as int);
            let rem = (z as int) % (m as int);
            assert(z as int == m * q + rem);
            if x == q + 1 {
                assert(xm == z + m - rem) by (nonlinear_arith)
                    requires
                        xm == x * m,
                        x == q + 1,
                        z as int == m * q + rem,
                ;
            } else {
                assert(xm == z - rem) by (nonlinear_arith)
                    requires
                        xm == x * m,
                        x == q,
                        z as int == m * q + rem,
                ;
            }
        }
        if v >= m {
            proof {
                let q = (z as int) / (m as int);
                let rem = (z as int) % (m as int);
                assert(x == q + 1);
                assert(w == 0x1_0000_0000_0000_0000 + rem - m);
                assert(v == 0x1_0000_0000 + rem - m);
            }
            v.wrapping_add(m)
        } else {
            proof {
                let q = (z as int) / (m as int);
                let rem = (z as int) % (m as int);
                if x == q + 1 {
                    assert(w == 0x1_0000_0000_0000_0000 + rem - m);
                    assert(v == 0x1_0000_0000 + rem - m);
                    assert(false);
                }
            }
            v
        }
    }
}


/// `p` is a prime: at least 2 and without a divisor strictly between 1 and `p`.
pub open spec fn is_prime(p: int) -> bool {
    p >= 2 && forall|d: int| 2 <= d < p ==> #[trigger] (p % d) != 0
}

/// Bézout coefficients: `s * a + t * b == gcd(a, b)`.
proof fn lemma_bezout(a: nat, b: nat) -> (st: (int, int))
    ensures
        st.0 * a + st.1 * b == gcd(a, b),
    decreases b,
{
    if b == 0 {
        (1, 0)
    } else {
        let (s, t) = lemma_bezout(b, a % b);
        let ai = a as int;
        let bi = b as int;
        lemma_fundamental_div_mod(ai, bi);
        let q = ai / bi;
        assert(t * ai + (s - t * q) * bi == s * bi + t * (ai % bi)) by (nonlinear_arith)
            requires
                ai == bi * q + ai % bi,
        ;
        (t, s - t * q)
    }
}

/// A divisor `d >= 1` of `x > 0` is at most `x`.
proof fn lemma_divisor_le(d: int, x: int)
    requires
        d >= 1,
        x > 0,
        divides(d, x),
    ensures
        d <= x,
{
    let k = choose|k: int| times(k, d) == x;
    assert(k >= 1) by (nonlinear_arith)
        requires
            k * d == x,
            d >= 1,
            x > 0,
    ;
    assert(k * d >= d) by (nonlinear_arith)
        requires
            k >= 1,
            d >= 1,
    ;
}

/// A divisor `n >= 1` of `m - 1` is coprime to `m`.
pub proof fn lemma_divisor_of_pred_coprime(n: int, m: int)
    requires
        n >= 1,
        m >= 1,
        (m - 1) % n == 0,
    ensures
        gcd(n as nat, m as nat) == 1,
{
    let d = gcd(n as nat, m as nat) as int;
    lemma_gcd_divides(n as nat, m as nat);
    lemma_gcd_pos(n as nat, m as nat);
    vstd::arithmetic::div_mod::lemma_fundamental_div_mod(m - 1, n);
    let kn = choose|k: int| times(k, d) == n;
    let q = (m - 1) / n;
    assert(times(q * kn, d) == m - 1) by (nonlinear_arith)
        requires
            kn * d == n,
            m - 1 == n * q,
    ;
    lemma_divides_combo(d, m - 1, m, -1);
    assert(-1 * (m - 1) + m == 1);
    lemma_divisor_le(d, 1);
}

/// `1` and `2` are units modulo any `m > 1`, and modulo odd `m` respectively.
pub proof fn lemma_small_units(m: int)
    requires
        m >= 2,
    ensures
        gcd(1, m as nat) == 1,
        m % 2 == 1 ==> gcd(2, m as nat) == 1,
{
    lemma_small_mod(1, m as nat);
    assert(gcd(1, 0) == 1);
    assert((m as nat) % 1 == 0);
    assert(gcd(m as nat, 1) == gcd(1, 0));
    assert(gcd(1, m as nat) == gcd(m as nat, 1));
    if m % 2 == 1 {
        let d = gcd(2, m as nat) as int;
        lemma_gcd_divides(2, m as nat);
        lemma_gcd_pos(2, m as nat);
        lemma_divisor_le(d, 2);
        if d == 2 {
            lemma_divides_exact(2, m);
        }
    }
}

/// A positive residue below a prime is coprime to it.
pub proof fn lemma_prime_coprime(p: int, g: int)
    requires
        is_prime(p),
        1 <= g < p,
    ensures
        gcd(g as nat, p as nat) == 1,
{
    let d = gcd(g as nat, p as nat) as int;
    lemma_gcd_divides(g as nat, p as nat);
    lemma_gcd_pos(g as nat, p as nat);
    lemma_divisor_le(d, g);
    if d >= 2 {
        lemma_divides_exact(d, p);
    }
}

/// Euclid's lemma: a prime dividing a product divides one of the factors.
pub proof fn lemma_euclid(q: int, a: int, b: int)
    requires
        is_prime(q),
        a >= 0,
        b >= 0,
        (a * b) % q == 0,
        a % q != 0,
    ensures
        b % q == 0,
{
    let g = gcd(q as nat, a as nat) as int;
    lemma_gcd_divides(q as nat, a as nat);
    lemma_gcd_pos(q as nat, a as nat);
    lemma_divisor_le(g, q);
    if g == q {
        lemma_divides_exact(g, a);
    } else if g >= 2 {
        lemma_divides_exact(g, q);
        assert(q % g != 0);
    }
    assert(g == 1);
    let (s, t) = lemma_bezout(q as nat, a as nat);
    lemma_fundamental_div_mod(a * b, q);
    let k = (a * b) / q;
    assert(b == (s * b + t * k) * q) by (nonlinear_arith)
        requires
            s * q + t * a == 1,
            a * b == q * k,
    ;
    lemma_fundamental_div_mod_converse(b, q, s * b + t * k, 0);
}

/// `(a + b) mod m` for residues `a, b < m < 2^31`.
pub fn mod_add(a: u32, b: u32, m: u32) -> (r: u32)
    requires
        a < m,
        b < m,
        m < 0x8000_0000,
    ensures
        r == (a + b) % (m as int),
        r < m,
{
    let mut v = a + b;
    if v >= m {
        v = v - m;
    }
    proof {
        vstd::arithmetic::div_mod::lemma_mod_sub_multiples_vanish(a + b, m as int);
        lemma_small_mod(v as nat, m as nat);
    }
    v
}

/// `(a - b) mod m` for residues `a, b < m < 2^31`.
pub fn mod_sub(a: u32, b: u32, m: u32) -> (r: u32)
    requires
        a < m,
        b < m,
        m < 0x8000_0000,
    ensures
        r == (a - b) % (m as int),
        r < m,
{
    let v = if a >= b {
        a - b
    } else {
        a + (m - b)
    };
    proof {
        if a >= b {
            lemma_small_mod(v as nat, m as nat);
        } else {
            vstd::arithmetic::div_mod::lemma_mod_add_multiples_vanish(a - b, m as int);
            lemma_small_mod(v as nat, m as nat);
        }
    }
    v
}

} // verus!

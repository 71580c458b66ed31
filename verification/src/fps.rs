//! Formal power series over `Z/MZ`, truncated to an explicit number of terms.
//!
//! `inv`, `log`, `exp`, `pow` and `sqrt` are Newton iterations that double the precision at each
//! step, so they cost `O(n log n)` with an NTT-friendly prime modulus such as `998244353`.
use vstd::prelude::*;
use vstd::std_specs::ops::{AddSpecImpl, SubSpecImpl, MulSpecImpl, NegSpecImpl};
use core::ops::{Add, Sub, Mul, Neg, AddAssign, SubAssign, MulAssign};
use crate::modint::ModInt;
use crate::numtheory::{gcd, lemma_small_units, is_prime, is_sqrt_mod};
use crate::poly::{cmul, delta, deriv, spow};
use vstd::arithmetic::power::pow;
use crate::residue::coeff;
use crate::dft::sum;
use crate::convolution::{lemma_truncated_product, ntt_length};
use crate::convolution::{
    convolution, all_wf, conv_coef, residues, ntt_modulus, ntt_friendly_for, is_pow2,
};

verus! {

/// The coefficients `a[0] + a[1] x + a[2] x^2 + ...`; trailing zeros are kept, so `len()` is the
/// number of terms.
#[derive(PartialEq, Eq, Debug)]
pub struct Fps<const M: u32> {
    coef: Vec<ModInt<M>>,
}

impl<const M: u32> View for Fps<M> {
    type V = Seq<ModInt<M>>;

    closed spec fn view(&self) -> Seq<ModInt<M>> {
        self.coef@
    }
}

/// The coefficient of degree `i`, or `0` beyond the terms.
pub open spec fn coef_at<const M: u32>(s: Seq<ModInt<M>>, i: int) -> int {
    if 0 <= i < s.len() {
        s[i]@
    } else {
        0
    }
}

/// Transforms of every length up to `l` are possible modulo `m`.
pub open spec fn ntt_ready(m: int, l: int) -> bool {
    &&& ntt_modulus(m)
    &&& forall|x: int| 1 <= x <= l ==> #[trigger] ntt_friendly_for(m, x)
}

/// Of two powers of two, the larger is at least twice the smaller.
proof fn lemma_pow2_gap(a: usize, b: usize)
    requires
        is_pow2(a),
        is_pow2(b),
        a > b,
    ensures
        a >= 2 * b,
{
    assert(a >= 2 * b) by (bit_vector)
        requires
            a > 0,
            a & ((a - 1) as usize) == 0,
            b > 0,
            b & ((b - 1) as usize) == 0,
            a > b,
    ;
}

/// Readiness for `l` reaches up to twice any power of two `k < l`: the transforms the products
/// of such lengths need have lengths at most `2 k`, all of which divide `m - 1` when the one
/// for `l` does.
proof fn lemma_ready_up_to(m: int, l: int, k: usize)
    requires
        ntt_ready(m, l),
        is_pow2(k),
        k < l,
    ensures
        ntt_ready(m, 2 * k),
{
    let kk = (2 * k) as usize;
    assert(ntt_friendly_for(m, l));
    assert(is_pow2(kk) && kk == 2 * k) by (bit_vector)
        requires
            k > 0,
            k & ((k - 1) as usize) == 0,
            k < 0x4000_0000,
            kk == (2 * k) as usize,
    ;
    let top: usize = 0x4000_0000;
    assert(is_pow2(top)) by (bit_vector)
        requires
            top == 0x4000_0000usize,
    ;
    if kk > top {
        lemma_pow2_gap(kk, top);
    }
    assert(kk <= top);
    assert forall|x: int| 1 <= x <= 2 * k implies #[trigger] ntt_friendly_for(m, x) by {
        if x > l {
            assert forall|len: usize| is_pow2(len) && x <= len < 2 * x implies #[trigger] ntt_length(m, len as int) by {
                if len > kk {
                    lemma_pow2_gap(len, kk);
                }
                assert(l <= len < 2 * l);
            }
        } else {
            assert(1 <= x <= l);
        }
    }
}

impl<const M: u32> Fps<M> {
    /// Valid coefficients modulo a modulus in range.
    pub open spec fn wf(&self) -> bool {
        &&& 1 <= M < 0x8000_0000
        &&& all_wf(self@)
    }

    pub fn new(coef: Vec<ModInt<M>>) -> (r: Self)
        ensures
            r@ == coef@,
    {
        Fps { coef }
    }

    /// The zero series with `n` terms.
    pub fn zeros(n: usize) -> (r: Self)
        requires
            1 <= M < 0x8000_0000,
        ensures
            r.wf(),
            r@.len() == n,
            forall|i: int| 0 <= i < n ==> #[trigger] r@[i]@ == 0,
    {
        Fps { coef: vec![ModInt::raw(0); n] }
    }

    /// The series with the single term `c`.
    pub fn constant(c: ModInt<M>) -> (r: Self)
        ensures
            r@ == seq![c],
    {
        Fps { coef: vec![c] }
    }

    /// The series whose coefficients are `values` reduced modulo `M`.
    pub fn from_ints(values: &[i64]) -> (r: Self)
        requires
            1 <= M < 0x8000_0000,
        ensures
            r.wf(),
            r@.len() == values@.len(),
            forall|i: int| 0 <= i < values@.len() ==> #[trigger] r@[i]@ == (values@[i] as int) % (M as int),
    {
        let mut coef: Vec<ModInt<M>> = Vec::new();
        let mut i: usize = 0;
        while i < values.len()
            invariant
                1 <= M < 0x8000_0000,
                i <= values@.len(),
                coef@.len() == i,
                all_wf(coef@),
                forall|t: int| 0 <= t < i ==> #[trigger] coef@[t]@ == (values@[t] as int) % (M as int),
            decreases values@.len() - i,
        {
            coef.push(ModInt::new(values[i]));
            i += 1;
        }
        Fps { coef }
    }

    pub fn len(&self) -> (r: usize)
        ensures
            r == self@.len(),
    {
        self.coef.len()
    }

    pub fn is_empty(&self) -> (r: bool)
        ensures
            r == (self@.len() == 0),
    {
        self.coef.len() == 0
    }

    /// The coefficients.
    pub fn coef(&self) -> (r: &[ModInt<M>])
        ensures
            r@ == self@,
    {
        self.coef.as_slice()
    }

    /// The coefficients, to change in place.
    pub fn coef_mut(&mut self) -> (r: &mut Vec<ModInt<M>>)
        ensures
            r@ == old(self)@,
            final(self)@ == final(r)@,
    {
        &mut self.coef
    }

    pub fn into_vec(self) -> (r: Vec<ModInt<M>>)
        ensures
            r@ == self@,
    {
        self.coef
    }

    /// The coefficient of degree `i`; `0` beyond the terms.
    pub fn at(&self, i: usize) -> (r: ModInt<M>)
        requires
            1 <= M < 0x8000_0000,
            all_wf(self@),
        ensures
            r@ == coef_at(self@, i as int),
            r.wf(),
    {
        if i < self.coef.len() {
            self.coef[i]
        } else {
            ModInt::raw(0)
        }
    }

    /// Exactly `n` terms: padded with zeros or cut.
    pub fn pre(&self, n: usize) -> (r: Self)
        requires
            self.wf(),
        ensures
            r.wf(),
            r@.len() == n,
            forall|i: int| 0 <= i < n ==> #[trigger] r@[i]@ == coef_at(self@, i),
    {
        let mut coef = self.coef.clone();
        proof {
            assert(coef@ == self.coef@);
        }
        coef.resize(n, ModInt::raw(0));
        proof {
            assert forall|i: int| 0 <= i < n implies #[trigger] coef@[i]@ == coef_at(self@, i) && coef@[i].wf() by {
                if i < self@.len() {
                    if n <= self@.len() {
                        assert(coef@[i] == self@.subrange(0, n as int)[i]);
                    } else {
                        assert(coef@[i] == coef@.subrange(0, self@.len() as int)[i]);
                    }
                }
            }
        }
        Fps { coef }
    }

    /// Drops the trailing zero coefficients.
    pub fn shrink(self) -> (r: Self)
        requires
            self.wf(),
        ensures
            r.wf(),
            r@.len() <= self@.len(),
            r@ == self@.subrange(0, r@.len() as int),
            forall|i: int| r@.len() <= i < self@.len() ==> #[trigger] self@[i]@ == 0,
            r@.len() > 0 ==> r@[r@.len() - 1]@ != 0,
    {
        let mut s = self;
        let ghost orig = s@;
        while s.coef.len() > 0 && s.coef[s.coef.len() - 1].val() == 0
            invariant
                s.wf(),
                s@.len() <= orig.len(),
                s@ == orig.subrange(0, s@.len() as int),
                forall|i: int| s@.len() <= i < orig.len() ==> #[trigger] orig[i]@ == 0,
            decreases s@.len(),
        {
            s.coef.pop();
        }
        s
    }

    /// The degree of the lowest non-zero term; `None` when every coefficient is zero.
    pub fn lowest_degree(&self) -> (r: Option<usize>)
        ensures
            r matches Some(d) ==> d < self@.len() && self@[d as int]@ != 0 && forall|i: int|
                0 <= i < d ==> #[trigger] self@[i]@ == 0,
            r is None ==> forall|i: int| 0 <= i < self@.len() ==> #[trigger] self@[i]@ == 0,
    {
        let mut i: usize = 0;
        while i < self.coef.len()
            invariant
                i <= self@.len(),
                forall|t: int| 0 <= t < i ==> #[trigger] self@[t]@ == 0,
            decreases self@.len() - i,
        {
            if self.coef[i].val() != 0 {
                return Some(i);
            }
            i += 1;
        }
        None
    }

    /// Multiplies by `x^k`.
    pub fn shift_up(&self, k: usize) -> (r: Self)
        requires
            self.wf(),
            k + self@.len() <= usize::MAX,
        ensures
            r.wf(),
            is_shifted_up(self@, k as int, r@),
    {
        let mut coef = vec![ModInt::raw(0); k];
        let mut i: usize = 0;
        while i < self.coef.len()
            invariant
                self.wf(),
                k + self@.len() <= usize::MAX,
                i <= self@.len(),
                coef@.len() == k + i,
                all_wf(coef@),
                forall|t: int| 0 <= t < k ==> #[trigger] coef@[t]@ == 0,
                forall|t: int| 0 <= t < i ==> #[trigger] coef@[k + t] == self@[t],
            decreases self@.len() - i,
        {
            coef.push(self.coef[i]);
            i += 1;
        }
        Fps { coef }
    }

    /// Divides by `x^k`, dropping the `k` lowest terms.
    pub fn shift_down(&self, k: usize) -> (r: Self)
        requires
            self.wf(),
        ensures
            r.wf(),
            k <= self@.len() ==> r@ == self@.subrange(k as int, self@.len() as int),
            k > self@.len() ==> r@.len() == 0,
    {
        let mut coef: Vec<ModInt<M>> = Vec::new();
        let mut i: usize = k;
        while i < self.coef.len()
            invariant
                self.wf(),
                k <= i || i == k,
                i >= k,
                k <= self@.len() ==> i <= self@.len() && coef@ == self@.subrange(k as int, i as int),
                k > self@.len() ==> coef@.len() == 0,
                all_wf(coef@),
            decreases self@.len() - i,
        {
            coef.push(self.coef[i]);
            i += 1;
        }
        Fps { coef }
    }

    /// The derivative.
    pub fn derivative(&self) -> (r: Self)
        requires
            self.wf(),
        ensures
            r.wf(),
            is_derivative_of(self@, r@),
    {
        if self.coef.len() <= 1 {
            return Fps { coef: vec![] };
        }
        let mut coef: Vec<ModInt<M>> = Vec::new();
        let mut i: usize = 1;
        while i < self.coef.len()
            invariant
                self.wf(),
                1 <= i <= self@.len(),
                coef@.len() == i - 1,
                all_wf(coef@),
                forall|t: int| 0 <= t < i - 1 ==> #[trigger] coef@[t]@ == (self@[t + 1]@ * (t + 1)) % (M as int),
            decreases self@.len() - i,
        {
            let c = self.coef[i];
            let k = ModInt::<M>::new(i as u64);
            proof {
                ModInt::<M>::lemma_ops(c, k);
                vstd::arithmetic::div_mod::lemma_mul_mod_noop_right(c@, i as int, M as int);
            }
            coef.push(c * k);
            i += 1;
        }
        Fps { coef }
    }

    /// The antiderivative with constant term `0`.  The coefficient of degree `j` is
    /// `a[j - 1]` times the entry `j` of `inverse_table`, which is `a[j - 1] / j` wherever `j`
    /// is invertible.
    pub fn integral(&self) -> (r: Self)
        requires
            self.wf(),
            self@.len() < u32::MAX,
        ensures
            r.wf(),
            is_integral_of(self@, r@),
            forall|j: int|
                1 <= j <= self@.len() ==> #[trigger] r@[j]@ == (self@[j - 1]@ * table_inverse(M as int, j)) % (M as int),
    {
        let n = self.coef.len();
        let mut coef = vec![ModInt::raw(0); n + 1];
        let inv = inverse_table::<M>(n + 1);
        let mut i: usize = 0;
        while i < n
            invariant
                self.wf(),
                n == self@.len(),
                i <= n,
                coef@.len() == n + 1,
                inv@.len() == n + 1,
                all_wf(coef@),
                all_wf(inv@),
                coef@[0]@ == 0,
                forall|t: int|
                    1 <= t < n + 1 && #[trigger] invertible_upto(M as int, t) ==> (inv@[t]@ * t) % (M as int) == 1int % (M as int),
                forall|t: int|
                    0 <= t < i && #[trigger] invertible_upto(M as int, t + 1) ==> (coef@[t + 1]@ * (t + 1)) % (M as int)
                        == self@[t]@,
                forall|j: int| 1 <= j <= i ==> #[trigger] coef@[j]@ == (self@[j - 1]@ * table_inverse(M as int, j)) % (M as int),
                forall|j: int| 1 <= j < n + 1 ==> #[trigger] inv@[j]@ == table_inverse(M as int, j),
            decreases n - i,
        {
            let c = self.coef[i];
            let v = inv[i + 1];
            proof {
                ModInt::<M>::lemma_ops(c, v);
                let m = M as int;
                let j = i + 1;
                assert(c.wf()) by {
                    assert(self@[i as int].wf());
                }
                if invertible_upto(m, j as int) {
                    // (c v mod m) j ≡ c (v j) ≡ c
                    vstd::arithmetic::div_mod::lemma_mul_mod_noop_left(c@ * v@, j as int, m);
                    assert((c@ * v@) * j == c@ * (v@ * j)) by (nonlinear_arith);
                    vstd::arithmetic::div_mod::lemma_mul_mod_noop_right(c@, v@ * j, m);
                    vstd::arithmetic::div_mod::lemma_mul_mod_noop_right(c@, 1, m);
                    vstd::arithmetic::div_mod::lemma_small_mod(c@ as nat, m as nat);
                }
            }
            coef.set(i + 1, c * v);
            i += 1;
        }
        Fps { coef }
    }

    /// The coefficients in reverse order.
    fn reversed(&self) -> (r: Self)
        requires
            self.wf(),
        ensures
            r.wf(),
            r@.len() == self@.len(),
            forall|i: int| 0 <= i < self@.len() ==> #[trigger] r@[i] == self@[self@.len() - 1 - i],
    {
        let mut coef: Vec<ModInt<M>> = Vec::new();
        let mut i: usize = self.coef.len();
        while i > 0
            invariant
                self.wf(),
                i <= self@.len(),
                coef@.len() == self@.len() - i,
                all_wf(coef@),
                forall|t: int| 0 <= t < coef@.len() ==> #[trigger] coef@[t] == self@[self@.len() - 1 - t],
            decreases i,
        {
            i -= 1;
            coef.push(self.coef[i]);
        }
        Fps { coef }
    }

    /// The value at `x`, by Horner's rule.
    pub fn eval(&self, x: ModInt<M>) -> (r: ModInt<M>)
        requires
            self.wf(),
            x.wf(),
        ensures
            r.wf(),
            r@ == poly_eval(residues(self@), x@, 0) % (M as int),
    {
        let ghost s = residues(self@);
        let ghost m = M as int;
        let mut acc = ModInt::<M>::raw(0);
        let mut i: usize = self.coef.len();
        proof {
            vstd::arithmetic::div_mod::lemma_small_mod(0, m as nat);
        }
        while i > 0
            invariant
                self.wf(),
                x.wf(),
                s == residues(self@),
                m == M as int,
                i <= self@.len(),
                acc.wf(),
                acc@ == poly_eval(s, x@, i as int) % m,
            decreases i,
        {
            i -= 1;
            let c = self.coef[i];
            proof {
                assert(self@[i as int].wf());
                ModInt::<M>::lemma_ops(acc, x);
                ModInt::<M>::lemma_ops(ModInt::<M>::from_view((acc@ * x@) % m), c);
                let p = poly_eval(s, x@, i + 1);
                vstd::arithmetic::div_mod::lemma_mul_mod_noop_left(p, x@, m);
                vstd::arithmetic::div_mod::lemma_add_mod_noop(p * x@, c@, m);
                vstd::arithmetic::div_mod::lemma_mod_twice(p * x@, m);
                vstd::arithmetic::div_mod::lemma_small_mod(c@ as nat, m as nat);
                vstd::arithmetic::div_mod::lemma_add_mod_noop((p * x@) % m, c@, m);
                vstd::arithmetic::mul::lemma_mul_is_commutative(p, x@);
                assert(s[i as int] == c@);
            }
            acc = acc * x + c;
        }
        acc
    }

    /// `log` to `n` terms, `∫ f' / f`; the constant term must be `1`.
    pub fn log(&self, n: usize) -> (r: Self)
        requires
            self.wf(),
            coef_at(self@, 0) == 1,
            n > 60 ==> ntt_ready(M as int, 2 * n),
        ensures
            r.wf(),
            r@.len() == n,
            n > 0 ==> r@[0]@ == 0,
            (n <= 32 || is_prime(M as int)) && invertible_upto(M as int, n - 1) ==> forall|t: int|
                0 <= t < n - 1 ==> #[trigger] (cmul(deriv(residues(r@)), residues(self@), t) % (M as int)) == ((t + 1)
                    * coef_at(self@, t + 1)) % (M as int),
    {
        if n == 0 {
            return Fps { coef: vec![] };
        }
        proof {
            assert(self@[0].wf());
            lemma_small_units(M as int);
            if n > 60 {
                assert(ntt_friendly_for(M as int, 2 * n as int));
            }
        }
        let pn = self.pre(n);
        let d = pn.derivative();
        let inv = self.inv(n);
        proof {
            if d@.len() > 60 && inv@.len() > 60 {
                assert(ntt_friendly_for(M as int, d@.len() + inv@.len() - 1));
            }
        }
        let mut prod = convolution(d.coef(), inv.coef());
        let ghost pc = prod@;
        prod.truncate(n - 1);
        let g = Fps { coef: prod };
        let ig = g.integral();
        let r = ig.pre(n);
        proof {
            if (n <= 32 || is_prime(M as int)) && invertible_upto(M as int, n - 1) && n >= 2 {
                lemma_log_law(self@, pn@, d@, inv@, pc, g@, ig@, r@);
            }
        }
        r
    }

    /// `exp` to `n` terms; the constant term must be `0`.  Each doubling step needs the constant
    /// term of the iterate to be `1`, which the step keeps; an iterate without it would end the
    /// doubling.
    pub fn exp(&self, n: usize) -> (r: Self)
        requires
            self.wf(),
            M >= 2,
            coef_at(self@, 0) == 0,
            n > 30 ==> ntt_ready(M as int, 2 * n),
        ensures
            r.wf(),
            r@.len() == n,
            n > 0 && (n <= 30 || is_prime(M as int)) ==> r@[0]@ == 1,
            (n <= 30 || is_prime(M as int)) && invertible_upto(M as int, 2 * n) ==> exp_law(
                residues(self@),
                residues(r@),
                n as int,
                M as int,
            ),
    {
        if n == 0 {
            return Fps { coef: vec![] };
        }
        let ghost exact = n <= 30 || is_prime(M as int);
        let ghost lawful = exact && invertible_upto(M as int, 2 * n);
        proof {
            if n > 30 {
                assert(ntt_friendly_for(M as int, 2 * n as int));
            }
        }
        let one = ModInt::<M>::new(1u32);
        proof {
            vstd::arithmetic::div_mod::lemma_small_mod(1, M as nat);
        }
        let mut g = Fps { coef: vec![one] };
        let mut k: usize = 1;
        proof {
            assert(is_pow2(1usize)) by (bit_vector);
        }
        while k < n
            invariant
                self.wf(),
                M >= 2,
                one.wf(),
                one@ == 1,
                n > 30 ==> ntt_ready(M as int, 2 * n),
                n <= 0x4000_0000,
                1 <= k < 2 * n,
                is_pow2(k),
                g.wf(),
                g@.len() == k,
                exact == (n <= 30 || is_prime(M as int)),
                exact ==> g@[0]@ == 1,
                coef_at(self@, 0) == 0,
                lawful == (exact && invertible_upto(M as int, 2 * n)),
                lawful ==> exp_law(residues(self@), residues(g@), k as int, M as int),
            ensures
                lawful ==> k >= n,
                g.wf(),
                g@.len() == k,
                exact ==> g@[0]@ == 1,
                lawful ==> exp_law(residues(self@), residues(g@), k as int, M as int),
            decreases 2 * n - k,
        {
            if g.at(0).val() != 1 {
                break;
            }
            let ghost k_old = k;
            proof {
                assert(is_pow2((k * 2) as usize)) by (bit_vector)
                    requires
                        k > 0,
                        k & ((k - 1) as usize) == 0,
                        k < 0x4000_0000,
                ;
            }
            k *= 2;
            proof {
                if k > 60 {
                    lemma_ready_up_to(M as int, 2 * n as int, k);
                }
            }
            let lg = g.log(k);
            let pk = self.pre(k);
            let ghost pkv = pk@;
            let ghost lgv = lg@;
            let mut t = pk - lg;
            let ghost tv = t@;
            let c0 = t.coef[0];
            proof {
                assert(t@[0].wf());
                ModInt::<M>::lemma_ops(c0, one);
            }
            t.coef.set(0, c0 + one);
            proof {
                assert forall|i: int| 0 <= i < t@.len() implies #[trigger] t@[i].wf() by {}
                if g@.len() > 60 && t@.len() > 60 {
                    assert(1 <= g@.len() + t@.len() - 1 <= 2 * k);
                    assert(ntt_friendly_for(M as int, g@.len() + t@.len() - 1));
                }
            }
            let mut next = convolution(g.coef(), t.coef());
            let ghost nc = next@;
            next.truncate(k);
            proof {
                if exact {
                    let sg = residues(g@);
                    let st = residues(t@);
                    assert(t@[0]@ == (c0@ + 1) % (M as int));
                    assert(c0 == tv[0]);
                    assert(c0@ == (coef_at(pkv, 0) - coef_at(lgv, 0)) % (M as int));
                    assert(coef_at(pkv, 0) == 0);
                    assert(coef_at(lgv, 0) == 0);
                    vstd::arithmetic::div_mod::lemma_small_mod(0, M as nat);
                    vstd::arithmetic::div_mod::lemma_small_mod(1, M as nat);
                    crate::convolution::lemma_conv_coef_is_cmul(sg, st, 0);
                    let f = |i: int| coeff(sg, i) * coeff(st, 0 - i);
                    assert(cmul(sg, st, 0) == sum(f, 1)) by {
                        assert((|i: int| coeff(sg, i) * coeff(st, 0 - i)) =~= f);
                    }
                    assert(sum(f, 1) == sum(f, 0) + f(0));
                    assert(t@[0]@ == 1);
                    assert(coeff(st, 0) == 1);
                    assert(coeff(sg, 0) == 1);
                    assert(cmul(sg, st, 0) == 1);
                    assert(nc[0]@ == conv_coef(sg, st, 0) % (M as int));
                    assert(next@[0] == nc[0]);
                }
                if lawful {
                    let m = M as int;
                    let fs = residues(self@);
                    let sg = residues(g@);
                    let sh = residues(lgv);
                    let st = residues(t@);
                    let sn = residues(next@);
                    lemma_coef_at_coeff(self@);
                    lemma_coef_at_coeff(g@);
                    lemma_coef_at_coeff(lgv);
                    lemma_coef_at_coeff(pkv);
                    assert(k <= 32 || is_prime(m)) by {
                        if !is_prime(m) {
                            assert(k_old < 30);
                            assert(k <= 32) by (bit_vector)
                                requires
                                    k == k_old * 2,
                                    k_old < 30,
                                    k_old > 0,
                                    k_old & ((k_old - 1) as usize) == 0,
                            ;
                        }
                    }
                    assert(invertible_upto(m, k - 1)) by {
                        assert forall|dv: int| 2 <= dv <= k - 1 implies #[trigger] (m % dv) != 0 by {
                            assert(dv <= 2 * n);
                        }
                    }
                    assert(invertible_upto(m, k_old as int)) by {
                        assert forall|dv: int| 2 <= dv <= k_old implies #[trigger] (m % dv) != 0 by {
                            assert(dv <= 2 * n);
                        }
                    }
                    assert forall|j: int| 0 <= j < 2 * k_old implies #[trigger] (coeff(st, j) % m) == (delta(j)
                        + coeff(fs, j) - coeff(sh, j)) % m by {
                        if j == 0 {
                            assert(coeff(fs, 0) == 0);
                            assert(coeff(sh, 0) == 0);
                        } else {
                            assert(t@[j] == tv[j]);
                            assert(tv[j]@ == (coef_at(pkv, j) - coef_at(lgv, j)) % m);
                            assert(coef_at(pkv, j) == coef_at(self@, j));
                            vstd::arithmetic::div_mod::lemma_mod_twice(coef_at(pkv, j) - coef_at(lgv, j), m);
                        }
                    }
                    assert forall|j: int| 0 <= j < 2 * k_old implies #[trigger] (coeff(sn, j) % m) == crate::poly::cmul(
                        sg,
                        st,
                        j,
                    ) % m by {
                        assert(next@[j] == nc[j]);
                        crate::convolution::lemma_conv_coef_is_cmul(sg, st, j);
                        vstd::arithmetic::div_mod::lemma_mod_twice(crate::poly::cmul(sg, st, j), m);
                    }
                    lemma_exp_step(fs, sg, sh, st, sn, k_old as int, m);
                }
            }
            g = Fps { coef: next };
        }
        let r = g.pre(n);
        proof {
            if lawful {
                lemma_coef_at_coeff(g@);
                lemma_coef_at_coeff(r@);
                lemma_exp_law_prefix(residues(self@), residues(g@), residues(r@), k as int, n as int, M as int);
            }
        }
        r
    }

    /// `self^e` to `n` terms.  With the lowest non-zero term `c x^d`, the result is
    /// `c^e x^(d e) exp(e log(f / (c x^d)))`, all zero when `d e >= n`; `self^0` is `1`.
    pub fn pow(&self, e: u64, n: usize) -> (r: Self)
        requires
            self.wf(),
            lowest_is_unit(self@),
            n > 30 ==> ntt_ready(M as int, 2 * n),
        ensures
            r.wf(),
            r@.len() == n,
            n > 0 && e == 0 ==> r@[0]@ == 1int % (M as int) && forall|i: int| 1 <= i < n ==> #[trigger] r@[i]@ == 0,
            (forall|i: int| 0 <= i < self@.len() ==> #[trigger] self@[i]@ == 0) && e > 0 ==> forall|i: int|
                0 <= i < n ==> #[trigger] r@[i]@ == 0,
            forall|d: int|
                #[trigger] is_lowest(self@, d) && e > 0 ==> forall|i: int|
                    0 <= i < n && i < d * e ==> #[trigger] r@[i]@ == 0,
            is_prime(M as int) && invertible_upto(M as int, 2 * n) ==> forall|t: int|
                0 <= t < n ==> #[trigger] r@[t]@ == coeff(spow(residues(self@), e as nat), t) % (M as int),
    {
        if n == 0 {
            return Fps { coef: vec![] };
        }
        if e == 0 {
            let mut coef = vec![ModInt::raw(0); n];
            coef.set(0, ModInt::new(1u32));
            proof {
                vstd::arithmetic::div_mod::lemma_small_mod(0, M as nat);
                assert forall|t: int| 0 <= t < n implies #[trigger] coef@[t]@ == coeff(
                    spow(residues(self@), e as nat),
                    t,
                ) % (M as int) by {
                    assert(spow(residues(self@), 0) == seq![1int]);
                }
            }
            return Fps { coef };
        }
        let low = match self.lowest_degree() {
            Some(low) => low,
            None => {
                let z = Self::zeros(n);
                proof {
                    let fs = residues(self@);
                    lemma_coef_at_coeff(self@);
                    assert forall|i: int| #[trigger] coeff(fs, i) == if i >= 0 {
                        coeff(Seq::<int>::empty(), i - 0)
                    } else {
                        0
                    } by {
                        if 0 <= i < self@.len() {
                            assert(self@[i]@ == 0);
                        }
                    }
                    lemma_spow_shift(fs, Seq::<int>::empty(), 0, e as nat);
                    let e1 = (e - 1) as nat;
                    assert(spow(Seq::<int>::empty(), e as nat) == crate::poly::prod(
                        spow(Seq::<int>::empty(), e1),
                        Seq::<int>::empty(),
                    ));
                    vstd::arithmetic::div_mod::lemma_small_mod(0, M as nat);
                }
                return z;
            },
        };
        let ghost fs = residues(self@);
        let ghost sv = Seq::new((self@.len() - low) as nat, |j: int| coeff(fs, j + low));
        proof {
            lemma_coef_at_coeff(self@);
            assert forall|i: int| #[trigger] coeff(fs, i) == if i >= low {
                coeff(sv, i - low)
            } else {
                0
            } by {
                if low <= i < self@.len() {
                    assert(sv[i - low] == coeff(fs, i));
                }
            }
            lemma_spow_shift(fs, sv, low as int, e as nat);
        }
        proof {
            assert(is_lowest(self@, low as int));
        }
        proof {
            assert((low as u128) * (e as u128) <= u128::MAX) by (nonlinear_arith)
                requires
                    low <= u64::MAX,
                    e <= u64::MAX,
            ;
        }
        let shift = (low as u128) * (e as u128);
        if shift >= n as u128 {
            let z = Self::zeros(n);
            proof {
                vstd::arithmetic::div_mod::lemma_small_mod(0, M as nat);
                assert(shift as int == low as int * e as int);
            }
            return z;
        }
        let shift = shift as usize;
        let rest = n - shift;
        let c = self.at(low);
        proof {
            assert(self@[low as int].wf());
            assert(gcd(c@ as nat, M as nat) == 1);
            if n > 30 {
                assert(ntt_friendly_for(M as int, 2 * n as int));
            }
        }
        let ci = c.inv();
        let normalized = self.shift_down(low).scale(ci);
        proof {
            vstd::arithmetic::div_mod::lemma_small_mod(1, M as nat);
            assert(normalized@[0]@ == (c@ * ci@) % (M as int));
            if rest > 60 {
                assert forall|x: int| 1 <= x <= 2 * rest implies #[trigger] ntt_friendly_for(M as int, x) by {
                    assert(1 <= x <= 2 * n);
                }
            }
        }
        let lg = normalized.log(rest);
        let em = ModInt::<M>::new(e);
        let scaled = lg.scale(em);
        proof {
            vstd::arithmetic::div_mod::lemma_small_mod(0, M as nat);
            if rest > 30 {
                assert forall|x: int| 1 <= x <= 2 * rest implies #[trigger] ntt_friendly_for(M as int, x) by {
                    assert(1 <= x <= 2 * n);
                }
            }
        }
        let base = scaled.exp(rest);
        let ce = c.pow(e);
        let bs = base.scale(ce);
        let su = bs.shift_up(shift);
        let out = su.pre(n);
        proof {
            let m = M as int;
            if is_prime(m) && invertible_upto(m, 2 * n) {
                lemma_pow_value(self@, normalized@, lg@, scaled@, base@, bs@, su@, out@, sv, c@, ci@, em@, ce@, e as nat,
                    low as int, shift as int, n as int);
            }
        }
        proof {
            assert forall|d: int| #[trigger] is_lowest(self@, d) && e > 0 implies forall|i: int|
                0 <= i < n && i < d * e ==> #[trigger] out@[i]@ == 0 by {
                lemma_lowest_unique(self@, d, low as int);
            }
        }
        out
    }

    /// A square root to `n` terms, `None` when there is none: the lowest non-zero term `c x^d`
    /// needs an even `d` and a square root of `c`.  The rest is `sqrt(c) x^(d/2) exp(log(f /
    /// (c x^d)) / 2)`.
    pub fn sqrt(&self, n: usize) -> (r: Option<Self>)
        requires
            self.wf(),
            lowest_is_unit(self@),
            forall|d: int| #[trigger] is_lowest(self@, d) ==> M % 2 == 1,
            n > 30 ==> ntt_ready(M as int, 2 * n),
        ensures
            r matches Some(x) ==> x.wf() && x@.len() == n,
            n == 0 ==> r is Some,
            (forall|i: int| 0 <= i < self@.len() ==> #[trigger] self@[i]@ == 0) ==> (r matches Some(x) && forall|
                i: int,
            | 0 <= i < n ==> #[trigger] x@[i]@ == 0),
            forall|d: int| #[trigger] is_lowest(self@, d) && n > 0 && d % 2 == 1 ==> r is None,
            forall|d: int|
                #[trigger] is_lowest(self@, d) && d % 2 == 0 && d / 2 >= n ==> (r matches Some(x) && forall|
                    i: int,
                | 0 <= i < n ==> #[trigger] x@[i]@ == 0),
            forall|d: int|
                #[trigger] is_lowest(self@, d) ==> (r matches Some(x) ==> forall|i: int|
                    0 <= i < n && i < d / 2 ==> #[trigger] x@[i]@ == 0),
            forall|d: int|
                #[trigger] is_lowest(self@, d) && d % 2 == 0 && d / 2 < n && is_prime(M as int) ==> (r is Some
                    <==> exists|x: int| #[trigger] is_sqrt_mod(x, self@[d]@, M as int)),
            is_prime(M as int) && invertible_upto(M as int, 2 * n) ==> (r matches Some(x) ==> forall|t: int|
                0 <= t < n ==> #[trigger] (cmul(residues(x@), residues(x@), t) % (M as int)) == coef_at(self@, t)),
    {
        if n == 0 {
            return Some(Fps { coef: vec![] });
        }
        let low = match self.lowest_degree() {
            Some(low) => low,
            None => {
                let z = Self::zeros(n);
                proof {
                    lemma_zero_square(self@, z@, n as int);
                }
                return Some(z);
            },
        };
        proof {
            assert(is_lowest(self@, low as int));
            assert forall|d: int| #[trigger] is_lowest(self@, d) implies d == low by {
                lemma_lowest_unique(self@, d, low as int);
            }
        }
        if low % 2 != 0 {
            return None;
        }
        let shift = low / 2;
        if shift >= n {
            let z = Self::zeros(n);
            proof {
                lemma_zero_square(self@, z@, n as int);
            }
            return Some(z);
        }
        let rest = n - shift;
        let c = self.at(low);
        proof {
            assert(self@[low as int].wf());
        }
        let root = match c.sqrt() {
            Some(root) => root,
            None => {
                return None;
            },
        };
        proof {
            assert(is_sqrt_mod(root@, c@, M as int));
        }
        proof {
            if n > 30 {
                assert(ntt_friendly_for(M as int, 2 * n as int));
            }
        }
        let ci = c.inv();
        let normalized = self.shift_down(low).scale(ci);
        proof {
            vstd::arithmetic::div_mod::lemma_small_mod(1, M as nat);
            assert(normalized@[0]@ == (c@ * ci@) % (M as int));
            if rest > 60 {
                assert forall|x: int| 1 <= x <= 2 * rest implies #[trigger] ntt_friendly_for(M as int, x) by {
                    assert(1 <= x <= 2 * n);
                }
            }
            lemma_small_units(M as int);
            vstd::arithmetic::div_mod::lemma_small_mod(2, M as nat);
        }
        let half = ModInt::<M>::new(2u32).inv();
        let lg = normalized.log(rest);
        let scaled = lg.scale(half);
        proof {
            vstd::arithmetic::div_mod::lemma_small_mod(0, M as nat);
            if rest > 30 {
                assert forall|x: int| 1 <= x <= 2 * rest implies #[trigger] ntt_friendly_for(M as int, x) by {
                    assert(1 <= x <= 2 * n);
                }
            }
        }
        let base = scaled.exp(rest);
        let bs = base.scale(root);
        let su = bs.shift_up(shift);
        let x = su.pre(n);
        proof {
            let m = M as int;
            if is_prime(m) && invertible_upto(m, 2 * n) {
                let fs = residues(self@);
                let su_ = residues(normalized@);
                let sl = residues(lg@);
                let ss = residues(scaled@);
                let se = residues(base@);
                let sb = residues(bs@);
                let sx = residues(x@);
                lemma_coef_at_coeff(self@);
                lemma_coef_at_coeff(normalized@);
                lemma_coef_at_coeff(lg@);
                lemma_coef_at_coeff(scaled@);
                lemma_coef_at_coeff(base@);
                lemma_coef_at_coeff(bs@);
                lemma_coef_at_coeff(su@);
                lemma_coef_at_coeff(x@);
                assert(is_lowest(self@, low as int));
                assert(M % 2 == 1);
                assert(m >= 3);
                assert(invertible_upto(m, rest - 1) && invertible_upto(m, rest as int) && invertible_upto(m, 2 * rest))
                    by {
                    assert forall|dv: int| 2 <= dv <= 2 * rest implies #[trigger] (m % dv) != 0 by {
                        assert(dv <= 2 * n);
                    }
                }
                // log(u) and u solve the same equation
                assert(exp_law(sl, su_, rest as int, m));
                assert(normalized@[0]@ == 1);
                assert(lg@[0]@ == 0);
                // the halved logarithm
                vstd::arithmetic::div_mod::lemma_small_mod(2, M as nat);
                vstd::arithmetic::div_mod::lemma_small_mod(1, M as nat);
                assert((2 * half@) % m == 1);
                assert forall|i: int| 0 <= i < rest implies #[trigger] (coeff(sl, i) % m) == (2 * coeff(ss, i)) % m by {
                    let li = coeff(sl, i);
                    assert(scaled@[i]@ == (lg@[i]@ * half@) % m);
                    vstd::arithmetic::div_mod::lemma_mod_twice(2, m);
                    vstd::arithmetic::div_mod::lemma_mod_twice(li * half@, m);
                    crate::dft::lemma_cong_mul(2, coeff(ss, i), 2, li * half@, m);
                    assert(2 * (li * half@) == li * (2 * half@)) by (nonlinear_arith);
                    vstd::arithmetic::div_mod::lemma_mod_twice(li, m);
                    vstd::arithmetic::div_mod::lemma_mod_twice(2 * half@, m);
                    crate::dft::lemma_cong_mul(li, 2 * half@, li, 1, m);
                }
                assert(exp_law(ss, se, rest as int, m));
                lemma_exp_square(sl, ss, se, rest as int, m);
                let y = crate::poly::prod(se, se);
                crate::poly::lemma_coeff_prod(se, se, 0);
                crate::poly::lemma_cmul_const(se, se);
                assert(base@[0]@ == 1);
                assert(coef_at(base@, 0) == coeff(se, 0));
                assert(coeff(se, 0) == 1);
                assert(coeff(y, 0) == 1);
                vstd::arithmetic::div_mod::lemma_small_mod(0, M as nat);
                lemma_exp_law_unique(sl, y, su_, rest as int, m);
                assert forall|j: int| 0 <= j < n - low / 2 implies #[trigger] ((cmul(se, se, j) - coeff(su_, j)) % m) == 0 by {
                    crate::poly::lemma_coeff_prod(se, se, j);
                }
                // u is f divided by c x^d
                assert forall|j: int| 0 <= j < n implies #[trigger] (coeff(su_, j) % m) == (coeff(fs, j + low) * ci@) % m by {
                    if j < self@.len() - low {
                        assert(normalized@[j]@ == (self@[j + low]@ * ci@) % m);
                        vstd::arithmetic::div_mod::lemma_mod_twice(self@[j + low]@ * ci@, m);
                    } else {
                        assert(coeff(fs, j + low) == 0);
                    }
                }
                assert forall|i: int| 0 <= i < low implies #[trigger] coeff(fs, i) == 0 by {}
                assert((c@ * ci@) % m == 1);
                assert(c@ < m);
                vstd::arithmetic::div_mod::lemma_small_mod(c@ as nat, M as nat);
                assert((root@ * root@) % m == c@ % m);
                assert forall|i: int| 0 <= i < n implies #[trigger] (coeff(sb, i) % m) == (coeff(se, i) * root@) % m by {
                    if i < rest {
                        assert(bs@[i]@ == (base@[i]@ * root@) % m);
                        vstd::arithmetic::div_mod::lemma_mod_twice(base@[i]@ * root@, m);
                    }
                }
                assert forall|i: int| 0 <= i < n implies #[trigger] coeff(sx, i) == if i >= low / 2 {
                    coeff(sb, i - low / 2)
                } else {
                    0
                } by {
                    assert(x@[i]@ == coef_at(su@, i));
                    if i >= shift {
                        assert(su@[shift + (i - shift)] == bs@[i - shift]);
                    } else {
                        assert(su@[i]@ == 0);
                    }
                }
                lemma_sqrt_square(fs, su_, se, sb, sx, c@, ci@, root@, low as int, n as int, m);
                assert forall|t: int| 0 <= t < n implies #[trigger] (cmul(sx, sx, t) % m) == coef_at(self@, t) by {
                    if t < self@.len() {
                        assert(self@[t].wf());
                        vstd::arithmetic::div_mod::lemma_small_mod(self@[t]@ as nat, M as nat);
                    }
                }
            }
        }
        Some(x)
    }

    /// Polynomial division: `(q, r)` with `self = q * rhs + r` and `deg r < deg rhs`, both with
    /// their trailing zeros dropped.  `rhs` must not be zero and its leading coefficient must be
    /// a unit.
    pub fn div_rem(&self, rhs: &Self) -> (res: (Self, Self))
        requires
            self.wf(),
            rhs.wf(),
            exists|i: int| 0 <= i < rhs@.len() && #[trigger] rhs@[i]@ != 0,
            forall|d: int| #[trigger] is_highest(rhs@, d) ==> gcd(rhs@[d]@ as nat, M as nat) == 1,
            self@.len() > 60 ==> ntt_ready(M as int, 2 * self@.len() as int),
        ensures
            res.0.wf(),
            res.1.wf(),
            res.0@.len() > 0 ==> res.0@[res.0@.len() - 1]@ != 0,
            res.1@.len() > 0 ==> res.1@[res.1@.len() - 1]@ != 0,
            forall|d: int| #[trigger] is_highest(rhs@, d) ==> res.1@.len() <= d,
            is_prime(M as int) || self@.len() <= 32 ==> forall|t: int|
                0 <= t ==> #[trigger] ((cmul(residues(res.0@), residues(rhs@), t) + coef_at(res.1@, t)) % (M as int))
                    == coef_at(self@, t) % (M as int),
    {
        let a = self.clone().shrink();
        let b = rhs.clone().shrink();
        let ghost d = (b@.len() - 1) as int;
        proof {
            let i = choose|i: int| 0 <= i < rhs@.len() && #[trigger] rhs@[i]@ != 0;
            if b@.len() <= i {
                assert(rhs@[i]@ == 0);
            }
            assert(b@[d] == rhs@[d]);
            assert(is_highest(rhs@, d));
            assert forall|e: int| #[trigger] is_highest(rhs@, e) implies e == d by {
                lemma_highest_unique(rhs@, e, d);
            }
        }
        let ghost exact = is_prime(M as int) || self@.len() <= 32;
        proof {
            lemma_coef_at_coeff(self@);
            lemma_coef_at_coeff(a@);
            lemma_coef_at_coeff(rhs@);
            lemma_coef_at_coeff(b@);
            assert forall|t: int| #[trigger] coeff(residues(self@), t) == coeff(residues(a@), t) by {
                if a@.len() <= t < self@.len() {
                    assert(self@[t]@ == 0);
                } else if 0 <= t < a@.len() {
                    assert(a@[t] == self@.subrange(0, a@.len() as int)[t]);
                }
            }
            assert forall|t: int| #[trigger] coeff(residues(rhs@), t) == coeff(residues(b@), t) by {
                if b@.len() <= t < rhs@.len() {
                    assert(rhs@[t]@ == 0);
                } else if 0 <= t < b@.len() {
                    assert(b@[t] == rhs@.subrange(0, b@.len() as int)[t]);
                }
            }
        }
        if a.len() < b.len() {
            let e = Fps { coef: vec![] };
            proof {
                assert(a@.len() <= d);
                assert forall|t: int| 0 <= t implies #[trigger] ((cmul(residues(e@), residues(rhs@), t) + coef_at(a@, t))
                    % (M as int)) == coef_at(self@, t) % (M as int) by {
                    let f = |i: int| coeff(residues(e@), i) * coeff(residues(rhs@), t - i);
                    assert forall|i: int| 0 <= i < t + 1 implies #[trigger] f(i) == 0 by {
                        assert(coeff(residues(e@), i) == 0);
                    }
                    crate::dft::lemma_sum_zero(f, t + 1);
                    assert(cmul(residues(e@), residues(rhs@), t) == sum(f, t + 1)) by {
                        assert((|i: int| coeff(residues(e@), i) * coeff(residues(rhs@), t - i)) =~= f);
                    }
                }
            }
            return (e, a);
        }
        let q_len = a.len() - b.len() + 1;
        let ra = a.reversed();
        let rb = b.reversed();
        proof {
            assert(rb@[0] == b@[d]);
            if self@.len() > 60 {
                assert forall|x: int| 1 <= x <= 2 * q_len implies #[trigger] ntt_friendly_for(M as int, x) by {
                    assert(1 <= x <= 2 * self@.len());
                }
            }
        }
        let rbi = rb.inv(q_len);
        proof {
            if ra@.len() > 60 && rbi@.len() > 60 {
                assert(ntt_friendly_for(M as int, ra@.len() + rbi@.len() - 1));
            }
            if self@.len() > 60 {
                assert(ntt_friendly_for(M as int, 2 * self@.len() as int));
            }
            assert(ra@.len() + rbi@.len() <= usize::MAX);
        }
        let prodq = ra.multiply(&rbi);
        let qr = prodq.pre(q_len);
        let q = qr.reversed();
        proof {
            if q@.len() > 60 && b@.len() > 60 {
                assert(ntt_friendly_for(M as int, q@.len() + b@.len() - 1));
            }
        }
        let qb = q.multiply(&b);
        let diff = a.add_or_sub(&qb, true);
        let b2 = rhs.clone().shrink();
        let bl = b2.len();
        proof {
            assert(b2@[bl - 1] == rhs@[bl - 1]);
            assert(is_highest(rhs@, bl - 1));
            lemma_highest_unique(rhs@, bl - 1, d);
        }
        let rpre = diff.pre(bl - 1);
        let r = rpre.shrink();
        let qs = q.shrink();
        proof {
            if exact {
                lemma_div_rem_law(self@, rhs@, a@, b@, ra@, rb@, rbi@, prodq@, qr@, q@, qb@, diff@, rpre@, r@, qs@);
            }
        }
        (qs, r)
    }
}

/// `d` is the degree of the highest non-zero coefficient.
pub open spec fn is_highest<const M: u32>(s: Seq<ModInt<M>>, d: int) -> bool {
    &&& 0 <= d < s.len()
    &&& s[d]@ != 0
    &&& forall|i: int| d < i < s.len() ==> #[trigger] s[i]@ == 0
}

/// `coef_at` reads the residues.
proof fn lemma_coef_at_coeff<const M: u32>(s: Seq<ModInt<M>>)
    ensures
        forall|i: int| #[trigger] coef_at(s, i) == coeff(residues(s), i),
{
}

/// The law of `log`, from the contracts of the steps it takes: the derivative of the result
/// times the series is the series' derivative, below degree `n - 1`.
proof fn lemma_log_law<const M: u32>(
    s: Seq<ModInt<M>>,
    p: Seq<ModInt<M>>,
    d: Seq<ModInt<M>>,
    iv: Seq<ModInt<M>>,
    pc: Seq<ModInt<M>>,
    g: Seq<ModInt<M>>,
    ig: Seq<ModInt<M>>,
    r: Seq<ModInt<M>>,
)
    requires
        1 <= M < 0x8000_0000,
        p.len() >= 2,
        forall|i: int| 0 <= i < p.len() ==> #[trigger] p[i]@ == coef_at(s, i),
        is_derivative_of(p, d),
        iv.len() == p.len(),
        forall|t: int|
            0 <= t < p.len() ==> #[trigger] (cmul(residues(s), residues(iv), t) % (M as int)) == delta(t) % (M as int),
        pc.len() == d.len() + iv.len() - 1,
        forall|k: int| 0 <= k < pc.len() ==> #[trigger] pc[k]@ == conv_coef(residues(d), residues(iv), k) % (M as int),
        g == pc.subrange(0, p.len() - 1),
        all_wf(g),
        is_integral_of(g, ig),
        r.len() == p.len(),
        forall|i: int| 0 <= i < p.len() ==> #[trigger] r[i]@ == coef_at(ig, i),
        invertible_upto(M as int, p.len() - 1),
    ensures
        forall|t: int|
            0 <= t < p.len() - 1 ==> #[trigger] (cmul(deriv(residues(r)), residues(s), t) % (M as int)) == ((t + 1)
                * coef_at(s, t + 1)) % (M as int),
{
    let m = M as int;
    let n = p.len() as int;
    let rd = deriv(residues(r));
    let sg = residues(g);
    let sd = residues(d);
    let fs = residues(s);
    lemma_truncated_product(sd, residues(iv), residues(pc), n, m);
    assert forall|i: int| 0 <= i < n - 1 implies #[trigger] (coeff(rd, i) % m) == coeff(sg, i) % m by {
        assert(invertible_upto(m, i + 1)) by {
            assert forall|e: int| 2 <= e <= i + 1 implies #[trigger] (m % e) != 0 by {
                assert(2 <= e <= n - 1);
            }
        }
        assert(r[i + 1]@ == ig[i + 1]@);
        assert((ig[i + 1]@ * (i + 1)) % m == g[i]@);
        assert(coeff(rd, i) == (i + 1) * r[i + 1]@);
        assert((i + 1) * ig[i + 1]@ == ig[i + 1]@ * (i + 1)) by (nonlinear_arith);
        assert(g[i].wf());
        vstd::arithmetic::div_mod::lemma_small_mod(g[i]@ as nat, M as nat);
    }
    assert forall|i: int| 0 <= i < n - 1 implies #[trigger] (coeff(sg, i) % m) == coeff(
        crate::poly::prod(sd, residues(iv)),
        i,
    ) % m by {
        assert(d.len() == n - 1);
        assert(g[i] == pc[i]);
        assert(coeff(sg, i) == coeff(residues(pc), i));
        assert(coeff(residues(pc), i) % m == coeff(crate::poly::prod(sd, residues(iv)), i) % m);
    }
    assert forall|t: int| 0 <= t < n - 1 implies #[trigger] (cmul(rd, fs, t) % m) == ((t + 1) * coef_at(s, t + 1)) % m by {
        crate::poly::lemma_cmul_cong_left(rd, sg, fs, t, m);
        crate::poly::lemma_cmul_cong_left(sg, crate::poly::prod(sd, residues(iv)), fs, t, m);
        crate::poly::lemma_times_inverse(sd, residues(iv), fs, t, m);
        assert(coeff(sd, t) == (p[t + 1]@ * (t + 1)) % m);
        assert(p[t + 1]@ == coef_at(s, t + 1));
        vstd::arithmetic::div_mod::lemma_mod_twice(coef_at(s, t + 1) * (t + 1), m);
        assert(coef_at(s, t + 1) * (t + 1) == (t + 1) * coef_at(s, t + 1)) by (nonlinear_arith);
    }
}

/// The law of `div_rem`, from the contracts of the steps it takes.
proof fn lemma_div_rem_law<const M: u32>(
    s: Seq<ModInt<M>>,
    b0: Seq<ModInt<M>>,
    a: Seq<ModInt<M>>,
    b: Seq<ModInt<M>>,
    ra: Seq<ModInt<M>>,
    rb: Seq<ModInt<M>>,
    ib: Seq<ModInt<M>>,
    pq: Seq<ModInt<M>>,
    qr: Seq<ModInt<M>>,
    q: Seq<ModInt<M>>,
    qb: Seq<ModInt<M>>,
    df: Seq<ModInt<M>>,
    rp: Seq<ModInt<M>>,
    r: Seq<ModInt<M>>,
    qs: Seq<ModInt<M>>,
)
    requires
        1 <= M < 0x8000_0000,
        forall|t: int| #[trigger] coeff(residues(s), t) == coeff(residues(a), t),
        forall|t: int| #[trigger] coeff(residues(b0), t) == coeff(residues(b), t),
        a.len() >= b.len() >= 1,
        ra.len() == a.len(),
        forall|i: int| 0 <= i < a.len() ==> #[trigger] ra[i] == a[a.len() - 1 - i],
        rb.len() == b.len(),
        forall|i: int| 0 <= i < b.len() ==> #[trigger] rb[i] == b[b.len() - 1 - i],
        forall|t: int|
            0 <= t < a.len() - b.len() + 1 ==> #[trigger] (cmul(residues(rb), residues(ib), t) % (M as int)) == delta(t)
                % (M as int),
        ib.len() >= 1,
        pq.len() == ra.len() + ib.len() - 1,
        forall|k: int| 0 <= k < pq.len() ==> #[trigger] pq[k]@ == conv_coef(residues(ra), residues(ib), k) % (M as int),
        qr.len() == a.len() - b.len() + 1,
        forall|i: int| 0 <= i < qr.len() ==> #[trigger] qr[i]@ == coef_at(pq, i),
        q.len() == qr.len(),
        forall|i: int| 0 <= i < qr.len() ==> #[trigger] q[i] == qr[qr.len() - 1 - i],
        qb.len() == q.len() + b.len() - 1,
        forall|k: int| 0 <= k < qb.len() ==> #[trigger] qb[k]@ == conv_coef(residues(q), residues(b), k) % (M as int),
        df.len() == a.len(),
        forall|i: int| 0 <= i < df.len() ==> #[trigger] df[i]@ == (coef_at(a, i) - coef_at(qb, i)) % (M as int),
        rp.len() == b.len() - 1,
        forall|i: int| 0 <= i < rp.len() ==> #[trigger] rp[i]@ == coef_at(df, i),
        r.len() <= rp.len(),
        r == rp.subrange(0, r.len() as int),
        forall|i: int| r.len() <= i < rp.len() ==> #[trigger] rp[i]@ == 0,
        qs.len() <= q.len(),
        qs == q.subrange(0, qs.len() as int),
        forall|i: int| qs.len() <= i < q.len() ==> #[trigger] q[i]@ == 0,
    ensures
        forall|t: int|
            0 <= t ==> #[trigger] ((cmul(residues(qs), residues(b0), t) + coef_at(r, t)) % (M as int)) == coef_at(s, t)
                % (M as int),
{
    let m = M as int;
    let n = a.len() as int;
    let d = b.len() - 1;
    let big = n + ib.len() + b.len();
    let sa = residues(a);
    let sb = residues(b);
    let sq = residues(q);
    lemma_coef_at_coeff(s);
    lemma_coef_at_coeff(a);
    lemma_coef_at_coeff(r);
    lemma_coef_at_coeff(rp);
    lemma_coef_at_coeff(df);
    lemma_coef_at_coeff(qb);
    lemma_coef_at_coeff(pq);
    assert(residues(ra) =~= crate::poly::rev(sa));
    assert(residues(rb) =~= crate::poly::rev(sb));
    assert(residues(q) =~= crate::poly::rev(residues(qr)));
    lemma_truncated_product(residues(ra), residues(ib), residues(pq), big, m);
    assert forall|i: int| 0 <= i < a.len() - b.len() + 1 implies #[trigger] (coeff(residues(qr), i) % m) == coeff(
        crate::poly::prod(crate::poly::rev(sa), residues(ib)),
        i,
    ) % m by {
        assert(coeff(residues(pq), i) % m == coeff(crate::poly::prod(residues(ra), residues(ib)), i) % m);
        vstd::arithmetic::div_mod::lemma_mod_twice(coeff(residues(pq), i), m);
    }
    lemma_truncated_product(sq, sb, residues(qb), big, m);
    assert forall|t: int| #[trigger] coeff(residues(qs), t) == coeff(sq, t) by {
        if qs.len() <= t < q.len() {
            assert(q[t]@ == 0);
        } else if 0 <= t < qs.len() {
            assert(qs[t] == q.subrange(0, qs.len() as int)[t]);
        }
    }
    assert forall|t: int| 0 <= t implies #[trigger] ((cmul(residues(qs), residues(b0), t) + coef_at(r, t)) % m)
        == coef_at(s, t) % m by {
        crate::poly::lemma_cmul_same_coeffs(residues(qs), sq, residues(b0), sb, t);
        let c = cmul(sq, sb, t);
        // r_t: below d from the difference, zero above
        assert(coef_at(r, t) == coef_at(rp, t)) by {
            if r.len() <= t < rp.len() {
                assert(rp[t]@ == 0);
            } else if 0 <= t < r.len() {
                assert(r[t] == rp.subrange(0, r.len() as int)[t]);
            }
        }
        if t < d {
            crate::poly::lemma_coeff_prod(sq, sb, t);
            assert(coeff(residues(qb), t) % m == c % m);
            let x = coef_at(a, t);
            let y = coef_at(qb, t);
            vstd::arithmetic::div_mod::lemma_mod_twice(x - y, m);
            crate::dft::lemma_cong_add(c, (x - y) % m, y, x - y, m);
        } else if t < n {
            crate::poly::lemma_div_by_reversal(sa, sb, residues(ib), residues(qr), m, t);
            assert(coef_at(a, t) == sa[t]);
            vstd::arithmetic::div_mod::lemma_small_mod(0, m as nat);
            crate::dft::lemma_cong_add(c, 0, sa[t], 0, m);
        } else {
            crate::poly::lemma_cmul_past_end(sq, sb, t);
        }
    }
}

/// The highest non-zero coefficient is unique.
proof fn lemma_highest_unique<const M: u32>(s: Seq<ModInt<M>>, d1: int, d2: int)
    requires
        is_highest(s, d1),
        is_highest(s, d2),
    ensures
        d1 == d2,
{
    if d1 < d2 {
        assert(s[d2]@ == 0);
    } else if d2 < d1 {
        assert(s[d1]@ == 0);
    }
}

/// `d` is the degree of the lowest non-zero coefficient.
pub open spec fn is_lowest<const M: u32>(s: Seq<ModInt<M>>, d: int) -> bool {
    &&& 0 <= d < s.len()
    &&& s[d]@ != 0
    &&& forall|i: int| 0 <= i < d ==> #[trigger] s[i]@ == 0
}

/// The lowest non-zero coefficient, if any, is a unit.
pub open spec fn lowest_is_unit<const M: u32>(s: Seq<ModInt<M>>) -> bool {
    forall|d: int| #[trigger] is_lowest(s, d) ==> gcd(s[d]@ as nat, M as nat) == 1
}

/// The lowest non-zero coefficient is unique.
proof fn lemma_lowest_unique<const M: u32>(s: Seq<ModInt<M>>, d1: int, d2: int)
    requires
        is_lowest(s, d1),
        is_lowest(s, d2),
    ensures
        d1 == d2,
{
    if d1 < d2 {
        assert(s[d1]@ == 0);
    } else if d2 < d1 {
        assert(s[d2]@ == 0);
    }
}

/// `d` is the derivative of `f`: `d[i] = (i + 1) f[i + 1]`, one term shorter (empty for a
/// constant).
pub open spec fn is_derivative_of<const M: u32>(f: Seq<ModInt<M>>, d: Seq<ModInt<M>>) -> bool {
    &&& d.len() == (if f.len() <= 1 {
        0
    } else {
        f.len() - 1
    })
    &&& forall|i: int| 0 <= i < d.len() ==> #[trigger] d[i]@ == (f[i + 1]@ * (i + 1)) % (M as int)
}

/// `r` is the antiderivative of `f` with constant term `0`: `(i + 1) r[i + 1] = f[i]` wherever
/// `i + 1` is invertible.
pub open spec fn is_integral_of<const M: u32>(f: Seq<ModInt<M>>, r: Seq<ModInt<M>>) -> bool {
    &&& r.len() == f.len() + 1
    &&& r[0]@ == 0
    &&& forall|i: int|
        0 <= i < f.len() && #[trigger] invertible_upto(M as int, i + 1) ==> (r[i + 1]@ * (i + 1)) % (M as int)
            == f[i]@
}

/// `u` is `f` multiplied by `x^k`: `k` zeros, then `f`.
pub open spec fn is_shifted_up<const M: u32>(f: Seq<ModInt<M>>, k: int, u: Seq<ModInt<M>>) -> bool {
    &&& u.len() == k + f.len()
    &&& forall|i: int| 0 <= i < k ==> #[trigger] u[i]@ == 0
    &&& forall|i: int| 0 <= i < f.len() ==> #[trigger] u[k + i] == f[i]
}

/// Differentiating the antiderivative gives the series back, as long as the degrees that the
/// antiderivative divides by are invertible.
pub proof fn lemma_derivative_of_integral<const M: u32>(f: Seq<ModInt<M>>, r: Seq<ModInt<M>>, d: Seq<ModInt<M>>)
    requires
        is_integral_of(f, r),
        is_derivative_of(r, d),
        invertible_upto(M as int, f.len() as int),
    ensures
        d == f,
{
    assert forall|i: int| 0 <= i < f.len() implies #[trigger] d[i] == f[i] by {
        assert(invertible_upto(M as int, i + 1));
        assert(d[i]@ == f[i]@);
        ModInt::<M>::lemma_view_eq(d[i], f[i]);
    }
    assert(d =~= f);
}

/// Dividing by `x^k` undoes multiplying by `x^k`.
pub proof fn lemma_shift_down_undoes_shift_up<const M: u32>(f: Seq<ModInt<M>>, k: int, u: Seq<ModInt<M>>)
    requires
        0 <= k,
        is_shifted_up(f, k, u),
    ensures
        u.subrange(k, u.len() as int) == f,
{
    assert forall|i: int| 0 <= i < f.len() implies #[trigger] u.subrange(k, u.len() as int)[i] == f[i] by {
        assert(u[k + i] == f[i]);
    }
    assert(u.subrange(k, u.len() as int) =~= f);
}

/// `sum_{j >= i} s[j] x^(j - i)`: the value at `x` of the terms from degree `i` on.
pub open spec fn poly_eval(s: Seq<int>, x: int, i: int) -> int
    decreases s.len() - i,
{
    if i < 0 || i >= s.len() {
        0
    } else {
        s[i] + x * poly_eval(s, x, i + 1)
    }
}

/// `m` has no divisor in `2..=i`, so `1..=i` are invertible modulo `m`.
pub open spec fn invertible_upto(m: int, i: int) -> bool {
    forall|d: int| 2 <= d <= i ==> #[trigger] (m % d) != 0
}

/// With `m = q i + r` and `x` inverting `r`, `-x q` inverts `i`.
proof fn lemma_inverse_step(m: int, ii: int, qq: int, rr: int, x: int, v: int)
    requires
        m >= 1,
        m == qq * ii + rr,
        (x * rr) % m == 1int % m,
        v == (((-x) % m) * (qq % m)) % m,
    ensures
        (v * ii) % m == 1int % m,
{
    // inv[i] * i ≡ -inv[r] * q * i = -inv[r] * (m - r) ≡ inv[r] * r
    vstd::arithmetic::div_mod::lemma_mul_mod_noop(-x, qq, m);
    vstd::arithmetic::div_mod::lemma_mul_mod_noop_left((-x) * qq, ii, m);
    assert(((-x) * qq) * ii == x * rr + (-x) * m) by (nonlinear_arith)
        requires
            m == qq * ii + rr,
    ;
    vstd::arithmetic::div_mod::lemma_mod_multiples_vanish(-x, x * rr, m);
}

/// The entry of `inverse_table` at `i`: `0` at `0`, `1` at `1`, and `-(m / i) inv[m % i]`
/// (reduced modulo `m`) further on.
pub open spec fn table_inverse(m: int, i: int) -> int
    decreases i,
{
    if i <= 0 || m < 1 {
        0
    } else if i == 1 {
        1int % m
    } else {
        proof {
            vstd::arithmetic::div_mod::lemma_mod_bound(m, i);
        }
        (((-table_inverse(m, m % i)) % m) * ((m / i) % m)) % m
    }
}

/// `table_inverse(m, i)` inverts `i` when `m` has no divisor in `2..=i`.
proof fn lemma_table_inverse(m: int, i: int)
    requires
        m >= 1,
        i >= 1,
        invertible_upto(m, i),
    ensures
        (table_inverse(m, i) * i) % m == 1int % m,
    decreases i,
{
    if i == 1 {
        vstd::arithmetic::div_mod::lemma_mod_twice(1, m);
    } else {
        let r = m % i;
        let q = m / i;
        assert(m % i != 0);
        vstd::arithmetic::div_mod::lemma_mod_bound(m, i);
        assert(invertible_upto(m, r)) by {
            assert forall|d: int| 2 <= d <= r implies #[trigger] (m % d) != 0 by {
                assert(2 <= d <= i);
            }
        }
        lemma_table_inverse(m, r);
        vstd::arithmetic::div_mod::lemma_fundamental_div_mod(m, i);
        vstd::arithmetic::mul::lemma_mul_is_commutative(i, q);
        lemma_inverse_step(m, i, q, r, table_inverse(m, r), table_inverse(m, i));
    }
}

/// A multiple `j x` of `x` by an invertible `j` vanishes modulo `m` only when `x` does.
proof fn lemma_unit_cancel(m: int, j: int, x: int)
    requires
        m >= 2,
        j >= 1,
        invertible_upto(m, j),
        (j * x) % m == 0,
    ensures
        x % m == 0,
{
    let y = table_inverse(m, j);
    lemma_table_inverse(m, j);
    vstd::arithmetic::div_mod::lemma_small_mod(1, m as nat);
    vstd::arithmetic::div_mod::lemma_mod_twice(x, m);
    crate::dft::lemma_cong_mul(x, y * j, x, 1, m);
    assert(x * (y * j) == y * (j * x)) by (nonlinear_arith);
    vstd::arithmetic::div_mod::lemma_mul_mod_noop_right(y, j * x, m);
}

/// `g' ≡ f' g` below degree `k - 1`: the equation that `exp(f)` solves, on `k` terms.
pub open spec fn exp_law(f: Seq<int>, g: Seq<int>, k: int, m: int) -> bool {
    forall|t: int|
        0 <= t < k - 1 ==> #[trigger] (cmul(deriv(f), g, t) % m) == ((t + 1) * coeff(g, t + 1)) % m
}

/// If `g` (constant term `1`) solves the equation of `exp(f)` on `k` terms and `h' g ≡ g'` on
/// more, then `h ≡ f` below degree `k` (both with constant term `0`).
proof fn lemma_exp_agree(f: Seq<int>, g: Seq<int>, h: Seq<int>, k: int, m: int)
    requires
        m >= 2,
        k >= 1,
        invertible_upto(m, k),
        coeff(g, 0) == 1,
        coeff(f, 0) == 0,
        coeff(h, 0) == 0,
        exp_law(f, g, k, m),
        forall|t: int|
            0 <= t < k - 1 ==> #[trigger] (cmul(deriv(h), g, t) % m) == ((t + 1) * coeff(g, t + 1)) % m,
    ensures
        forall|j: int| 0 <= j < k ==> #[trigger] ((coeff(f, j) - coeff(h, j)) % m) == 0,
{
    let fd = deriv(f);
    let hd = deriv(h);
    let e = Seq::new(k as nat, |i: int| coeff(hd, i) - coeff(fd, i));
    assert forall|i: int| 0 <= i < k - 1 implies #[trigger] (cmul(e, g, i) % m) == 0 by {
        assert forall|l: int| 0 <= l <= i implies #[trigger] coeff(e, l) == coeff(hd, l) + (-1) * coeff(fd, l) by {
            assert(e[l] == coeff(hd, l) - coeff(fd, l));
        }
        crate::poly::lemma_cmul_lin_left(e, hd, fd, -1, g, i);
        assert(cmul(fd, g, i) % m == ((i + 1) * coeff(g, i + 1)) % m);
        assert(cmul(hd, g, i) % m == ((i + 1) * coeff(g, i + 1)) % m);
        crate::dft::lemma_cong_sub(cmul(hd, g, i), cmul(fd, g, i), cmul(fd, g, i), cmul(fd, g, i), m);
        assert(cmul(e, g, i) == cmul(hd, g, i) - cmul(fd, g, i));
        assert(0int % m == 0);
    }
    vstd::arithmetic::div_mod::lemma_small_mod(1, m as nat);
    crate::poly::lemma_cmul_cancel(e, g, k - 1, m);
    assert forall|j: int| 0 <= j < k implies #[trigger] ((coeff(f, j) - coeff(h, j)) % m) == 0 by {
        if j > 0 {
            let i = j - 1;
            assert(coeff(e, i) % m == 0);
            crate::poly::lemma_coeff_deriv(h, i);
            crate::poly::lemma_coeff_deriv(f, i);
            let a = coeff(h, j);
            let b = coeff(f, j);
            assert(coeff(e, i) == j * a - j * b);
            assert(j * a - j * b == j * (a - b)) by (nonlinear_arith);
            assert(invertible_upto(m, j)) by {
                assert forall|d: int| 2 <= d <= j implies #[trigger] (m % d) != 0 by {
                    assert(2 <= d <= k);
                }
            }
            lemma_unit_cancel(m, j, a - b);
            assert(0int % m == 0);
            crate::dft::lemma_cong_sub(0, a - b, 0, 0, m);
            assert(0 - (a - b) == b - a);
        }
    }
}

/// One coefficient of the doubling step of `exp`: with `h ≡ f` below degree `k`, `h' g ≡ g'`
/// below `2 k - 1`, `t ≡ 1 + f - h` and `n ≡ g t` below `2 k`, the equation `n' ≡ f' n` holds at
/// degree `d < 2 k - 1`.
proof fn lemma_exp_step_at(
    f: Seq<int>,
    g: Seq<int>,
    h: Seq<int>,
    t: Seq<int>,
    n: Seq<int>,
    k: int,
    m: int,
    d: int,
)
    requires
        m >= 2,
        k >= 1,
        0 <= d < 2 * k - 1,
        forall|i: int|
            0 <= i < 2 * k - 1 ==> #[trigger] (cmul(deriv(h), g, i) % m) == ((i + 1) * coeff(g, i + 1)) % m,
        forall|j: int| 0 <= j < 2 * k ==> #[trigger] (coeff(t, j) % m) == (delta(j) + coeff(f, j) - coeff(h, j)) % m,
        forall|j: int| 0 <= j < 2 * k ==> #[trigger] (coeff(n, j) % m) == cmul(g, t, j) % m,
        forall|j: int| 0 <= j < k ==> #[trigger] ((coeff(f, j) - coeff(h, j)) % m) == 0,
    ensures
        cmul(deriv(f), n, d) % m == ((d + 1) * coeff(n, d + 1)) % m,
{
    let fd = deriv(f);
    let hd = deriv(h);
    let gd = deriv(g);
    let td = deriv(t);
    let e = Seq::new((2 * k) as nat, |i: int| coeff(hd, i) - coeff(fd, i));
    let ne = Seq::new((2 * k) as nat, |i: int| coeff(fd, i) - coeff(hd, i));
    let tt = Seq::new((2 * k) as nat, |j: int| delta(j) + coeff(f, j) - coeff(h, j));
    let dd = Seq::new((2 * k) as nat, |j: int| coeff(f, j) - coeff(h, j));
    let one = seq![1int];
    let p = crate::poly::prod(e, g);
    let gt = crate::poly::prod(g, t);
    // the left side: f' n ≡ (f' g) t
    assert forall|j: int| 0 <= j < d + 1 implies #[trigger] (coeff(n, j) % m) == coeff(gt, j) % m by {
        crate::poly::lemma_coeff_prod(g, t, j);
    }
    crate::poly::lemma_cmul_cong_right(fd, n, gt, d, m);
    crate::poly::lemma_cmul_assoc(fd, g, t, d);
    let l1 = cmul(crate::poly::prod(fd, g), t, d);
    // the right side: (d + 1) n_(d+1) ≡ (g t)'_d = g'_d t + g t'_d
    crate::dft::lemma_cong_mul(d + 1, coeff(n, d + 1), d + 1, cmul(g, t, d + 1), m);
    crate::poly::lemma_cmul_leibniz(g, t, d);
    let x1 = cmul(gd, t, d);
    let x2 = cmul(g, td, d);
    // g' ≡ h' g
    assert forall|i: int| 0 <= i < d + 1 implies #[trigger] (coeff(gd, i) % m) == coeff(crate::poly::prod(hd, g), i) % m by {
        crate::poly::lemma_coeff_deriv(g, i);
        crate::poly::lemma_coeff_prod(hd, g, i);
    }
    crate::poly::lemma_cmul_cong_left(gd, crate::poly::prod(hd, g), t, d, m);
    let y1 = cmul(crate::poly::prod(hd, g), t, d);
    // t' ≡ f' - h'
    assert forall|i: int| 0 <= i < d + 1 implies #[trigger] (coeff(td, i) % m) == coeff(ne, i) % m by {
        crate::poly::lemma_coeff_deriv(t, i);
        crate::poly::lemma_coeff_deriv(f, i);
        crate::poly::lemma_coeff_deriv(h, i);
        let a = coeff(f, i + 1);
        let b = coeff(h, i + 1);
        assert(delta(i + 1) == 0);
        assert(coeff(t, i + 1) % m == (a - b) % m);
        vstd::arithmetic::div_mod::lemma_mod_twice(i + 1, m);
        crate::dft::lemma_cong_mul(i + 1, coeff(t, i + 1), i + 1, a - b, m);
        assert((i + 1) * (a - b) == (i + 1) * a - (i + 1) * b) by (nonlinear_arith);
        assert(ne[i] == coeff(fd, i) - coeff(hd, i));
    }
    crate::poly::lemma_cmul_cong_right(g, td, ne, d, m);
    let y2 = cmul(g, ne, d);
    crate::dft::lemma_cong_add(x1, x2, y1, y2, m);
    // y1 == l1 + (e g) t
    assert forall|i: int| 0 <= i <= d implies #[trigger] coeff(crate::poly::prod(hd, g), i) == coeff(
        crate::poly::prod(fd, g),
        i,
    ) + 1 * coeff(p, i) by {
        crate::poly::lemma_coeff_prod(hd, g, i);
        crate::poly::lemma_coeff_prod(fd, g, i);
        crate::poly::lemma_coeff_prod(e, g, i);
        assert forall|l: int| 0 <= l <= i implies #[trigger] coeff(hd, l) == coeff(fd, l) + 1 * coeff(e, l) by {
            assert(e[l] == coeff(hd, l) - coeff(fd, l));
        }
        crate::poly::lemma_cmul_lin_left(hd, fd, e, 1, g, i);
    }
    crate::poly::lemma_cmul_lin_left(crate::poly::prod(hd, g), crate::poly::prod(fd, g), p, 1, t, d);
    // y2 == -(e g)_d
    assert forall|i: int| 0 <= i <= d implies #[trigger] coeff(ne, i) == coeff(Seq::<int>::empty(), i) + (-1) * coeff(e, i) by {
        assert(ne[i] == coeff(fd, i) - coeff(hd, i));
        assert(e[i] == coeff(hd, i) - coeff(fd, i));
    }
    crate::poly::lemma_cmul_lin_right(g, ne, Seq::<int>::empty(), e, -1, d);
    crate::poly::lemma_coeff_prod(g, Seq::<int>::empty(), d);
    assert(crate::poly::prod(g, Seq::<int>::empty()) =~= Seq::<int>::empty());
    crate::poly::lemma_cmul_comm(g, e, d);
    crate::poly::lemma_coeff_prod(e, g, d);
    assert(y2 == -coeff(p, d));
    // (e g) t ≡ (e g) (1 + dd) = (e g)_d + (e g) dd
    assert forall|j: int| 0 <= j < d + 1 implies #[trigger] (coeff(t, j) % m) == coeff(tt, j) % m by {
        assert(tt[j] == delta(j) + coeff(f, j) - coeff(h, j));
    }
    crate::poly::lemma_cmul_cong_right(p, t, tt, d, m);
    assert forall|j: int| 0 <= j <= d implies #[trigger] coeff(tt, j) == coeff(one, j) + 1 * coeff(dd, j) by {
        assert(tt[j] == delta(j) + coeff(f, j) - coeff(h, j));
        assert(dd[j] == coeff(f, j) - coeff(h, j));
        assert(coeff(one, j) == delta(j));
    }
    crate::poly::lemma_cmul_lin_right(p, tt, one, dd, 1, d);
    crate::poly::lemma_cmul_one(p, d);
    // (e g) dd vanishes: e g below k - 1, dd below k
    assert forall|i: int| 0 <= i <= d implies (#[trigger] coeff(p, i)) % m == 0 || coeff(dd, d - i) % m == 0 by {
        if i < k - 1 {
            assert forall|l: int| 0 <= l <= i implies (#[trigger] coeff(e, l)) % m == 0 || coeff(g, i - l) % m == 0 by {
                crate::poly::lemma_coeff_deriv(h, l);
                crate::poly::lemma_coeff_deriv(f, l);
                let a = coeff(f, l + 1);
                let b = coeff(h, l + 1);
                assert((a - b) % m == 0);
                assert(e[l] == (l + 1) * b - (l + 1) * a);
                assert((l + 1) * b - (l + 1) * a == (-(l + 1)) * (a - b)) by (nonlinear_arith);
                vstd::arithmetic::div_mod::lemma_mul_mod_noop_right(-(l + 1), a - b, m);
            }
            crate::poly::lemma_cmul_vanish(e, g, i, m);
            crate::poly::lemma_coeff_prod(e, g, i);
        } else {
            assert(dd[d - i] == coeff(f, d - i) - coeff(h, d - i));
        }
    }
    crate::poly::lemma_cmul_vanish(p, dd, d, m);
    let cpt = cmul(p, t, d);
    let cptt = cmul(p, tt, d);
    crate::dft::lemma_cong_add(l1 - coeff(p, d), cpt, l1 - coeff(p, d), cptt, m);
    vstd::arithmetic::div_mod::lemma_small_mod(0, m as nat);
    crate::dft::lemma_cong_add(l1, cmul(p, dd, d), l1, 0, m);
    assert(y1 + y2 == l1 - coeff(p, d) + cpt);
    assert(l1 - coeff(p, d) + cptt == l1 + cmul(p, dd, d));
}

/// The doubling step of `exp` keeps the equation `g' ≡ f' g`, on twice as many terms.
proof fn lemma_exp_step(f: Seq<int>, g: Seq<int>, h: Seq<int>, t: Seq<int>, n: Seq<int>, k: int, m: int)
    requires
        m >= 2,
        k >= 1,
        invertible_upto(m, k),
        coeff(g, 0) == 1,
        coeff(f, 0) == 0,
        coeff(h, 0) == 0,
        exp_law(f, g, k, m),
        forall|i: int|
            0 <= i < 2 * k - 1 ==> #[trigger] (cmul(deriv(h), g, i) % m) == ((i + 1) * coeff(g, i + 1)) % m,
        forall|j: int| 0 <= j < 2 * k ==> #[trigger] (coeff(t, j) % m) == (delta(j) + coeff(f, j) - coeff(h, j)) % m,
        forall|j: int| 0 <= j < 2 * k ==> #[trigger] (coeff(n, j) % m) == cmul(g, t, j) % m,
    ensures
        exp_law(f, n, 2 * k, m),
{
    lemma_exp_agree(f, g, h, k, m);
    assert forall|d: int| 0 <= d < 2 * k - 1 implies #[trigger] (cmul(deriv(f), n, d) % m) == ((d + 1) * coeff(n, d + 1)) % m by {
        lemma_exp_step_at(f, g, h, t, n, k, m, d);
    }
}

/// The equation of `exp` on `k` terms holds on any `n <= k` first terms.
proof fn lemma_exp_law_prefix(f: Seq<int>, g: Seq<int>, r: Seq<int>, k: int, n: int, m: int)
    requires
        m >= 1,
        n <= k,
        exp_law(f, g, k, m),
        forall|i: int| 0 <= i < n ==> #[trigger] coeff(r, i) == coeff(g, i),
    ensures
        exp_law(f, r, n, m),
{
    assert forall|t: int| 0 <= t < n - 1 implies #[trigger] (cmul(deriv(f), r, t) % m) == ((t + 1) * coeff(r, t + 1))
        % m by {
        assert forall|i: int| 0 <= i < t + 1 implies #[trigger] (coeff(r, i) % m) == coeff(g, i) % m by {}
        crate::poly::lemma_cmul_cong_right(deriv(f), r, g, t, m);
        assert(coeff(r, t + 1) == coeff(g, t + 1));
    }
}

/// The equation `y' ≡ l' y` on `n` terms has one solution per constant term: two solutions that
/// agree at degree `0` agree below `n`, when `1..=n` are invertible.
proof fn lemma_exp_law_unique(l: Seq<int>, y: Seq<int>, z: Seq<int>, n: int, m: int)
    requires
        m >= 2,
        n >= 1,
        invertible_upto(m, n),
        exp_law(l, y, n, m),
        exp_law(l, z, n, m),
        (coeff(y, 0) - coeff(z, 0)) % m == 0,
    ensures
        forall|t: int| 0 <= t < n ==> #[trigger] ((coeff(y, t) - coeff(z, t)) % m) == 0,
    decreases n,
{
    if n >= 2 {
        assert(invertible_upto(m, n - 1)) by {
            assert forall|dv: int| 2 <= dv <= n - 1 implies #[trigger] (m % dv) != 0 by {
                assert(dv <= n);
            }
        }
        assert(exp_law(l, y, n - 1, m)) by {
            assert forall|t: int| 0 <= t < n - 2 implies #[trigger] (cmul(deriv(l), y, t) % m) == ((t + 1) * coeff(y, t + 1))
                % m by {
                assert(0 <= t < n - 1);
            }
        }
        assert(exp_law(l, z, n - 1, m)) by {
            assert forall|t: int| 0 <= t < n - 2 implies #[trigger] (cmul(deriv(l), z, t) % m) == ((t + 1) * coeff(z, t + 1))
                % m by {
                assert(0 <= t < n - 1);
            }
        }
        lemma_exp_law_unique(l, y, z, n - 1, m);
        let s = n - 2;
        let ld = deriv(l);
        let w = Seq::new(n as nat, |i: int| coeff(y, i) - coeff(z, i));
        assert forall|i: int| 0 <= i <= s implies #[trigger] coeff(w, i) == coeff(y, i) + (-1) * coeff(z, i) by {
            assert(w[i] == coeff(y, i) - coeff(z, i));
        }
        crate::poly::lemma_cmul_lin_right(ld, w, y, z, -1, s);
        assert forall|i: int| 0 <= i <= s implies (#[trigger] coeff(ld, i)) % m == 0 || coeff(w, s - i) % m == 0 by {
            assert(w[s - i] == coeff(y, s - i) - coeff(z, s - i));
            assert(0 <= s - i < n - 1);
        }
        crate::poly::lemma_cmul_vanish(ld, w, s, m);
        let a = coeff(y, s + 1);
        let b = coeff(z, s + 1);
        assert(cmul(ld, y, s) % m == ((s + 1) * a) % m);
        assert(cmul(ld, z, s) % m == ((s + 1) * b) % m);
        crate::dft::lemma_cong_sub((s + 1) * a, (s + 1) * b, cmul(ld, y, s), cmul(ld, z, s), m);
        assert((s + 1) * a - (s + 1) * b == (s + 1) * (a - b)) by (nonlinear_arith);
        lemma_unit_cancel(m, s + 1, a - b);
    }
}

/// If `h` is half of `l` modulo `m` and `e` solves `e' ≡ h' e`, then `e^2` solves
/// `y' ≡ l' y`, on the same number of terms.
proof fn lemma_exp_square(l: Seq<int>, h: Seq<int>, e: Seq<int>, n: int, m: int)
    requires
        m >= 2,
        forall|i: int| 0 <= i < n ==> #[trigger] (coeff(l, i) % m) == (2 * coeff(h, i)) % m,
        exp_law(h, e, n, m),
    ensures
        exp_law(l, crate::poly::prod(e, e), n, m),
{
    let y = crate::poly::prod(e, e);
    let ed = deriv(e);
    let hd = deriv(h);
    let ld = deriv(l);
    let he = crate::poly::prod(hd, e);
    assert forall|t: int| 0 <= t < n - 1 implies #[trigger] (cmul(ld, y, t) % m) == ((t + 1) * coeff(y, t + 1)) % m by {
        crate::poly::lemma_coeff_prod(e, e, t + 1);
        crate::poly::lemma_cmul_leibniz(e, e, t);
        crate::poly::lemma_cmul_comm(e, ed, t);
        // e' ≡ h' e
        assert forall|i: int| 0 <= i < t + 1 implies #[trigger] (coeff(ed, i) % m) == coeff(he, i) % m by {
            crate::poly::lemma_coeff_deriv(e, i);
            crate::poly::lemma_coeff_prod(hd, e, i);
        }
        crate::poly::lemma_cmul_cong_left(ed, he, e, t, m);
        crate::poly::lemma_cmul_assoc(hd, e, e, t);
        // l' ≡ 2 h'
        let w = Seq::new(n as nat, |i: int| 2 * coeff(hd, i));
        assert forall|i: int| 0 <= i < t + 1 implies #[trigger] (coeff(ld, i) % m) == coeff(w, i) % m by {
            crate::poly::lemma_coeff_deriv(l, i);
            crate::poly::lemma_coeff_deriv(h, i);
            assert(w[i] == 2 * coeff(hd, i));
            vstd::arithmetic::div_mod::lemma_mod_twice(i + 1, m);
            crate::dft::lemma_cong_mul(i + 1, coeff(l, i + 1), i + 1, 2 * coeff(h, i + 1), m);
            assert((i + 1) * (2 * coeff(h, i + 1)) == 2 * ((i + 1) * coeff(h, i + 1))) by (nonlinear_arith);
        }
        crate::poly::lemma_cmul_cong_left(ld, w, y, t, m);
        assert forall|i: int| 0 <= i <= t implies #[trigger] coeff(w, i) == coeff(Seq::<int>::empty(), i) + 2 * coeff(hd, i) by {
            assert(w[i] == 2 * coeff(hd, i));
        }
        crate::poly::lemma_cmul_lin_left(w, Seq::<int>::empty(), hd, 2, y, t);
        crate::poly::lemma_coeff_prod(Seq::<int>::empty(), y, t);
        assert(crate::poly::prod(Seq::<int>::empty(), y) =~= Seq::<int>::empty());
        vstd::arithmetic::div_mod::lemma_mod_twice(2, m);
        crate::dft::lemma_cong_mul(2, cmul(ed, e, t), 2, cmul(he, e, t), m);
    }
}

/// `a ≡ b` from `a - b ≡ 0`.
proof fn lemma_cong_from_diff(a: int, b: int, m: int)
    requires
        m >= 1,
        (a - b) % m == 0,
    ensures
        a % m == b % m,
{
    vstd::arithmetic::div_mod::lemma_mod_twice(b, m);
    vstd::arithmetic::div_mod::lemma_small_mod(0, m as nat);
    crate::dft::lemma_cong_add(a - b, b, 0, b, m);
}

/// The square of `root x^(d/2) e`, cut to `n` terms, is `f` below degree `n`: `f` vanishes
/// below `d`, `u ≡ f_(j+d) / c`, `e^2 ≡ u` and `root^2 ≡ c`.
proof fn lemma_sqrt_square(
    f: Seq<int>,
    u: Seq<int>,
    e: Seq<int>,
    b: Seq<int>,
    x: Seq<int>,
    c: int,
    ci: int,
    root: int,
    d: int,
    n: int,
    m: int,
)
    requires
        m >= 2,
        d >= 0,
        d % 2 == 0,
        d / 2 < n,
        forall|i: int| 0 <= i < d ==> #[trigger] coeff(f, i) == 0,
        (c * ci) % m == 1,
        (root * root) % m == c % m,
        forall|j: int| 0 <= j < n ==> #[trigger] (coeff(u, j) % m) == (coeff(f, j + d) * ci) % m,
        forall|j: int| 0 <= j < n - d / 2 ==> #[trigger] ((cmul(e, e, j) - coeff(u, j)) % m) == 0,
        forall|i: int| 0 <= i < n ==> #[trigger] (coeff(b, i) % m) == (coeff(e, i) * root) % m,
        x.len() == n,
        forall|i: int| 0 <= i < n ==> #[trigger] coeff(x, i) == if i >= d / 2 { coeff(b, i - d / 2) } else { 0 },
    ensures
        forall|t: int| 0 <= t < n ==> #[trigger] (cmul(x, x, t) % m) == coeff(f, t) % m,
{
    let sh = d / 2;
    let sb = Seq::new((b.len() + sh) as nat, |i: int| if i >= sh { coeff(b, i - sh) } else { 0 });
    assert forall|i: int| #[trigger] coeff(sb, i) == if i >= sh { coeff(b, i - sh) } else { 0 } by {
        if 0 <= i < sb.len() {
            assert(sb[i] == if i >= sh { coeff(b, i - sh) } else { 0 });
        }
    }
    let re = Seq::new(e.len(), |i: int| coeff(e, i) * root);
    assert forall|i: int| i >= 0 implies #[trigger] coeff(re, i) == coeff(e, i) * root by {
        if i < e.len() {
            assert(re[i] == coeff(e, i) * root);
        }
    }
    assert forall|t: int| 0 <= t < n implies #[trigger] (cmul(x, x, t) % m) == coeff(f, t) % m by {
        assert forall|i: int| 0 <= i < t + 1 implies #[trigger] (coeff(x, i) % m) == coeff(sb, i) % m by {}
        crate::poly::lemma_cmul_cong_left(x, sb, x, t, m);
        crate::poly::lemma_cmul_cong_right(sb, x, sb, t, m);
        crate::poly::lemma_cmul_shift(b, b, sb, sb, sh, sh, t);
        assert(2 * sh == d);
        if t < d {
            vstd::arithmetic::div_mod::lemma_small_mod(0, m as nat);
        } else {
            let j = t - d;
            assert forall|i: int| 0 <= i < j + 1 implies #[trigger] (coeff(b, i) % m) == coeff(re, i) % m by {
                assert(coeff(re, i) == coeff(e, i) * root);
            }
            crate::poly::lemma_cmul_cong_left(b, re, b, j, m);
            crate::poly::lemma_cmul_cong_right(re, b, re, j, m);
            // (root e)(root e) == root^2 (e e)
            assert forall|i: int| 0 <= i <= j implies #[trigger] coeff(re, i) == coeff(Seq::<int>::empty(), i) + root * coeff(e, i) by {
                assert(coeff(re, i) == coeff(e, i) * root);
                let v = coeff(e, i);
                assert(v * root == root * v) by (nonlinear_arith);
            }
            crate::poly::lemma_cmul_lin_left(re, Seq::<int>::empty(), e, root, re, j);
            crate::poly::lemma_coeff_prod(Seq::<int>::empty(), re, j);
            assert(crate::poly::prod(Seq::<int>::empty(), re) =~= Seq::<int>::empty());
            crate::poly::lemma_cmul_lin_right(e, re, Seq::<int>::empty(), e, root, j);
            crate::poly::lemma_coeff_prod(e, Seq::<int>::empty(), j);
            assert(crate::poly::prod(e, Seq::<int>::empty()) =~= Seq::<int>::empty());
            let ee = cmul(e, e, j);
            assert(cmul(re, re, j) == root * (root * ee));
            assert(root * (root * ee) == (root * root) * ee) by (nonlinear_arith);
            lemma_cong_from_diff(ee, coeff(u, j), m);
            crate::dft::lemma_cong_mul(root * root, ee, c, coeff(u, j), m);
            vstd::arithmetic::div_mod::lemma_mod_twice(c, m);
            crate::dft::lemma_cong_mul(c, coeff(u, j), c, coeff(f, t) * ci, m);
            assert(c * (coeff(f, t) * ci) == coeff(f, t) * (c * ci)) by (nonlinear_arith);
            vstd::arithmetic::div_mod::lemma_mod_twice(coeff(f, t), m);
            vstd::arithmetic::div_mod::lemma_mod_twice(c * ci, m);
            vstd::arithmetic::div_mod::lemma_small_mod(1, m as nat);
            crate::dft::lemma_cong_mul(coeff(f, t), c * ci, coeff(f, t), 1, m);
        }
    }
}

/// The zero series squares to a series whose first `n` terms are zero.
proof fn lemma_zero_square<const M: u32>(s: Seq<ModInt<M>>, z: Seq<ModInt<M>>, n: int)
    requires
        1 <= M,
        z.len() == n,
        forall|i: int| 0 <= i < n ==> #[trigger] z[i]@ == 0,
        forall|i: int| 0 <= i < n && i < s.len() ==> #[trigger] s[i]@ == 0,
    ensures
        forall|t: int|
            0 <= t < n ==> #[trigger] (cmul(residues(z), residues(z), t) % (M as int)) == coef_at(s, t),
{
    let sz = residues(z);
    assert forall|t: int| 0 <= t < n implies #[trigger] (cmul(sz, sz, t) % (M as int)) == coef_at(s, t) by {
        assert forall|i: int| 0 <= i <= t implies (#[trigger] coeff(sz, i)) % (M as int) == 0 || coeff(sz, t - i) % (
        M as int) == 0 by {
            assert(coeff(sz, i) == 0);
        }
        crate::poly::lemma_cmul_vanish(sz, sz, t, M as int);
    }
}

/// Powers of `x^d v`: `(x^d v)^e == x^(d e) v^e`, coefficient by coefficient.
proof fn lemma_spow_shift(f: Seq<int>, v: Seq<int>, d: int, e: nat)
    requires
        d >= 0,
        forall|i: int| #[trigger] coeff(f, i) == if i >= d { coeff(v, i - d) } else { 0 },
    ensures
        forall|t: int| #[trigger] coeff(spow(f, e), t) == if t >= d * e { coeff(spow(v, e), t - d * e) } else { 0 },
    decreases e,
{
    if e > 0 {
        let e1 = (e - 1) as nat;
        lemma_spow_shift(f, v, d, e1);
        let p = spow(f, e1);
        let q = spow(v, e1);
        assert(d * e1 >= 0) by (nonlinear_arith)
            requires
                d >= 0,
        ;
        assert(d * e1 + d == d * e) by (nonlinear_arith)
            requires
                e1 == e - 1,
        ;
        assert forall|t: int| #[trigger] coeff(spow(f, e), t) == if t >= d * e { coeff(spow(v, e), t - d * e) } else { 0 } by {
            crate::poly::lemma_coeff_prod(p, f, t);
            crate::poly::lemma_cmul_shift(q, v, p, f, d * e1, d, t);
            crate::poly::lemma_coeff_prod(q, v, t - d * e);
        }
    } else {
        assert forall|t: int| #[trigger] coeff(spow(f, e), t) == if t >= d * e { coeff(spow(v, e), t - d * e) } else { 0 } by {
            assert(d * e == 0);
        }
    }
}

/// Powers of a multiple: `v ≡ c u` gives `v^e ≡ c^e u^e`.
proof fn lemma_spow_scale(v: Seq<int>, u: Seq<int>, c: int, e: nat, m: int)
    requires
        m >= 1,
        forall|j: int| #[trigger] (coeff(v, j) % m) == (c * coeff(u, j)) % m,
    ensures
        forall|t: int| #[trigger] (coeff(spow(v, e), t) % m) == (pow(c, e) * coeff(spow(u, e), t)) % m,
    decreases e,
{
    if e == 0 {
        assert forall|t: int| #[trigger] (coeff(spow(v, e), t) % m) == (pow(c, e) * coeff(spow(u, e), t)) % m by {
            assert(pow(c, 0) == 1) by {
                vstd::arithmetic::power::lemma_pow0(c);
            }
        }
    } else {
        let e1 = (e - 1) as nat;
        lemma_spow_scale(v, u, c, e1, m);
        let p = spow(v, e1);
        let q = spow(u, e1);
        let pc = pow(c, e1);
        let cq = Seq::new(q.len(), |i: int| pc * coeff(q, i));
        let cu = Seq::new(u.len(), |i: int| c * coeff(u, i));
        assert forall|i: int| i >= 0 implies #[trigger] coeff(cq, i) == pc * coeff(q, i) by {
            if i < q.len() {
                assert(cq[i] == pc * coeff(q, i));
            }
        }
        assert forall|i: int| i >= 0 implies #[trigger] coeff(cu, i) == c * coeff(u, i) by {
            if i < u.len() {
                assert(cu[i] == c * coeff(u, i));
            }
        }
        assert forall|t: int| #[trigger] (coeff(spow(v, e), t) % m) == (pow(c, e) * coeff(spow(u, e), t)) % m by {
            if t >= 0 {
                crate::poly::lemma_coeff_prod(p, v, t);
                crate::poly::lemma_coeff_prod(q, u, t);
                assert forall|i: int| 0 <= i < t + 1 implies #[trigger] (coeff(p, i) % m) == coeff(cq, i) % m by {}
                assert forall|i: int| 0 <= i < t + 1 implies #[trigger] (coeff(v, i) % m) == coeff(cu, i) % m by {}
                crate::poly::lemma_cmul_cong_left(p, cq, v, t, m);
                crate::poly::lemma_cmul_cong_right(cq, v, cu, t, m);
                assert forall|i: int| 0 <= i <= t implies #[trigger] coeff(cq, i) == coeff(Seq::<int>::empty(), i) + pc * coeff(q, i) by {}
                crate::poly::lemma_cmul_lin_left(cq, Seq::<int>::empty(), q, pc, cu, t);
                crate::poly::lemma_coeff_prod(Seq::<int>::empty(), cu, t);
                assert(crate::poly::prod(Seq::<int>::empty(), cu) =~= Seq::<int>::empty());
                assert forall|i: int| 0 <= i <= t implies #[trigger] coeff(cu, i) == coeff(Seq::<int>::empty(), i) + c * coeff(u, i) by {}
                crate::poly::lemma_cmul_lin_right(q, cu, Seq::<int>::empty(), u, c, t);
                crate::poly::lemma_coeff_prod(q, Seq::<int>::empty(), t);
                assert(crate::poly::prod(q, Seq::<int>::empty()) =~= Seq::<int>::empty());
                let w = cmul(q, u, t);
                assert(pow(c, e) == c * pc) by {
                    reveal(pow);
                }
                assert(pc * (c * w) == (c * pc) * w) by (nonlinear_arith);
            } else {
                assert(coeff(spow(v, e), t) == 0);
                assert(coeff(spow(u, e), t) == 0);
            }
        }
    }
}

/// The constant term of `u^e` is `1` when that of `u` is.
proof fn lemma_spow_const(u: Seq<int>, e: nat)
    requires
        coeff(u, 0) == 1,
    ensures
        coeff(spow(u, e), 0) == 1,
    decreases e,
{
    if e > 0 {
        let e1 = (e - 1) as nat;
        lemma_spow_const(u, e1);
        let p = spow(u, e1);
        crate::poly::lemma_coeff_prod(p, u, 0);
        let f0 = |i: int| coeff(p, i) * coeff(u, 0 - i);
        crate::dft::lemma_sum_single(f0, 0, 1);
        assert((|i: int| coeff(p, i) * coeff(u, 0 - i)) =~= f0);
        assert(coeff(u, 0 - 0) == 1);
        assert(f0(0) == coeff(p, 0) * coeff(u, 0 - 0));
    }
}

/// If `u' ≡ l' u`, then `(u^e)' ≡ e l' u^e`, on the same number of terms.
proof fn lemma_pow_law(l: Seq<int>, u: Seq<int>, e: nat, n: int, m: int)
    requires
        m >= 2,
        exp_law(l, u, n, m),
    ensures
        forall|t: int|
            0 <= t < n - 1 ==> #[trigger] ((e * cmul(deriv(l), spow(u, e), t)) % m) == ((t + 1) * coeff(spow(u, e), t + 1)) % m,
    decreases e,
{
    let ld = deriv(l);
    if e == 0 {
        assert forall|t: int| 0 <= t < n - 1 implies #[trigger] ((e * cmul(ld, spow(u, e), t)) % m) == ((t + 1) * coeff(
            spow(u, e),
            t + 1,
        )) % m by {
            assert(coeff(spow(u, e), t + 1) == 0);
        }
    } else {
        let e1 = (e - 1) as nat;
        lemma_pow_law(l, u, e1, n, m);
        let y = spow(u, e1);
        let z = spow(u, e);
        let yd = deriv(y);
        let ud = deriv(u);
        let ly = crate::poly::prod(ld, y);
        let lu = crate::poly::prod(ld, u);
        assert forall|t: int| 0 <= t < n - 1 implies #[trigger] ((e * cmul(ld, z, t)) % m) == ((t + 1) * coeff(z, t + 1))
            % m by {
            crate::poly::lemma_coeff_prod(y, u, t + 1);
            crate::poly::lemma_cmul_leibniz(y, u, t);
            // y' ≡ (e - 1) l' y
            let w = Seq::new(n as nat, |i: int| e1 * coeff(ly, i));
            assert forall|i: int| 0 <= i < t + 1 implies #[trigger] (coeff(yd, i) % m) == coeff(w, i) % m by {
                crate::poly::lemma_coeff_deriv(y, i);
                crate::poly::lemma_coeff_prod(ld, y, i);
                assert(w[i] == e1 * coeff(ly, i));
            }
            crate::poly::lemma_cmul_cong_left(yd, w, u, t, m);
            assert forall|i: int| 0 <= i <= t implies #[trigger] coeff(w, i) == coeff(Seq::<int>::empty(), i) + e1 * coeff(ly, i) by {
                assert(w[i] == e1 * coeff(ly, i));
            }
            crate::poly::lemma_cmul_lin_left(w, Seq::<int>::empty(), ly, e1 as int, u, t);
            crate::poly::lemma_coeff_prod(Seq::<int>::empty(), u, t);
            assert(crate::poly::prod(Seq::<int>::empty(), u) =~= Seq::<int>::empty());
            crate::poly::lemma_cmul_assoc(ld, y, u, t);
            // u' ≡ l' u
            assert forall|i: int| 0 <= i < t + 1 implies #[trigger] (coeff(ud, i) % m) == coeff(lu, i) % m by {
                crate::poly::lemma_coeff_deriv(u, i);
                crate::poly::lemma_coeff_prod(ld, u, i);
            }
            crate::poly::lemma_cmul_cong_right(y, ud, lu, t, m);
            crate::poly::lemma_cmul_assoc(y, ld, u, t);
            assert forall|i: int| #[trigger] coeff(crate::poly::prod(y, ld), i) == coeff(ly, i) by {
                crate::poly::lemma_coeff_prod(y, ld, i);
                crate::poly::lemma_coeff_prod(ld, y, i);
                crate::poly::lemma_cmul_comm(y, ld, i);
            }
            crate::poly::lemma_cmul_same_coeffs(crate::poly::prod(y, ld), ly, u, u, t);
            let c1 = cmul(ld, z, t);
            assert(cmul(yd, u, t) % m == (e1 * c1) % m);
            assert(cmul(y, ud, t) % m == c1 % m);
            crate::dft::lemma_cong_add(cmul(yd, u, t), cmul(y, ud, t), e1 * c1, c1, m);
            assert(e1 * c1 + c1 == e * c1) by (nonlinear_arith)
                requires
                    e1 == e - 1,
            ;
        }
    }
}

/// The value of `pow`: with `f = x^d v`, `u ≡ v / c`, `l = log u`, `s ≡ e l` and `b = exp(s)`,
/// the series `c^e x^(d e) b` cut to `n` terms is `f^e` below degree `n`.
proof fn lemma_pow_value<const M: u32>(
    f: Seq<ModInt<M>>,
    u: Seq<ModInt<M>>,
    l: Seq<ModInt<M>>,
    s: Seq<ModInt<M>>,
    b: Seq<ModInt<M>>,
    bs: Seq<ModInt<M>>,
    su: Seq<ModInt<M>>,
    out: Seq<ModInt<M>>,
    v: Seq<int>,
    c: int,
    ci: int,
    em: int,
    ce: int,
    e: nat,
    d: int,
    shift: int,
    n: int,
)
    requires
        is_prime(M as int),
        2 <= M < 0x8000_0000,
        invertible_upto(M as int, 2 * n),
        0 <= d,
        0 <= shift < n,
        shift == d * e,
        forall|i: int| #[trigger] coeff(residues(f), i) == if i >= d { coeff(v, i - d) } else { 0 },
        forall|t: int| #[trigger] coeff(spow(residues(f), e), t) == if t >= d * e { coeff(spow(v, e), t - d * e) } else { 0 },
        v.len() == u.len(),
        forall|j: int| 0 <= j < u.len() ==> #[trigger] u[j]@ == (coeff(v, j) * ci) % (M as int),
        u.len() > 0 && u[0]@ == 1,
        (c * ci) % (M as int) == 1,
        l.len() == n - shift,
        l[0]@ == 0,
        exp_law(residues(l), residues(u), n - shift, M as int),
        em == (e as int) % (M as int),
        s.len() == l.len(),
        forall|i: int| 0 <= i < s.len() ==> #[trigger] s[i]@ == (l[i]@ * em) % (M as int),
        exp_law(residues(s), residues(b), n - shift, M as int),
        b.len() == n - shift,
        b[0]@ == 1,
        ce == pow(c, e) % (M as int),
        bs.len() == b.len(),
        forall|i: int| 0 <= i < bs.len() ==> #[trigger] bs[i]@ == (b[i]@ * ce) % (M as int),
        is_shifted_up(bs, shift, su),
        out.len() == n,
        forall|i: int| 0 <= i < n ==> #[trigger] out[i]@ == coef_at(su, i),
    ensures
        forall|t: int| 0 <= t < n ==> #[trigger] out[t]@ == coeff(spow(residues(f), e), t) % (M as int),
{
    let m = M as int;
    let rest = n - shift;
    let su_ = residues(u);
    let sl = residues(l);
    let ss = residues(s);
    let se = residues(b);
    lemma_coef_at_coeff(u);
    lemma_coef_at_coeff(l);
    lemma_coef_at_coeff(s);
    lemma_coef_at_coeff(b);
    lemma_coef_at_coeff(su);
    assert(invertible_upto(m, rest)) by {
        assert forall|dv: int| 2 <= dv <= rest implies #[trigger] (m % dv) != 0 by {
            assert(dv <= 2 * n);
        }
    }
    // u^e solves the equation of exp(e l)
    let y = spow(su_, e);
    lemma_pow_law(sl, su_, e, rest, m);
    let ld = deriv(sl);
    let sd = deriv(ss);
    assert forall|t: int| 0 <= t < rest - 1 implies #[trigger] (cmul(sd, y, t) % m) == ((t + 1) * coeff(y, t + 1)) % m by {
        let w = Seq::new(rest as nat, |i: int| e * coeff(ld, i));
        assert forall|i: int| 0 <= i < t + 1 implies #[trigger] (coeff(sd, i) % m) == coeff(w, i) % m by {
            crate::poly::lemma_coeff_deriv(ss, i);
            crate::poly::lemma_coeff_deriv(sl, i);
            assert(w[i] == e * coeff(ld, i));
            let li = coeff(sl, i + 1);
            assert(coeff(ss, i + 1) == (li * em) % m);
            vstd::arithmetic::div_mod::lemma_mod_twice(li * em, m);
            vstd::arithmetic::div_mod::lemma_mod_twice(li, m);
            vstd::arithmetic::div_mod::lemma_mod_twice(e as int, m);
            crate::dft::lemma_cong_mul(li, em, li, e as int, m);
            vstd::arithmetic::div_mod::lemma_mod_twice(i + 1, m);
            crate::dft::lemma_cong_mul(i + 1, coeff(ss, i + 1), i + 1, li * e, m);
            assert((i + 1) * (li * e) == e * ((i + 1) * li)) by (nonlinear_arith);
        }
        crate::poly::lemma_cmul_cong_left(sd, w, y, t, m);
        assert forall|i: int| 0 <= i <= t implies #[trigger] coeff(w, i) == coeff(Seq::<int>::empty(), i) + e * coeff(ld, i) by {
            assert(w[i] == e * coeff(ld, i));
        }
        crate::poly::lemma_cmul_lin_left(w, Seq::<int>::empty(), ld, e as int, y, t);
        crate::poly::lemma_coeff_prod(Seq::<int>::empty(), y, t);
        assert(crate::poly::prod(Seq::<int>::empty(), y) =~= Seq::<int>::empty());
    }
    assert(exp_law(ss, y, rest, m));
    lemma_spow_const(su_, e);
    vstd::arithmetic::div_mod::lemma_small_mod(0, M as nat);
    lemma_exp_law_unique(ss, se, y, rest, m);
    // v ≡ c u, so v^e ≡ c^e u^e
    assert forall|j: int| #[trigger] (coeff(v, j) % m) == (c * coeff(su_, j)) % m by {
        if 0 <= j < u.len() {
            let vj = coeff(v, j);
            vstd::arithmetic::div_mod::lemma_mod_twice(vj * ci, m);
            vstd::arithmetic::div_mod::lemma_mod_twice(c, m);
            crate::dft::lemma_cong_mul(c, coeff(su_, j), c, vj * ci, m);
            assert(c * (vj * ci) == vj * (c * ci)) by (nonlinear_arith);
            vstd::arithmetic::div_mod::lemma_mod_twice(vj, m);
            vstd::arithmetic::div_mod::lemma_mod_twice(c * ci, m);
            vstd::arithmetic::div_mod::lemma_small_mod(1, M as nat);
            crate::dft::lemma_cong_mul(vj, c * ci, vj, 1, m);
        }
    }
    lemma_spow_scale(v, su_, c, e, m);
    assert forall|t: int| 0 <= t < n implies #[trigger] out[t]@ == coeff(spow(residues(f), e), t) % m by {
        if t < shift {
            assert(su[t]@ == 0);
        } else {
            let j = t - shift;
            assert(su[shift + j] == bs[j]);
            assert(out[t]@ == bs[j]@);
            let ej = coeff(se, j);
            let yj = coeff(y, j);
            let pc = pow(c, e);
            assert(bs[j]@ == (ej * ce) % m);
            lemma_cong_from_diff(ej, yj, m);
            vstd::arithmetic::div_mod::lemma_mod_twice(pc, m);
            crate::dft::lemma_cong_mul(ej, ce, yj, pc, m);
            assert(yj * pc == pc * yj) by (nonlinear_arith);
            assert(coeff(spow(residues(f), e), t) == coeff(spow(v, e), j));
        }
    }
}

/// The inverses of `1..n` modulo `M` in `O(n)`: `inv[i] = -(M / i) * inv[M % i]`.  Slot `0`
/// holds `0`, and `inv[i]` is the inverse of `i` when `M` has no divisor in `2..=i`.
pub fn inverse_table<const M: u32>(n: usize) -> (inv: Vec<ModInt<M>>)
    requires
        1 <= M < 0x8000_0000,
        n <= u32::MAX,
    ensures
        inv@.len() == if n == 0 { 1 } else { n },
        all_wf(inv@),
        inv@[0]@ == 0,
        forall|i: int| 1 <= i < n ==> #[trigger] inv@[i]@ == table_inverse(M as int, i),
        forall|i: int|
            1 <= i < n && #[trigger] invertible_upto(M as int, i) ==> (inv@[i]@ * i) % (M as int) == 1int % (M as int),
{
    let size = if n > 1 { n } else { 1 };
    let mut inv = vec![ModInt::<M>::raw(0); size];
    let ghost m = M as int;
    if n > 1 {
        let one = ModInt::<M>::new(1u32);
        proof {
            assert(invertible_upto(m, 1));
        }
        inv.set(1, one);
        proof {
            vstd::arithmetic::div_mod::lemma_mod_twice(1, m);
            assert((inv@[1]@ * 1) % m == 1int % m);
        }
    }
    let mut i: usize = 2;
    while i < n
        invariant
            1 <= M < 0x8000_0000,
            m == M as int,
            n <= u32::MAX,
            2 <= i,
            inv@.len() == size,
            size == if n > 1 { n } else { 1 },
            all_wf(inv@),
            inv@[0]@ == 0,
            forall|t: int| 1 <= t < i && t < n && #[trigger] invertible_upto(m, t) ==> (inv@[t]@ * t) % m == 1int % m,
            forall|t: int| 1 <= t < i && t < n ==> #[trigger] inv@[t]@ == table_inverse(m, t),
        decreases n - i,
    {
        let q = (M / i as u32) as u64;
        let r = (M % i as u32) as usize;
        let ir = inv[r];
        let nq = ModInt::<M>::new(q);
        proof {
            ModInt::<M>::lemma_ops(ir, nq);
        }
        let neg = ir.neg();
        proof {
            ModInt::<M>::lemma_ops(neg, nq);
        }
        inv.set(i, neg * nq);
        proof {
            let ii = i as int;
            assert(i as u32 == i);
            assert(q as int == m / ii);
            assert(r as int == m % ii);
            vstd::arithmetic::div_mod::lemma_mod_bound(m, ii);
            if r == 0 {
                assert(ir@ == table_inverse(m, r as int));
            } else {
                assert(ir@ == table_inverse(m, r as int));
            }
            assert(nq@ == (q as int) % m);
            assert(neg@ == (-ir@) % m);
            assert(inv@[ii]@ == (neg@ * nq@) % m);
            assert(inv@[ii]@ == table_inverse(m, ii));
            if invertible_upto(m, ii) {
                let rr = r as int;
                let qq = q as int;
                vstd::arithmetic::div_mod::lemma_fundamental_div_mod(m, ii);
                vstd::arithmetic::mul::lemma_mul_is_commutative(ii, qq);
                assert(rr != 0);
                assert(invertible_upto(m, rr));
                lemma_inverse_step(m, ii, qq, rr, ir@, inv@[ii]@);
            }
        }
        i += 1;
    }
    inv
}

impl<const M: u32> Fps<M> {

    /// `self * c`, coefficient by coefficient.
    fn scale(&self, c: ModInt<M>) -> (r: Self)
        requires
            self.wf(),
            c.wf(),
        ensures
            r.wf(),
            r@.len() == self@.len(),
            forall|i: int| 0 <= i < r@.len() ==> #[trigger] r@[i]@ == (self@[i]@ * c@) % (M as int),
    {
        let mut coef: Vec<ModInt<M>> = Vec::new();
        let mut i: usize = 0;
        while i < self.coef.len()
            invariant
                self.wf(),
                c.wf(),
                i <= self@.len(),
                coef@.len() == i,
                all_wf(coef@),
                forall|t: int| 0 <= t < i ==> #[trigger] coef@[t]@ == (self@[t]@ * c@) % (M as int),
            decreases self@.len() - i,
        {
            let x = self.coef[i];
            proof {
                assert(self@[i as int].wf());
                ModInt::<M>::lemma_ops(x, c);
            }
            coef.push(x * c);
            i += 1;
        }
        Fps { coef }
    }

    /// `self + rhs` (`sub == false`) or `self - rhs` (`sub == true`) over the longer length.
    fn add_or_sub(&self, rhs: &Self, sub: bool) -> (r: Self)
        requires
            self.wf(),
            rhs.wf(),
        ensures
            r.wf(),
            r@.len() == if self@.len() < rhs@.len() { rhs@.len() } else { self@.len() },
            forall|i: int|
                0 <= i < r@.len() ==> #[trigger] r@[i]@ == (if sub {
                    coef_at(self@, i) - coef_at(rhs@, i)
                } else {
                    coef_at(self@, i) + coef_at(rhs@, i)
                }) % (M as int),
    {
        let mut coef = self.pre(if self.coef.len() < rhs.coef.len() { rhs.coef.len() } else { self.coef.len() }).coef;
        let n = coef.len();
        let mut i: usize = 0;
        while i < n
            invariant
                self.wf(),
                rhs.wf(),
                n == coef@.len(),
                n == if self@.len() < rhs@.len() { rhs@.len() } else { self@.len() },
                i <= n,
                all_wf(coef@),
                forall|t: int| i <= t < n ==> #[trigger] coef@[t]@ == coef_at(self@, t),
                forall|t: int|
                    0 <= t < i ==> #[trigger] coef@[t]@ == (if sub {
                        coef_at(self@, t) - coef_at(rhs@, t)
                    } else {
                        coef_at(self@, t) + coef_at(rhs@, t)
                    }) % (M as int),
            decreases n - i,
        {
            if i < rhs.coef.len() {
                let x = coef[i];
                let y = rhs.coef[i];
                proof {
                    assert(rhs@[i as int].wf());
                    assert(coef@[i as int].wf());
                    assert(x@ == coef_at(self@, i as int));
                    assert(y@ == coef_at(rhs@, i as int));
                    ModInt::<M>::lemma_ops(x, y);
                }
                if sub {
                    coef.set(i, x - y);
                } else {
                    coef.set(i, x + y);
                }
            } else {
                proof {
                    assert(coef@[i as int].wf());
                    let v = coef@[i as int]@;
                    vstd::arithmetic::div_mod::lemma_small_mod(v as nat, M as nat);
                    assert(coef_at(rhs@, i as int) == 0);
                }
            }
            i += 1;
        }
        Fps { coef }
    }

    /// `self * rhs` as polynomials, with all `len + len - 1` terms.
    fn multiply(&self, rhs: &Self) -> (r: Self)
        requires
            self.wf(),
            rhs.wf(),
            self@.len() + rhs@.len() <= usize::MAX,
            self@.len() > 60 && rhs@.len() > 60 ==> ntt_modulus(M as int) && ntt_friendly_for(
                M as int,
                self@.len() + rhs@.len() - 1,
            ),
        ensures
            r.wf(),
            self@.len() == 0 || rhs@.len() == 0 ==> r@.len() == 0,
            self@.len() > 0 && rhs@.len() > 0 ==> r@.len() == self@.len() + rhs@.len() - 1,
            self@.len() <= 60 || rhs@.len() <= 60 || is_prime(M as int) ==> forall|k: int|
                0 <= k < r@.len() ==> #[trigger] r@[k]@ == conv_coef(residues(self@), residues(rhs@), k) % (M as int),
    {
        Fps { coef: convolution(self.coef.as_slice(), rhs.coef.as_slice()) }
    }

    /// The inverse series to `n` terms: `self * r ≡ 1 (mod x^n)`.  The constant term must be a
    /// unit.  The products are exact for a prime modulus, and for `n <= 32` whatever the
    /// modulus; then so is the inverse.
    pub fn inv(&self, n: usize) -> (r: Self)
        requires
            self.wf(),
            coef_at(self@, 0) != 0,
            gcd(coef_at(self@, 0) as nat, M as nat) == 1,
            n > 64 ==> ntt_ready(M as int, 2 * n),
        ensures
            r.wf(),
            r@.len() == n,
            n <= 32 || is_prime(M as int) ==> forall|t: int|
                0 <= t < n ==> #[trigger] (cmul(residues(self@), residues(r@), t) % (M as int)) == delta(t) % (M as int),
    {
        if n == 0 {
            return Fps { coef: vec![] };
        }
        let ghost mm = M as int;
        let ghost fs = residues(self@);
        let ghost exact = n <= 32 || is_prime(M as int);
        // g_{2k} = g_k (2 - f g_k) mod x^{2k}
        let f0 = self.at(0);
        let g0 = f0.inv();
        let mut g: Vec<ModInt<M>> = vec![g0];
        let mut k: usize = 1;
        proof {
            assert(is_pow2(1usize)) by (bit_vector);
            if n > 64 {
                assert(ntt_friendly_for(M as int, 2 * n as int));
            }
            let gs = residues(g@);
            let fz = |i: int| coeff(fs, i) * coeff(gs, 0 - i);
            assert(cmul(fs, gs, 0) == sum(fz, 1)) by {
                assert((|i: int| coeff(fs, i) * coeff(gs, 0 - i)) =~= fz);
            }
            assert(sum(fz, 1) == sum(fz, 0) + fz(0));
            assert(coeff(fs, 0) == f0@);
            assert(coeff(gs, 0) == g0@);
        }
        while k < n
            invariant
                self.wf(),
                self@.len() >= 1,
                mm == M as int,
                fs == residues(self@),
                exact == (n <= 32 || is_prime(M as int)),
                n <= 0x4000_0000,
                n > 64 ==> ntt_ready(M as int, 2 * n),
                1 <= k,
                k < 2 * n,
                is_pow2(k),
                1 <= g@.len() <= k,
                all_wf(g@),
                exact ==> forall|t: int|
                    0 <= t < k ==> #[trigger] (cmul(fs, residues(g@), t) % mm) == delta(t) % mm,
            decreases 2 * n - k,
        {
            let ghost k_old = k;
            let ghost gs = residues(g@);
            proof {
                assert(k <= 32 || k >= 64) by (bit_vector)
                    requires
                        k > 0,
                        k & ((k - 1) as usize) == 0,
                ;
                assert(is_pow2((k * 2) as usize)) by (bit_vector)
                    requires
                        k > 0,
                        k & ((k - 1) as usize) == 0,
                        k < 0x4000_0000,
                ;
            }
            k *= 2;
            let m = if self.coef.len() < k { self.coef.len() } else { k };
            let f = &self.coef.as_slice()[0..m];
            proof {
                assert forall|i: int| 0 <= i < f@.len() implies #[trigger] f@[i].wf() by {
                    assert(f@[i] == self@[i]);
                }
                if m > 60 && g@.len() > 60 {
                    assert(n > 64);
                    lemma_ready_up_to(M as int, 2 * n as int, k);
                    assert(1 <= m + g@.len() - 1 <= 2 * k);
                    assert(ntt_friendly_for(M as int, m + g@.len() - 1));
                }
            }
            let mut fg = convolution(f, g.as_slice());
            let ghost fgc = fg@;
            fg.truncate(k);
            let ghost fl = fg@.len();
            let ghost fg0 = fg@;
            assert(fl >= 1);
            let mut i: usize = 0;
            while i < fg.len()
                invariant
                    1 <= M < 0x8000_0000,
                    fg@.len() == fl,
                    fg0.len() == fl,
                    all_wf(fg0),
                    fl >= 1,
                    i <= fg@.len(),
                    all_wf(fg@),
                    forall|t: int| 0 <= t < i ==> #[trigger] fg@[t]@ == (-fg0[t]@) % (M as int),
                    forall|t: int| i <= t < fl ==> #[trigger] fg@[t] == fg0[t],
                decreases fg@.len() - i,
            {
                let x = fg[i];
                proof {
                    assert(fg0[i as int].wf());
                    ModInt::<M>::lemma_ops(x, x);
                }
                fg.set(i, x.neg());
                i += 1;
            }
            let two = ModInt::<M>::new(2u32);
            let c0 = fg[0];
            proof {
                assert(fg@[0].wf());
                ModInt::<M>::lemma_ops(c0, two);
            }
            fg.set(0, c0 + two);
            proof {
                if g@.len() > 60 && fg@.len() > 60 {
                    assert(n > 64);
                    lemma_ready_up_to(M as int, 2 * n as int, k);
                    assert(1 <= g@.len() + fg@.len() - 1 <= 2 * k);
                    assert(ntt_friendly_for(M as int, g@.len() + fg@.len() - 1));
                }
            }
            let mut next = convolution(g.as_slice(), fg.as_slice());
            let ghost nc = next@;
            next.truncate(k);
            proof {
                if exact {
                    let ft = residues(f@);
                    let fgs = residues(fg0);
                    let hs = residues(fg@);
                    let ns = residues(next@);
                    assert forall|t: int| 0 <= t < fgs.len() implies #[trigger] fgs[t] == conv_coef(ft, gs, t) % mm by {
                        assert(fg0[t] == fgc[t]);
                    }
                    lemma_truncated_product(ft, gs, fgs, k as int, mm);
                    assert forall|t: int| 0 <= t < k implies #[trigger] (coeff(ft, t) % mm) == coeff(fs, t) % mm by {
                        if t < m {
                            assert(f@[t] == self@[t]);
                        }
                    }
                    assert forall|t: int| 0 <= t < k implies #[trigger] (coeff(hs, t) % mm) == (2 * delta(t) - coeff(fgs, t)) % mm by {
                        if t < fl {
                            assert(fg0[t].wf());
                            let v = fg0[t]@;
                            if t == 0 {
                                vstd::arithmetic::div_mod::lemma_mod_twice(-v, mm);
                                vstd::arithmetic::div_mod::lemma_mod_twice(2, mm);
                                crate::dft::lemma_cong_add((-v) % mm, 2int % mm, -v, 2, mm);
                                vstd::arithmetic::div_mod::lemma_mod_twice((-v) % mm + 2int % mm, mm);
                                assert(-v + 2 == 2 * delta(t) - v);
                            } else {
                                vstd::arithmetic::div_mod::lemma_mod_twice(-v, mm);
                            }
                        } else {
                            assert(delta(t) == 0);
                        }
                    }
                    assert forall|t: int| 0 <= t < ns.len() implies #[trigger] ns[t] == conv_coef(gs, hs, t) % mm by {
                        assert(next@[t] == nc[t]);
                    }
                    lemma_truncated_product(gs, hs, ns, k as int, mm);
                    crate::poly::lemma_inv_step(fs, ft, gs, fgs, hs, ns, k_old as int, k as int, mm);
                }
            }
            g = next;
        }
        let zero = ModInt::<M>::raw(0);
        let ghost before = g@;
        g.resize(n, zero);
        proof {
            assert forall|i: int| 0 <= i < n implies #[trigger] g@[i].wf() by {
                if i < before.len() {
                    if n <= before.len() {
                        assert(g@[i] == before.subrange(0, n as int)[i]);
                    } else {
                        assert(g@[i] == g@.subrange(0, before.len() as int)[i]);
                    }
                    assert(before[i].wf());
                }
            }
        }
        proof {
            if exact {
                let gs = residues(before);
                let rs = residues(g@);
                assert forall|t: int| 0 <= t < n implies #[trigger] (cmul(fs, rs, t) % mm) == delta(t) % mm by {
                    assert forall|i: int| 0 <= i < t + 1 implies #[trigger] (coeff(rs, i) % mm) == coeff(gs, i) % mm by {
                        if i < before.len() {
                            if n <= before.len() {
                                assert(g@[i] == before.subrange(0, n as int)[i]);
                            } else {
                                assert(g@[i] == g@.subrange(0, before.len() as int)[i]);
                            }
                        } else {
                            assert(g@[i] == zero);
                        }
                    }
                    crate::poly::lemma_cmul_cong_right(fs, rs, gs, t, mm);
                }
            }
        }
        Fps { coef: g }
    }
}

impl<const M: u32> Clone for Fps<M> {
    fn clone(&self) -> (r: Self)
        ensures
            r@ == self@,
    {
        Fps { coef: self.coef.clone() }
    }
}

impl<const M: u32> Default for Fps<M> {
    fn default() -> (r: Self)
        ensures
            r@.len() == 0,
    {
        Fps { coef: Vec::new() }
    }
}

impl<const M: u32> From<Vec<ModInt<M>>> for Fps<M> {
    fn from(coef: Vec<ModInt<M>>) -> (r: Self)
        ensures
            r@ == coef@,
    {
        Fps { coef }
    }
}

impl<const M: u32> vstd::std_specs::convert::FromSpecImpl<Vec<ModInt<M>>> for Fps<M> {
    open spec fn obeys_from_spec() -> bool {
        true
    }

    open spec fn from_spec(coef: Vec<ModInt<M>>) -> Self {
        Fps::<M>::from_vec_spec(coef)
    }
}

impl<const M: u32> Fps<M> {
    /// The series with the coefficients of `coef`.
    pub closed spec fn from_vec_spec(coef: Vec<ModInt<M>>) -> Self {
        Fps { coef }
    }
}

/// Term by term; the shorter series counts as padded with zeros.
impl<const M: u32> Add for Fps<M> {
    type Output = Self;

    fn add(self, rhs: Self) -> (r: Self)
        ensures
            r.wf(),
            r@.len() == if self@.len() < rhs@.len() { rhs@.len() } else { self@.len() },
            forall|i: int| 0 <= i < r@.len() ==> #[trigger] r@[i]@ == (coef_at(self@, i) + coef_at(rhs@, i)) % (M as int),
    {
        self.add_or_sub(&rhs, false)
    }
}

/// `+` has no spec function of its own: the `ensures` of `add` say what it gives.
impl<const M: u32> AddSpecImpl for Fps<M> {
    open spec fn obeys_add_spec() -> bool {
        false
    }

    open spec fn add_req(self, rhs: Self) -> bool {
        self.wf() && rhs.wf()
    }

    open spec fn add_spec(self, rhs: Self) -> Self {
        self
    }
}

/// Term by term; the shorter series counts as padded with zeros.
impl<const M: u32> Sub for Fps<M> {
    type Output = Self;

    fn sub(self, rhs: Self) -> (r: Self)
        ensures
            r.wf(),
            r@.len() == if self@.len() < rhs@.len() { rhs@.len() } else { self@.len() },
            forall|i: int| 0 <= i < r@.len() ==> #[trigger] r@[i]@ == (coef_at(self@, i) - coef_at(rhs@, i)) % (M as int),
    {
        self.add_or_sub(&rhs, true)
    }
}

/// `-` has no spec function of its own: the `ensures` of `sub` say what it gives.
impl<const M: u32> SubSpecImpl for Fps<M> {
    open spec fn obeys_sub_spec() -> bool {
        false
    }

    open spec fn sub_req(self, rhs: Self) -> bool {
        self.wf() && rhs.wf()
    }

    open spec fn sub_spec(self, rhs: Self) -> Self {
        self
    }
}

impl<const M: u32> Neg for Fps<M> {
    type Output = Self;

    fn neg(self) -> (r: Self)
        ensures
            r.wf(),
            r@.len() == self@.len(),
            forall|i: int| 0 <= i < r@.len() ==> #[trigger] r@[i]@ == (-self@[i]@) % (M as int),
    {
        let mut coef = self.coef;
        let ghost orig = coef@;
        let mut i: usize = 0;
        while i < coef.len()
            invariant
                1 <= M < 0x8000_0000,
                all_wf(orig),
                coef@.len() == orig.len(),
                i <= coef@.len(),
                all_wf(coef@),
                forall|t: int| i <= t < coef@.len() ==> #[trigger] coef@[t] == orig[t],
                forall|t: int| 0 <= t < i ==> #[trigger] coef@[t]@ == (-orig[t]@) % (M as int),
            decreases coef@.len() - i,
        {
            let x = coef[i];
            proof {
                assert(coef@[i as int].wf());
                ModInt::<M>::lemma_ops(x, x);
            }
            coef.set(i, x.neg());
            i += 1;
        }
        Fps { coef }
    }
}

/// `-` has no spec function of its own: the `ensures` of `neg` say what it gives.
impl<const M: u32> NegSpecImpl for Fps<M> {
    open spec fn obeys_neg_spec() -> bool {
        false
    }

    open spec fn neg_req(self) -> bool {
        self.wf()
    }

    open spec fn neg_spec(self) -> Self {
        self
    }
}

/// The product as polynomials, with all `len + len - 1` terms.
impl<const M: u32> Mul for Fps<M> {
    type Output = Self;

    fn mul(self, rhs: Self) -> (r: Self)
        ensures
            r.wf(),
            self@.len() == 0 || rhs@.len() == 0 ==> r@.len() == 0,
            self@.len() > 0 && rhs@.len() > 0 ==> r@.len() == self@.len() + rhs@.len() - 1,
            self@.len() <= 60 || rhs@.len() <= 60 || is_prime(M as int) ==> forall|k: int|
                0 <= k < r@.len() ==> #[trigger] r@[k]@ == conv_coef(residues(self@), residues(rhs@), k) % (M as int),
    {
        self.multiply(&rhs)
    }
}

/// `*` has no spec function of its own: the `ensures` of `mul` say what it gives.
impl<const M: u32> MulSpecImpl for Fps<M> {
    open spec fn obeys_mul_spec() -> bool {
        false
    }

    open spec fn mul_req(self, rhs: Self) -> bool {
        &&& self.wf()
        &&& rhs.wf()
        &&& self@.len() + rhs@.len() <= usize::MAX
        &&& self@.len() > 60 && rhs@.len() > 60 ==> ntt_modulus(M as int) && ntt_friendly_for(
            M as int,
            self@.len() + rhs@.len() - 1,
        )
    }

    open spec fn mul_spec(self, rhs: Self) -> Self {
        self
    }
}

/// Every coefficient times `rhs`.
impl<const M: u32> Mul<ModInt<M>> for Fps<M> {
    type Output = Self;

    fn mul(self, rhs: ModInt<M>) -> (r: Self)
        ensures
            r.wf(),
            r@.len() == self@.len(),
            forall|i: int| 0 <= i < r@.len() ==> #[trigger] r@[i]@ == (self@[i]@ * rhs@) % (M as int),
    {
        self.scale(rhs)
    }
}

/// `*` has no spec function of its own: the `ensures` of `mul` say what it gives.
impl<const M: u32> MulSpecImpl<ModInt<M>> for Fps<M> {
    open spec fn obeys_mul_spec() -> bool {
        false
    }

    open spec fn mul_req(self, rhs: ModInt<M>) -> bool {
        self.wf() && rhs.wf()
    }

    open spec fn mul_spec(self, rhs: ModInt<M>) -> Self {
        self
    }
}


impl<const M: u32> Fps<M> {
    /// Whether every coefficient is a valid residue.
    fn check_wf(&self) -> (b: bool)
        ensures
            b == self.wf(),
    {
        if M >= 0x8000_0000 || M == 0 {
            return false;
        }
        let mut i: usize = 0;
        while i < self.coef.len()
            invariant
                1 <= M < 0x8000_0000,
                i <= self@.len(),
                forall|t: int| 0 <= t < i ==> #[trigger] self@[t].wf(),
            decreases self@.len() - i,
        {
            if self.coef[i].val() >= M {
                proof {
                    assert(!self@[i as int].wf());
                }
                return false;
            }
            i += 1;
        }
        true
    }
}

impl<const M: u32> AddAssign for Fps<M> {
    /// Term by term, as `+`; leaves `self` unchanged unless both series are valid.
    fn add_assign(&mut self, rhs: Self)
        ensures
            old(self).wf() && rhs.wf() ==> final(self).wf() && final(self)@.len() == (if old(self)@.len() < rhs@.len() {
                rhs@.len()
            } else {
                old(self)@.len()
            }) && forall|i: int|
                0 <= i < final(self)@.len() ==> #[trigger] final(self)@[i]@ == (coef_at(old(self)@, i) + coef_at(rhs@, i)) % (
                M as int),
    {
        if self.check_wf() && rhs.check_wf() {
            let r = self.add_or_sub(&rhs, false);
            *self = r;
        }
    }
}

impl<const M: u32> SubAssign for Fps<M> {
    /// Term by term, as `-`; leaves `self` unchanged unless both series are valid.
    fn sub_assign(&mut self, rhs: Self)
        ensures
            old(self).wf() && rhs.wf() ==> final(self).wf() && final(self)@.len() == (if old(self)@.len() < rhs@.len() {
                rhs@.len()
            } else {
                old(self)@.len()
            }) && forall|i: int|
                0 <= i < final(self)@.len() ==> #[trigger] final(self)@[i]@ == (coef_at(old(self)@, i) - coef_at(rhs@, i)) % (
                M as int),
    {
        if self.check_wf() && rhs.check_wf() {
            let r = self.add_or_sub(&rhs, true);
            *self = r;
        }
    }
}

impl<const M: u32> MulAssign<ModInt<M>> for Fps<M> {
    /// Multiplies every coefficient by `rhs`; leaves `self` unchanged unless both are valid.
    fn mul_assign(&mut self, rhs: ModInt<M>)
        ensures
            old(self).wf() && rhs.wf() ==> final(self).wf() && final(self)@.len() == old(self)@.len() && forall|i: int|
                0 <= i < final(self)@.len() ==> #[trigger] final(self)@[i]@ == (old(self)@[i]@ * rhs@) % (M as int),
    {
        if self.check_wf() && rhs.val() < M {
            let r = self.scale(rhs);
            *self = r;
        }
    }
}

impl<const M: u32> core::ops::Index<usize> for Fps<M> {
    type Output = ModInt<M>;

    /// The coefficient of degree `i`, which must be below the length.
    fn index(&self, i: usize) -> (r: &ModInt<M>)
        ensures
            *r == self@[i as int],
    {
        &self.coef[i]
    }
}

impl<const M: u32> vstd::std_specs::core::IndexSpecImpl<usize> for Fps<M> {
    open spec fn index_req(&self, i: &usize) -> bool {
        *i < self@.len()
    }
}

} // verus!

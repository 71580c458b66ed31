//! The residue ring `Z/MZ` with the modulus as a const generic, `1 <= M < 2^31`.
//!
//! `ModInt` is not a monoid by itself: which operation is meant is chosen by wrapping it,
//! as in `algebra::Sum<ModInt<M>>` or `algebra::Prod<ModInt<M>>`.
use vstd::prelude::*;
use vstd::arithmetic::power::pow;
use vstd::pervasive::strictly_cloned;
use vstd::std_specs::ops::{AddSpecImpl, SubSpecImpl, MulSpecImpl, NegSpecImpl, DivSpecImpl};
use vstd::std_specs::iter::IteratorSpec;
use core::ops::{Add, Sub, Mul, Neg, Div};
use crate::algebra::{Monoid, Group, Sum, Prod};
use crate::numtheory::{gcd, mod_add, mod_sub, mod_mul, mod_pow, mod_inv, mod_sqrt, is_prime, is_sqrt_mod};
pub use crate::numtheory::inv_gcd;

mod ops;

verus! {

/// An element of `Z/MZ`, stored as its least non-negative residue.
#[derive(Clone, Copy, PartialEq, Eq, Hash, PartialOrd, Ord, Debug, Default)]
pub struct ModInt<const M: u32> {
    val: u32,
}

pub type ModInt998244353 = ModInt<998_244_353>;

pub type ModInt1000000007 = ModInt<1_000_000_007>;

impl<const M: u32> View for ModInt<M> {
    type V = int;

    /// The residue, in `0..M`.
    closed spec fn view(&self) -> int {
        self.val as int
    }
}

/// `q` is a residue with `q * d ≡ n (mod M)`.
pub open spec fn is_quotient<const M: u32>(q: int, n: int, d: int) -> bool {
    0 <= q < M && (q * d) % (M as int) == n % (M as int)
}

/// The quotient `n / d` in `Z/MZ`: the residue `q` with `q * d ≡ n`, when there is one.
pub open spec fn quotient<const M: u32>(n: int, d: int) -> int {
    choose|q: int| is_quotient::<M>(q, n, d)
}

/// A quotient by a unit is unique.
pub proof fn lemma_quotient_unique<const M: u32>(q1: int, q2: int, n: int, d: int, i: int)
    requires
        M >= 1,
        is_quotient::<M>(q1, n, d),
        is_quotient::<M>(q2, n, d),
        (d * i) % (M as int) == 1int % (M as int),
    ensures
        q1 == q2,
{
    let m = M as int;
    // q ≡ q * (d * i) = (q * d) * i ≡ n * i
    assert forall|q: int| is_quotient::<M>(q, n, d) implies q == (n * i) % m by {
        vstd::arithmetic::div_mod::lemma_mul_mod_noop_right(q, d * i, m);
        vstd::arithmetic::div_mod::lemma_mul_mod_noop_right(q, 1, m);
        vstd::arithmetic::mul::lemma_mul_is_associative(q, d, i);
        vstd::arithmetic::div_mod::lemma_mul_mod_noop_left(q * d, i, m);
        vstd::arithmetic::div_mod::lemma_mul_mod_noop_left(n, i, m);
        vstd::arithmetic::div_mod::lemma_small_mod(q as nat, m as nat);
    }
}

/// Integer types whose values can be reduced modulo a `u32`.
pub trait RemEuclidU32: Sized {
    /// The mathematical value.
    spec fn int_value(&self) -> int;

    /// `self mod m`, the least non-negative residue.
    fn rem_euclid_u32(self, m: u32) -> (r: u32)
        requires
            m >= 1,
        ensures
            r == self.int_value() % (m as int),
    ;
}

impl<const M: u32> ModInt<M> {
    /// A valid element: its residue is below the modulus, and the modulus is in range.
    pub open spec fn wf(self) -> bool {
        0 <= self@ < M && M < 0x8000_0000
    }

    /// The element with residue `v` (meaningful for `0 <= v < M`).
    pub closed spec fn from_view(v: int) -> Self {
        ModInt { val: v as u32 }
    }

    pub proof fn lemma_from_view(v: int)
        requires
            0 <= v <= u32::MAX,
        ensures
            #[trigger] Self::from_view(v)@ == v,
    {
    }

    /// Elements are equal exactly when their residues are.
    pub proof fn lemma_view_eq(a: Self, b: Self)
        ensures
            #[trigger] (a@ == b@) <==> a == b,
    {
    }

    /// The elements that a sum, difference and product of valid elements build: valid, with the
    /// reduced residue.
    pub proof fn lemma_ops(a: Self, b: Self)
        requires
            a.wf(),
            b.wf(),
        ensures
            Self::from_view((a@ + b@) % (M as int))@ == (a@ + b@) % (M as int),
            Self::from_view((a@ - b@) % (M as int))@ == (a@ - b@) % (M as int),
            Self::from_view((a@ * b@) % (M as int))@ == (a@ * b@) % (M as int),
            Self::from_view((a@ + b@) % (M as int)).wf(),
            Self::from_view((a@ - b@) % (M as int)).wf(),
            Self::from_view((a@ * b@) % (M as int)).wf(),
            Self::from_view((-a@) % (M as int))@ == (-a@) % (M as int),
            Self::from_view((-a@) % (M as int)).wf(),
    {
        let m = M as int;
        vstd::arithmetic::div_mod::lemma_mod_bound(-a@, m);
        vstd::arithmetic::div_mod::lemma_mod_bound(a@ + b@, m);
        vstd::arithmetic::div_mod::lemma_mod_bound(a@ - b@, m);
        vstd::arithmetic::div_mod::lemma_mod_bound(a@ * b@, m);
    }

    /// Builds from `0 <= value < M` without reduction.
    pub fn raw(value: u32) -> (r: Self)
        requires
            value < M,
            M < 0x8000_0000,
        ensures
            r@ == value,
            r.wf(),
    {
        ModInt { val: value }
    }

    pub fn val(self) -> (r: u32)
        ensures
            r == self@,
    {
        self.val
    }

    pub fn modulus() -> (r: u32)
        ensures
            r == M,
    {
        M
    }

    /// Reduces `value` modulo `M`; negative values are accepted.
    pub fn new<T: RemEuclidU32>(value: T) -> (r: Self)
        requires
            1 <= M < 0x8000_0000,
        ensures
            r@ == value.int_value() % (M as int),
            r.wf(),
    {
        let v = value.rem_euclid_u32(M);
        ModInt { val: v }
    }

    /// `self^n`, by binary exponentiation in `O(log n)`.
    pub fn pow(self, n: u64) -> (r: Self)
        requires
            self.wf(),
        ensures
            r@ == pow(self@, n as nat) % (M as int),
            r.wf(),
    {
        ModInt { val: mod_pow(self.val, n, M) }
    }

    /// The multiplicative inverse; the element must be coprime to the modulus.
    /// The modulus need not be prime.
    pub fn inv(self) -> (r: Self)
        requires
            self.wf(),
            gcd(self@ as nat, M as nat) == 1,
        ensures
            (self@ * r@) % (M as int) == 1int % (M as int),
            r.wf(),
    {
        ModInt { val: mod_inv(self.val, M) }
    }

    /// A square root, assuming the modulus is prime (Tonelli–Shanks); `None` when there is none.
    /// Which of the two roots is returned is left open; the other is `-r`.
    /// For a prime modulus, `None` comes exactly for the non-residues.
    pub fn sqrt(self) -> (r: Option<Self>)
        requires
            self.wf(),
        ensures
            (self@ <= 1 || M == 2) ==> r == Some(self),
            M > 2 && self@ > 1 && pow(self@, ((M - 1) / 2) as nat) % (M as int) != 1 ==> r is None,
            M % 4 == 3 && pow(self@, ((M - 1) / 2) as nat) % (M as int) == 1 ==> r is Some,
            is_prime(M as int) && pow(self@, ((M - 1) / 2) as nat) % (M as int) == 1 ==> r is Some,
            is_prime(M as int) && (exists|x: int| #[trigger] is_sqrt_mod(x, self@, M as int)) ==> r is Some,
            r matches Some(x) ==> x.wf() && (x@ * x@) % (M as int) == self@,
    {
        match mod_sqrt(self.val, M) {
            Some(x) => Some(ModInt { val: x }),
            None => None,
        }
    }

    /// `0`.
    pub fn zero() -> (r: Self)
        requires
            1 <= M < 0x8000_0000,
        ensures
            r@ == 0,
            r.wf(),
    {
        ModInt { val: 0 }
    }

    /// `1 mod M`.
    pub fn one() -> (r: Self)
        requires
            1 <= M < 0x8000_0000,
        ensures
            r@ == 1int % (M as int),
            r.wf(),
    {
        ModInt { val: 1 % M }
    }
}

impl<const M: u32> Add for ModInt<M> {
    type Output = Self;

    fn add(self, rhs: Self) -> (r: Self) {
        ModInt { val: mod_add(self.val, rhs.val, M) }
    }
}

impl<const M: u32> AddSpecImpl for ModInt<M> {
    open spec fn obeys_add_spec() -> bool {
        true
    }

    open spec fn add_req(self, rhs: Self) -> bool {
        self.wf() && rhs.wf()
    }

    open spec fn add_spec(self, rhs: Self) -> Self {
        Self::from_view((self@ + rhs@) % (M as int))
    }
}

impl<const M: u32> Sub for ModInt<M> {
    type Output = Self;

    fn sub(self, rhs: Self) -> (r: Self) {
        ModInt { val: mod_sub(self.val, rhs.val, M) }
    }
}

impl<const M: u32> SubSpecImpl for ModInt<M> {
    open spec fn obeys_sub_spec() -> bool {
        true
    }

    open spec fn sub_req(self, rhs: Self) -> bool {
        self.wf() && rhs.wf()
    }

    open spec fn sub_spec(self, rhs: Self) -> Self {
        Self::from_view((self@ - rhs@) % (M as int))
    }
}

impl<const M: u32> Mul for ModInt<M> {
    type Output = Self;

    fn mul(self, rhs: Self) -> (r: Self) {
        ModInt { val: mod_mul(self.val, rhs.val, M) }
    }
}

impl<const M: u32> MulSpecImpl for ModInt<M> {
    open spec fn obeys_mul_spec() -> bool {
        true
    }

    open spec fn mul_req(self, rhs: Self) -> bool {
        self.wf() && rhs.wf()
    }

    open spec fn mul_spec(self, rhs: Self) -> Self {
        Self::from_view((self@ * rhs@) % (M as int))
    }
}

impl<const M: u32> Neg for ModInt<M> {
    type Output = Self;

    fn neg(self) -> (r: Self) {
        let v = if self.val == 0 {
            0
        } else {
            M - self.val
        };
        proof {
            if self.val == 0 {
                vstd::arithmetic::div_mod::lemma_small_mod(0, M as nat);
            } else {
                vstd::arithmetic::div_mod::lemma_mod_add_multiples_vanish(-self.val, M as int);
                vstd::arithmetic::div_mod::lemma_small_mod(v as nat, M as nat);
            }
        }
        ModInt { val: v }
    }
}

impl<const M: u32> NegSpecImpl for ModInt<M> {
    open spec fn obeys_neg_spec() -> bool {
        true
    }

    open spec fn neg_req(self) -> bool {
        self.wf()
    }

    open spec fn neg_spec(self) -> Self {
        Self::from_view((-self@) % (M as int))
    }
}

impl<const M: u32> Div for ModInt<M> {
    type Output = Self;

    /// `self * rhs⁻¹`; `rhs` must be coprime to the modulus.
    fn div(self, rhs: Self) -> (r: Self) {
        let i = rhs.inv();
        let r = self * i;
        proof {
            let m = M as int;
            Self::lemma_from_view((self@ * i@) % m);
            // r * rhs ≡ self * (i * rhs) ≡ self
            assert(is_quotient::<M>(r@, self@, rhs@)) by {
                vstd::arithmetic::div_mod::lemma_mul_mod_noop_left(self@ * i@, rhs@, m);
                vstd::arithmetic::mul::lemma_mul_is_associative(self@, i@, rhs@);
                vstd::arithmetic::mul::lemma_mul_is_commutative(i@, rhs@);
                vstd::arithmetic::div_mod::lemma_mul_mod_noop_right(self@, rhs@ * i@, m);
                vstd::arithmetic::div_mod::lemma_mul_mod_noop_right(self@, 1, m);
            }
            let q = quotient::<M>(self@, rhs@);
            lemma_quotient_unique::<M>(q, r@, self@, rhs@, i@);
            Self::lemma_from_view(q);
            Self::lemma_view_eq(r, Self::from_view(q));
        }
        r
    }
}

impl<const M: u32> DivSpecImpl for ModInt<M> {
    open spec fn obeys_div_spec() -> bool {
        true
    }

    open spec fn div_req(self, rhs: Self) -> bool {
        self.wf() && rhs.wf() && gcd(rhs@ as nat, M as nat) == 1
    }

    /// The quotient `q`, unique in `0..M` with `q * rhs ≡ self`.
    open spec fn div_spec(self, rhs: Self) -> Self {
        Self::from_view(quotient::<M>(self@, rhs@))
    }
}


/// `acc` is the run of accumulators of a fold of `items` with `f`: each is a result of `f` on
/// the one before and the next item.
pub open spec fn is_fold_run<B, T, F: Fn(B, T) -> B>(f: F, items: Seq<T>, acc: Seq<B>) -> bool {
    &&& acc.len() == items.len() + 1
    &&& forall|i: int| 0 <= i < items.len() ==> call_ensures(f, (acc[i], #[trigger] items[i]), acc[i + 1])
}

/// `r` is what folding `items` with `f` from `init` can give: the end of a run that starts at
/// `init`.
pub open spec fn is_fold_result<B, T, F: Fn(B, T) -> B>(f: F, items: Seq<T>, init: B, r: B) -> bool {
    exists|acc: Seq<B>| #[trigger] is_fold_run(f, items, acc) && acc[0] == init && acc.last() == r
}

/// `Iterator::fold(iter, init, f)`: `f` applied to the items in order, starting from `init`.
/// The contract: for an iterator that follows vstd's iterator laws, the result ends a run of
/// accumulators over the items still to come, starting at `init`. Of another iterator nothing
/// is said.
#[verifier::external_body]
fn fold_iter<I: Iterator, B, F: Fn(B, I::Item) -> B>(iter: I, init: B, f: F) -> (r: B)
    requires
        forall|b: B, x: I::Item| call_requires(f, (b, x)),
    ensures
        iter.obeys_prophetic_iter_laws() ==> is_fold_result(f, iter.remaining(), init, r),
{
    iter.fold(init, f)
}

/// `sum_{i < n} s[i]`, of the residues.
pub open spec fn residue_sum<const M: u32>(s: Seq<ModInt<M>>) -> int
    decreases s.len(),
{
    if s.len() == 0 {
        0
    } else {
        residue_sum(s.drop_last()) + s.last()@
    }
}

/// `prod_{i < n} s[i]`, of the residues.
pub open spec fn residue_product<const M: u32>(s: Seq<ModInt<M>>) -> int
    decreases s.len(),
{
    if s.len() == 0 {
        1
    } else {
        residue_product(s.drop_last()) * s.last()@
    }
}

/// All items are valid residues.
pub open spec fn all_valid<const M: u32>(s: Seq<ModInt<M>>) -> bool {
    forall|i: int| 0 <= i < s.len() ==> #[trigger] s[i].wf()
}

/// The items behind references.
pub open spec fn derefs<'a, const M: u32>(s: Seq<&'a ModInt<M>>) -> Seq<ModInt<M>> {
    s.map_values(|x: &'a ModInt<M>| *x)
}

impl<const M: u32> ModInt<M> {
    /// `a + b` for valid elements; `a` otherwise.
    fn sum_step(a: Self, b: Self) -> (r: Self)
        ensures
            a.wf() && b.wf() ==> r.wf() && r@ == (a@ + b@) % (M as int),
    {
        if a.val < M && b.val < M && M < 0x8000_0000 {
            proof {
                Self::lemma_ops(a, b);
            }
            a + b
        } else {
            a
        }
    }

    /// `a * b` for valid elements; `a` otherwise.
    fn product_step(a: Self, b: Self) -> (r: Self)
        ensures
            a.wf() && b.wf() ==> r.wf() && r@ == (a@ * b@) % (M as int),
    {
        if a.val < M && b.val < M && M < 0x8000_0000 {
            proof {
                Self::lemma_ops(a, b);
            }
            a * b
        } else {
            a
        }
    }

    /// Along a run of sums over valid items from a valid start, each accumulator is the sum so
    /// far; `val` reads an item as an element.
    proof fn lemma_sum_run<T, F: Fn(Self, T) -> Self>(
        f: F,
        val: spec_fn(T) -> Self,
        items: Seq<T>,
        acc: Seq<Self>,
        k: int,
    )
        requires
            is_fold_run(f, items, acc),
            acc[0].wf(),
            all_valid(items.map_values(val)),
            forall|a: Self, b: T, r: Self|
                #[trigger] call_ensures(f, (a, b), r) && a.wf() && val(b).wf() ==> r.wf() && r@ == (a@ + val(b)@) % (
                M as int),
            0 <= k <= items.len(),
        ensures
            acc[k].wf(),
            acc[k]@ == (acc[0]@ + residue_sum(items.map_values(val).take(k))) % (M as int),
        decreases k,
    {
        let m = M as int;
        let vs = items.map_values(val);
        if k == 0 {
            assert(vs.take(0).len() == 0);
            vstd::arithmetic::div_mod::lemma_small_mod(acc[0]@ as nat, m as nat);
        } else {
            Self::lemma_sum_run(f, val, items, acc, k - 1);
            assert(call_ensures(f, (acc[k - 1], items[k - 1]), acc[k]));
            assert(vs[k - 1].wf());
            assert(vs.take(k).drop_last() =~= vs.take(k - 1));
            let p = acc[0]@ + residue_sum(vs.take(k - 1));
            vstd::arithmetic::div_mod::lemma_add_mod_noop(p, vs[k - 1]@, m);
            vstd::arithmetic::div_mod::lemma_mod_twice(p, m);
            vstd::arithmetic::div_mod::lemma_small_mod(vs[k - 1]@ as nat, m as nat);
        }
    }

    /// Along a run of products over valid items from a valid start, each accumulator is the
    /// product so far; `val` reads an item as an element.
    proof fn lemma_product_run<T, F: Fn(Self, T) -> Self>(
        f: F,
        val: spec_fn(T) -> Self,
        items: Seq<T>,
        acc: Seq<Self>,
        k: int,
    )
        requires
            is_fold_run(f, items, acc),
            acc[0].wf(),
            all_valid(items.map_values(val)),
            forall|a: Self, b: T, r: Self|
                #[trigger] call_ensures(f, (a, b), r) && a.wf() && val(b).wf() ==> r.wf() && r@ == (a@ * val(b)@) % (
                M as int),
            0 <= k <= items.len(),
        ensures
            acc[k].wf(),
            acc[k]@ == (acc[0]@ * residue_product(items.map_values(val).take(k))) % (M as int),
        decreases k,
    {
        let m = M as int;
        let vs = items.map_values(val);
        if k == 0 {
            assert(vs.take(0).len() == 0);
            vstd::arithmetic::div_mod::lemma_small_mod(acc[0]@ as nat, m as nat);
        } else {
            Self::lemma_product_run(f, val, items, acc, k - 1);
            assert(call_ensures(f, (acc[k - 1], items[k - 1]), acc[k]));
            assert(vs[k - 1].wf());
            assert(vs.take(k).drop_last() =~= vs.take(k - 1));
            let q = residue_product(vs.take(k - 1));
            let x = vs[k - 1]@;
            let a0 = acc[0]@;
            vstd::arithmetic::div_mod::lemma_mul_mod_noop_left(a0 * q, x, m);
            assert(a0 * (q * x) == (a0 * q) * x) by (nonlinear_arith);
        }
    }

    /// `(1 mod M) x ≡ x`.
    proof fn lemma_unit_times(x: int)
        requires
            1 <= M,
        ensures
            ((1int % (M as int)) * x) % (M as int) == x % (M as int),
    {
        vstd::arithmetic::div_mod::lemma_mul_mod_noop_left(1, x, M as int);
    }

    /// Every result of folding valid items with the sum step from `0` is their sum.
    proof fn lemma_sum_fold<T, F: Fn(Self, T) -> Self>(f: F, val: spec_fn(T) -> Self)
        requires
            1 <= M < 0x8000_0000,
            forall|a: Self, b: T, r: Self|
                #[trigger] call_ensures(f, (a, b), r) && a.wf() && val(b).wf() ==> r.wf() && r@ == (a@ + val(b)@) % (
                M as int),
        ensures
            forall|items: Seq<T>, r: Self|
                #[trigger] is_fold_result(f, items, ModInt::<M> { val: 0 }, r) && all_valid(items.map_values(val))
                    ==> r.wf() && r@ == residue_sum(items.map_values(val)) % (M as int),
    {
        assert forall|items: Seq<T>, r: Self|
            #[trigger] is_fold_result(f, items, ModInt::<M> { val: 0 }, r) && all_valid(items.map_values(val)) implies r.wf()
            && r@ == residue_sum(items.map_values(val)) % (M as int) by {
            let acc = choose|acc: Seq<Self>| #[trigger] is_fold_run(f, items, acc) && acc[0] == ModInt::<M> { val: 0 } && acc.last() == r;
            Self::lemma_sum_run(f, val, items, acc, items.len() as int);
            assert(items.map_values(val).take(items.len() as int) =~= items.map_values(val));
            vstd::arithmetic::div_mod::lemma_mod_twice(residue_sum(items.map_values(val)), M as int);
        }
    }

    /// Every result of folding valid items with the product step from `1` is their product.
    proof fn lemma_product_fold<T, F: Fn(Self, T) -> Self>(f: F, val: spec_fn(T) -> Self, u: Self)
        requires
            1 <= M < 0x8000_0000,
            u@ == 1int % (M as int),
            forall|a: Self, b: T, r: Self|
                #[trigger] call_ensures(f, (a, b), r) && a.wf() && val(b).wf() ==> r.wf() && r@ == (a@ * val(b)@) % (
                M as int),
        ensures
            forall|items: Seq<T>, r: Self|
                #[trigger] is_fold_result(f, items, u, r) && all_valid(items.map_values(val)) ==> r.wf() && r@
                    == residue_product(items.map_values(val)) % (M as int),
    {
        vstd::arithmetic::div_mod::lemma_mod_bound(1, M as int);
        assert forall|items: Seq<T>, r: Self|
            #[trigger] is_fold_result(f, items, u, r) && all_valid(items.map_values(val)) implies r.wf() && r@
            == residue_product(items.map_values(val)) % (M as int) by {
            let acc = choose|acc: Seq<Self>| #[trigger] is_fold_run(f, items, acc) && acc[0] == u && acc.last() == r;
            Self::lemma_product_run(f, val, items, acc, items.len() as int);
            assert(items.map_values(val).take(items.len() as int) =~= items.map_values(val));
            Self::lemma_unit_times(residue_product(items.map_values(val)));
        }
    }

    /// Reading items as themselves leaves them as they are.
    proof fn lemma_identity_map(val: spec_fn(Self) -> Self)
        requires
            forall|x: Self| #[trigger] val(x) == x,
        ensures
            forall|items: Seq<Self>| #[trigger] items.map_values(val) == items,
    {
        assert forall|items: Seq<Self>| #[trigger] items.map_values(val) == items by {
            assert(items.map_values(val) =~= items);
        }
    }

    /// `1 mod M`, and `0` for the modulus `0`, which has no elements.
    fn unit() -> (r: Self)
        ensures
            M >= 1 ==> r@ == 1int % (M as int),
    {
        if M == 0 {
            ModInt { val: 0 }
        } else {
            ModInt { val: 1 % M }
        }
    }
}

impl<const M: u32> core::iter::Sum for ModInt<M> {
    /// The sum of the items, `0` for none.
    fn sum<I: Iterator<Item = Self>>(iter: I) -> (r: Self)
        ensures
            1 <= M < 0x8000_0000 && iter.obeys_prophetic_iter_laws() && all_valid(iter.remaining()) ==> r.wf()
                && r@ == residue_sum(iter.remaining()) % (M as int),
    {
        let f = |a: Self, b: Self| -> (r: Self)
            ensures
                a.wf() && b.wf() ==> r.wf() && r@ == (a@ + b@) % (M as int),
            { Self::sum_step(a, b) };
        let r = fold_iter(iter, ModInt { val: 0 }, f);
        proof {
            if 1 <= M < 0x8000_0000 {
                let val = |x: Self| x;
                Self::lemma_sum_fold(f, val);
                Self::lemma_identity_map(val);
            }
        }
        r
    }
}

impl<'a, const M: u32> core::iter::Sum<&'a ModInt<M>> for ModInt<M> {
    /// The sum of the items, `0` for none.
    fn sum<I: Iterator<Item = &'a ModInt<M>>>(iter: I) -> (r: Self)
        ensures
            1 <= M < 0x8000_0000 && iter.obeys_prophetic_iter_laws() && all_valid(derefs(iter.remaining())) ==> r.wf()
                && r@ == residue_sum(derefs(iter.remaining())) % (M as int),
    {
        let f = |a: Self, b: &'a ModInt<M>| -> (r: Self)
            ensures
                a.wf() && b.wf() ==> r.wf() && r@ == (a@ + b@) % (M as int),
            { Self::sum_step(a, *b) };
        let r = fold_iter(iter, ModInt { val: 0 }, f);
        proof {
            if 1 <= M < 0x8000_0000 {
                Self::lemma_sum_fold(f, |x: &'a ModInt<M>| *x);
            }
        }
        r
    }
}

impl<const M: u32> core::iter::Product for ModInt<M> {
    /// The product of the items, `1` for none.
    fn product<I: Iterator<Item = Self>>(iter: I) -> (r: Self)
        ensures
            1 <= M < 0x8000_0000 && iter.obeys_prophetic_iter_laws() && all_valid(iter.remaining()) ==> r.wf()
                && r@ == residue_product(iter.remaining()) % (M as int),
    {
        let f = |a: Self, b: Self| -> (r: Self)
            ensures
                a.wf() && b.wf() ==> r.wf() && r@ == (a@ * b@) % (M as int),
            { Self::product_step(a, b) };
        let u = Self::unit();
        let r = fold_iter(iter, u, f);
        proof {
            if 1 <= M < 0x8000_0000 {
                let val = |x: Self| x;
                Self::lemma_product_fold(f, val, u);
                Self::lemma_identity_map(val);
            }
        }
        r
    }
}

impl<'a, const M: u32> core::iter::Product<&'a ModInt<M>> for ModInt<M> {
    /// The product of the items, `1` for none.
    fn product<I: Iterator<Item = &'a ModInt<M>>>(iter: I) -> (r: Self)
        ensures
            1 <= M < 0x8000_0000 && iter.obeys_prophetic_iter_laws() && all_valid(derefs(iter.remaining())) ==> r.wf()
                && r@ == residue_product(derefs(iter.remaining())) % (M as int),
    {
        let f = |a: Self, b: &'a ModInt<M>| -> (r: Self)
            ensures
                a.wf() && b.wf() ==> r.wf() && r@ == (a@ * b@) % (M as int),
            { Self::product_step(a, *b) };
        let u = Self::unit();
        let r = fold_iter(iter, u, f);
        proof {
            if 1 <= M < 0x8000_0000 {
                Self::lemma_product_fold(f, |x: &'a ModInt<M>| *x, u);
            }
        }
        r
    }
}

impl RemEuclidU32 for u8 {
    open spec fn int_value(&self) -> int {
        *self as int
    }

    fn rem_euclid_u32(self, m: u32) -> (r: u32) {
        proof {
            vstd::arithmetic::div_mod::lemma_mod_bound(self as int, m as int);
        }
        ((self as u128) % (m as u128)) as u32
    }
}

impl RemEuclidU32 for u16 {
    open spec fn int_value(&self) -> int {
        *self as int
    }

    fn rem_euclid_u32(self, m: u32) -> (r: u32) {
        proof {
            vstd::arithmetic::div_mod::lemma_mod_bound(self as int, m as int);
        }
        ((self as u128) % (m as u128)) as u32
    }
}

impl RemEuclidU32 for u32 {
    open spec fn int_value(&self) -> int {
        *self as int
    }

    fn rem_euclid_u32(self, m: u32) -> (r: u32) {
        proof {
            vstd::arithmetic::div_mod::lemma_mod_bound(self as int, m as int);
        }
        ((self as u128) % (m as u128)) as u32
    }
}

impl RemEuclidU32 for u64 {
    open spec fn int_value(&self) -> int {
        *self as int
    }

    fn rem_euclid_u32(self, m: u32) -> (r: u32) {
        proof {
            vstd::arithmetic::div_mod::lemma_mod_bound(self as int, m as int);
        }
        ((self as u128) % (m as u128)) as u32
    }
}

impl RemEuclidU32 for u128 {
    open spec fn int_value(&self) -> int {
        *self as int
    }

    fn rem_euclid_u32(self, m: u32) -> (r: u32) {
        proof {
            vstd::arithmetic::div_mod::lemma_mod_bound(self as int, m as int);
        }
        ((self as u128) % (m as u128)) as u32
    }
}

impl RemEuclidU32 for usize {
    open spec fn int_value(&self) -> int {
        *self as int
    }

    fn rem_euclid_u32(self, m: u32) -> (r: u32) {
        proof {
            vstd::arithmetic::div_mod::lemma_mod_bound(self as int, m as int);
        }
        ((self as u128) % (m as u128)) as u32
    }
}

impl RemEuclidU32 for i8 {
    open spec fn int_value(&self) -> int {
        *self as int
    }

    fn rem_euclid_u32(self, m: u32) -> (r: u32) {
        rem_euclid_i128(self as i128, m) as u32
    }
}

impl RemEuclidU32 for i16 {
    open spec fn int_value(&self) -> int {
        *self as int
    }

    fn rem_euclid_u32(self, m: u32) -> (r: u32) {
        rem_euclid_i128(self as i128, m) as u32
    }
}

impl RemEuclidU32 for i32 {
    open spec fn int_value(&self) -> int {
        *self as int
    }

    fn rem_euclid_u32(self, m: u32) -> (r: u32) {
        rem_euclid_i128(self as i128, m) as u32
    }
}

impl RemEuclidU32 for i64 {
    open spec fn int_value(&self) -> int {
        *self as int
    }

    fn rem_euclid_u32(self, m: u32) -> (r: u32) {
        rem_euclid_i128(self as i128, m) as u32
    }
}

impl RemEuclidU32 for isize {
    open spec fn int_value(&self) -> int {
        *self as int
    }

    fn rem_euclid_u32(self, m: u32) -> (r: u32) {
        rem_euclid_i128(self as i128, m) as u32
    }
}

impl RemEuclidU32 for i128 {
    open spec fn int_value(&self) -> int {
        *self as int
    }

    fn rem_euclid_u32(self, m: u32) -> (r: u32) {
        rem_euclid_i128(self, m) as u32
    }
}

/// `x mod m` for a signed 128-bit `x`.
pub(crate) fn rem_euclid_i128(x: i128, m: u32) -> (r: u32)
    requires
        m >= 1,
    ensures
        r == (x as int) % (m as int),
{
    if x >= 0 {
        proof {
            vstd::arithmetic::div_mod::lemma_mod_bound(x as int, m as int);
        }
        ((x as u128) % (m as u128)) as u32
    } else {
        let p: u128 = (-(x + 1)) as u128 + 1;
        let q: u128 = p % (m as u128);
        proof {
            crate::numtheory::lemma_neg_mod(x as int, m as int, q as int);
            vstd::arithmetic::div_mod::lemma_mod_bound(p as int, m as int);
        }
        if q == 0 {
            0
        } else {
            m - (q as u32)
        }
    }
}


/// `(a + b) + c ≡ a + (b + c)` and the like on residues, in the form the monoid laws need.
proof fn lemma_mod_assoc(a: int, b: int, c: int, m: int, mul: bool)
    requires
        m >= 1,
    ensures
        mul ==> ((a * b) % m * c) % m == (a * ((b * c) % m)) % m,
        !mul ==> ((a + b) % m + c) % m == (a + (b + c) % m) % m,
{
    if mul {
        vstd::arithmetic::div_mod::lemma_mul_mod_noop_left(a * b, c, m);
        vstd::arithmetic::div_mod::lemma_mul_mod_noop_right(a, b * c, m);
        vstd::arithmetic::mul::lemma_mul_is_associative(a, b, c);
    } else {
        vstd::arithmetic::div_mod::lemma_add_mod_noop((a + b) % m, c, m);
        vstd::arithmetic::div_mod::lemma_add_mod_noop(a + b, c, m);
        vstd::arithmetic::div_mod::lemma_mod_twice(a + b, m);
        vstd::arithmetic::div_mod::lemma_add_mod_noop(a, (b + c) % m, m);
        vstd::arithmetic::div_mod::lemma_add_mod_noop(a, b + c, m);
        vstd::arithmetic::div_mod::lemma_mod_twice(b + c, m);
        assert((a + b) + c == a + (b + c));
    }
}

/// `x % m` differs from `x` by a multiple of `m`, and lies in `[0, m)`.
proof fn lemma_reduced(x: int, m: int)
    requires
        m > 0,
    ensures
        0 <= x % m < m,
        (x % m - x) % m == 0,
{
    vstd::arithmetic::div_mod::lemma_mod_bound(x, m);
    vstd::arithmetic::div_mod::lemma_sub_mod_noop(x % m, x, m);
    vstd::arithmetic::div_mod::lemma_mod_twice(x, m);
    vstd::arithmetic::div_mod::lemma_small_mod(0, m as nat);
}

/// The residue instances: `Sum`, its difference and `Prod` give residues in `[0, M)` that agree
/// with `a + b`, `a - b` and `a b` modulo `M`.
pub proof fn lemma_modint_instances<const M: u32>(s: Sum<ModInt<M>>, p: Prod<ModInt<M>>, a: ModInt<M>, b: ModInt<M>)
    requires
        1 <= M < 0x8000_0000,
    ensures
        0 <= s.op_spec(a, b)@ < M,
        (s.op_spec(a, b)@ - (a@ + b@)) % (M as int) == 0,
        0 <= s.inv_op_spec(a, b)@ < M,
        (s.inv_op_spec(a, b)@ - (a@ - b@)) % (M as int) == 0,
        0 <= p.op_spec(a, b)@ < M,
        (p.op_spec(a, b)@ - a@ * b@) % (M as int) == 0,
{
    let m = M as int;
    lemma_reduced(a@ + b@, m);
    lemma_reduced(a@ - b@, m);
    lemma_reduced(a@ * b@, m);
    ModInt::<M>::lemma_from_view((a@ + b@) % m);
    ModInt::<M>::lemma_from_view((a@ - b@) % m);
    ModInt::<M>::lemma_from_view((a@ * b@) % m);
}

impl<const M: u32> Monoid for Sum<ModInt<M>> {
    type T = ModInt<M>;

    open spec fn wf(&self) -> bool {
        1 <= M < 0x8000_0000
    }

    open spec fn identity_spec(&self) -> ModInt<M> {
        ModInt::<M>::from_view(0)
    }

    open spec fn op_spec(&self, a: ModInt<M>, b: ModInt<M>) -> ModInt<M> {
        ModInt::<M>::from_view((a@ + b@) % (M as int))
    }

    open spec fn valid(&self, a: ModInt<M>) -> bool {
        a.wf()
    }

    proof fn lemma_laws(&self, a: ModInt<M>, b: ModInt<M>, c: ModInt<M>) {
        let m = M as int;
        lemma_mod_assoc(a@, b@, c@, m, false);
        vstd::arithmetic::div_mod::lemma_mod_bound(a@ + b@, m);
        vstd::arithmetic::div_mod::lemma_mod_bound(b@ + c@, m);
        if a.wf() {
            vstd::arithmetic::div_mod::lemma_small_mod(a@ as nat, m as nat);
        }
        vstd::arithmetic::div_mod::lemma_small_mod(0, m as nat);
    }

    fn identity(&self) -> (r: ModInt<M>) {
        ModInt::zero()
    }

    fn binary_op(&self, a: &ModInt<M>, b: &ModInt<M>) -> (r: ModInt<M>) {
        ModInt { val: mod_add(a.val, b.val, M) }
    }
}

impl<const M: u32> Group for Sum<ModInt<M>> {
    open spec fn inv_op_spec(&self, a: ModInt<M>, b: ModInt<M>) -> ModInt<M> {
        ModInt::<M>::from_view((a@ - b@) % (M as int))
    }

    proof fn lemma_group_laws(&self, a: ModInt<M>, b: ModInt<M>) {
        let m = M as int;
        vstd::arithmetic::div_mod::lemma_mod_bound(a@ + b@, m);
        vstd::arithmetic::div_mod::lemma_sub_mod_noop(a@ + b@, a@, m);
        vstd::arithmetic::div_mod::lemma_mod_twice(a@ + b@, m);
        vstd::arithmetic::div_mod::lemma_mod_twice(a@, m);
        vstd::arithmetic::div_mod::lemma_small_mod(a@ as nat, m as nat);
        vstd::arithmetic::div_mod::lemma_small_mod(b@ as nat, m as nat);
        ModInt::<M>::lemma_from_view((a@ + b@) % m);
    }

    fn inv_binary_op(&self, a: &ModInt<M>, b: &ModInt<M>) -> (r: ModInt<M>) {
        ModInt { val: mod_sub(a.val, b.val, M) }
    }
}

impl<const M: u32> Monoid for Prod<ModInt<M>> {
    type T = ModInt<M>;

    open spec fn wf(&self) -> bool {
        1 <= M < 0x8000_0000
    }

    open spec fn identity_spec(&self) -> ModInt<M> {
        ModInt::<M>::from_view(1int % (M as int))
    }

    open spec fn op_spec(&self, a: ModInt<M>, b: ModInt<M>) -> ModInt<M> {
        ModInt::<M>::from_view((a@ * b@) % (M as int))
    }

    open spec fn valid(&self, a: ModInt<M>) -> bool {
        a.wf()
    }

    proof fn lemma_laws(&self, a: ModInt<M>, b: ModInt<M>, c: ModInt<M>) {
        let m = M as int;
        lemma_mod_assoc(a@, b@, c@, m, true);
        vstd::arithmetic::div_mod::lemma_mod_bound(a@ * b@, m);
        vstd::arithmetic::div_mod::lemma_mod_bound(b@ * c@, m);
        vstd::arithmetic::div_mod::lemma_mod_bound(1, m);
        vstd::arithmetic::div_mod::lemma_mul_mod_noop_left(1, a@, m);
        vstd::arithmetic::div_mod::lemma_mul_mod_noop_right(a@, 1, m);
        if a.wf() {
            vstd::arithmetic::div_mod::lemma_small_mod(a@ as nat, m as nat);
        }
    }

    fn identity(&self) -> (r: ModInt<M>) {
        ModInt::one()
    }

    fn binary_op(&self, a: &ModInt<M>, b: &ModInt<M>) -> (r: ModInt<M>) {
        ModInt { val: mod_mul(a.val, b.val, M) }
    }
}


impl<const M: u32> From<i32> for ModInt<M> {
    /// Reduces modulo `M`, as `new` does.
    fn from(value: i32) -> (r: Self) {
        if M == 0 {
            ModInt { val: 0 }
        } else {
            ModInt { val: value.rem_euclid_u32(M) }
        }
    }
}

impl<const M: u32> vstd::std_specs::convert::FromSpecImpl<i32> for ModInt<M> {
    open spec fn obeys_from_spec() -> bool {
        1 <= M < 0x8000_0000
    }

    open spec fn from_spec(v: i32) -> Self {
        Self::from_view((v as int) % (M as int))
    }
}

impl<const M: u32> From<i64> for ModInt<M> {
    /// Reduces modulo `M`, as `new` does.
    fn from(value: i64) -> (r: Self) {
        if M == 0 {
            ModInt { val: 0 }
        } else {
            ModInt { val: value.rem_euclid_u32(M) }
        }
    }
}

impl<const M: u32> vstd::std_specs::convert::FromSpecImpl<i64> for ModInt<M> {
    open spec fn obeys_from_spec() -> bool {
        1 <= M < 0x8000_0000
    }

    open spec fn from_spec(v: i64) -> Self {
        Self::from_view((v as int) % (M as int))
    }
}

impl<const M: u32> From<u32> for ModInt<M> {
    /// Reduces modulo `M`, as `new` does.
    fn from(value: u32) -> (r: Self) {
        if M == 0 {
            ModInt { val: 0 }
        } else {
            ModInt { val: value.rem_euclid_u32(M) }
        }
    }
}

impl<const M: u32> vstd::std_specs::convert::FromSpecImpl<u32> for ModInt<M> {
    open spec fn obeys_from_spec() -> bool {
        1 <= M < 0x8000_0000
    }

    open spec fn from_spec(v: u32) -> Self {
        Self::from_view((v as int) % (M as int))
    }
}

impl<const M: u32> From<u64> for ModInt<M> {
    /// Reduces modulo `M`, as `new` does.
    fn from(value: u64) -> (r: Self) {
        if M == 0 {
            ModInt { val: 0 }
        } else {
            ModInt { val: value.rem_euclid_u32(M) }
        }
    }
}

impl<const M: u32> vstd::std_specs::convert::FromSpecImpl<u64> for ModInt<M> {
    open spec fn obeys_from_spec() -> bool {
        1 <= M < 0x8000_0000
    }

    open spec fn from_spec(v: u64) -> Self {
        Self::from_view((v as int) % (M as int))
    }
}

impl<const M: u32> From<u8> for ModInt<M> {
    /// Reduces modulo `M`, as `new` does.
    fn from(value: u8) -> (r: Self) {
        if M == 0 {
            ModInt { val: 0 }
        } else {
            ModInt { val: value.rem_euclid_u32(M) }
        }
    }
}

impl<const M: u32> vstd::std_specs::convert::FromSpecImpl<u8> for ModInt<M> {
    open spec fn obeys_from_spec() -> bool {
        1 <= M < 0x8000_0000
    }

    open spec fn from_spec(v: u8) -> Self {
        Self::from_view((v as int) % (M as int))
    }
}

impl<const M: u32> From<u16> for ModInt<M> {
    /// Reduces modulo `M`, as `new` does.
    fn from(value: u16) -> (r: Self) {
        if M == 0 {
            ModInt { val: 0 }
        } else {
            ModInt { val: value.rem_euclid_u32(M) }
        }
    }
}

impl<const M: u32> vstd::std_specs::convert::FromSpecImpl<u16> for ModInt<M> {
    open spec fn obeys_from_spec() -> bool {
        1 <= M < 0x8000_0000
    }

    open spec fn from_spec(v: u16) -> Self {
        Self::from_view((v as int) % (M as int))
    }
}

impl<const M: u32> From<u128> for ModInt<M> {
    /// Reduces modulo `M`, as `new` does.
    fn from(value: u128) -> (r: Self) {
        if M == 0 {
            ModInt { val: 0 }
        } else {
            ModInt { val: value.rem_euclid_u32(M) }
        }
    }
}

impl<const M: u32> vstd::std_specs::convert::FromSpecImpl<u128> for ModInt<M> {
    open spec fn obeys_from_spec() -> bool {
        1 <= M < 0x8000_0000
    }

    open spec fn from_spec(v: u128) -> Self {
        Self::from_view((v as int) % (M as int))
    }
}

impl<const M: u32> From<usize> for ModInt<M> {
    /// Reduces modulo `M`, as `new` does.
    fn from(value: usize) -> (r: Self) {
        if M == 0 {
            ModInt { val: 0 }
        } else {
            ModInt { val: value.rem_euclid_u32(M) }
        }
    }
}

impl<const M: u32> vstd::std_specs::convert::FromSpecImpl<usize> for ModInt<M> {
    open spec fn obeys_from_spec() -> bool {
        1 <= M < 0x8000_0000
    }

    open spec fn from_spec(v: usize) -> Self {
        Self::from_view((v as int) % (M as int))
    }
}

impl<const M: u32> From<i8> for ModInt<M> {
    /// Reduces modulo `M`, as `new` does.
    fn from(value: i8) -> (r: Self) {
        if M == 0 {
            ModInt { val: 0 }
        } else {
            ModInt { val: value.rem_euclid_u32(M) }
        }
    }
}

impl<const M: u32> vstd::std_specs::convert::FromSpecImpl<i8> for ModInt<M> {
    open spec fn obeys_from_spec() -> bool {
        1 <= M < 0x8000_0000
    }

    open spec fn from_spec(v: i8) -> Self {
        Self::from_view((v as int) % (M as int))
    }
}

impl<const M: u32> From<i16> for ModInt<M> {
    /// Reduces modulo `M`, as `new` does.
    fn from(value: i16) -> (r: Self) {
        if M == 0 {
            ModInt { val: 0 }
        } else {
            ModInt { val: value.rem_euclid_u32(M) }
        }
    }
}

impl<const M: u32> vstd::std_specs::convert::FromSpecImpl<i16> for ModInt<M> {
    open spec fn obeys_from_spec() -> bool {
        1 <= M < 0x8000_0000
    }

    open spec fn from_spec(v: i16) -> Self {
        Self::from_view((v as int) % (M as int))
    }
}

impl<const M: u32> From<i128> for ModInt<M> {
    /// Reduces modulo `M`, as `new` does.
    fn from(value: i128) -> (r: Self) {
        if M == 0 {
            ModInt { val: 0 }
        } else {
            ModInt { val: value.rem_euclid_u32(M) }
        }
    }
}

impl<const M: u32> vstd::std_specs::convert::FromSpecImpl<i128> for ModInt<M> {
    open spec fn obeys_from_spec() -> bool {
        1 <= M < 0x8000_0000
    }

    open spec fn from_spec(v: i128) -> Self {
        Self::from_view((v as int) % (M as int))
    }
}

impl<const M: u32> From<isize> for ModInt<M> {
    /// Reduces modulo `M`, as `new` does.
    fn from(value: isize) -> (r: Self) {
        if M == 0 {
            ModInt { val: 0 }
        } else {
            ModInt { val: value.rem_euclid_u32(M) }
        }
    }
}

impl<const M: u32> vstd::std_specs::convert::FromSpecImpl<isize> for ModInt<M> {
    open spec fn obeys_from_spec() -> bool {
        1 <= M < 0x8000_0000
    }

    open spec fn from_spec(v: isize) -> Self {
        Self::from_view((v as int) % (M as int))
    }
}

} // verus!

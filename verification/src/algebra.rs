//! Monoids and groups: an identity element with an associative binary operation,
//! and, for groups, a difference operation `a ∘ b⁻¹`.
//!
//! Each instance carries spec functions for its identity and operation, and proves
//! the laws once; the data structures in this crate are verified against those laws.
//! On fixed-width integers `Sum` and `Prod` wrap around, so the laws hold for every input.
use vstd::prelude::*;
use vstd::pervasive::strictly_cloned;
use std::marker::PhantomData;

verus! {

/// A monoid: `identity` with an associative `binary_op`.
///
/// The methods take `&self`, so an instance may carry constants fixed at run time
/// (a modulus, a precomputed table) and share them.
pub trait Monoid: Sized {
    type T: Clone;

    /// The instance is ready for use (for closure-based instances: the closure obeys the laws).
    spec fn wf(&self) -> bool;

    spec fn identity_spec(&self) -> Self::T;

    spec fn op_spec(&self, a: Self::T, b: Self::T) -> Self::T;

    /// The elements the laws speak of (every value, except for types with a representation
    /// invariant such as `ModInt`).
    spec fn valid(&self, a: Self::T) -> bool;

    /// Closure of the valid elements, associativity, the two identity laws, and that a
    /// clone equals its source.
    proof fn lemma_laws(&self, a: Self::T, b: Self::T, c: Self::T)
        requires
            self.wf(),
        ensures
            self.valid(self.identity_spec()),
            self.valid(a) && self.valid(b) ==> self.valid(self.op_spec(a, b)),
            self.valid(a) && self.valid(b) && self.valid(c) ==> self.op_spec(self.op_spec(a, b), c)
                == self.op_spec(a, self.op_spec(b, c)),
            self.valid(a) ==> self.op_spec(self.identity_spec(), a) == a,
            self.valid(a) ==> self.op_spec(a, self.identity_spec()) == a,
            strictly_cloned(a, b) ==> a == b,
    ;

    fn identity(&self) -> (r: Self::T)
        requires
            self.wf(),
        ensures
            r == self.identity_spec(),
    ;

    fn binary_op(&self, a: &Self::T, b: &Self::T) -> (r: Self::T)
        requires
            self.wf(),
            self.valid(*a),
            self.valid(*b),
        ensures
            r == self.op_spec(*a, *b),
    ;
}

/// A group, given by `inv_binary_op(a, b) = a ∘ b⁻¹`.
///
/// Defining the difference directly (rather than the inverse) lets unsigned integers,
/// whose inverses cannot be represented, still compute correct differences.
/// The law stated here, `(a ∘ b) ∘ a⁻¹ == b`, is what range differences need; it holds
/// in every commutative group.
pub trait Group: Monoid {
    spec fn inv_op_spec(&self, a: Self::T, b: Self::T) -> Self::T;

    proof fn lemma_group_laws(&self, a: Self::T, b: Self::T)
        requires
            self.wf(),
            self.valid(a),
            self.valid(b),
        ensures
            self.inv_op_spec(self.op_spec(a, b), a) == b,
    ;

    /// `a ∘ b⁻¹`; for integer addition `a - b`.
    fn inv_binary_op(&self, a: &Self::T, b: &Self::T) -> (r: Self::T)
        requires
            self.wf(),
            self.valid(*a),
            self.valid(*b),
        ensures
            r == self.inv_op_spec(*a, *b),
    ;

    /// The inverse of `a`.
    fn inverse(&self, a: &Self::T) -> (r: Self::T)
        requires
            self.wf(),
            self.valid(*a),
        ensures
            r == self.inv_op_spec(self.identity_spec(), *a),
    {
        let e = self.identity();
        proof {
            self.lemma_laws(e, e, e);
        }
        self.inv_binary_op(&e, a)
    }
}

/// Product of a sequence under a monoid, folded from the left; the empty product is the identity.
pub open spec fn fold<M: Monoid>(m: M, s: Seq<M::T>) -> M::T
    decreases s.len(),
{
    if s.len() == 0 {
        m.identity_spec()
    } else {
        m.op_spec(fold(m, s.drop_last()), s.last())
    }
}

/// Every element of `s` is valid for `m`.
pub open spec fn all_valid<M: Monoid>(m: M, s: Seq<M::T>) -> bool {
    forall|i: int| 0 <= i < s.len() ==> #[trigger] m.valid(s[i])
}

/// The product of valid elements is valid.
pub proof fn lemma_fold_valid<M: Monoid>(m: M, s: Seq<M::T>)
    requires
        m.wf(),
        all_valid(m, s),
    ensures
        m.valid(fold(m, s)),
    decreases s.len(),
{
    m.lemma_laws(m.identity_spec(), m.identity_spec(), m.identity_spec());
    if s.len() > 0 {
        lemma_fold_valid(m, s.drop_last());
        assert(m.valid(s[s.len() - 1]));
        m.lemma_laws(fold(m, s.drop_last()), s.last(), s.last());
    }
}

/// The product of a one-element sequence is that element.
pub proof fn lemma_fold_single<M: Monoid>(m: M, x: M::T)
    requires
        m.wf(),
        m.valid(x),
    ensures
        fold(m, seq![x]) == x,
{
    assert(seq![x].drop_last() =~= Seq::<M::T>::empty());
    assert(fold(m, Seq::<M::T>::empty()) == m.identity_spec());
    m.lemma_laws(x, x, x);
}

/// The product of a concatenation is the product of the products.
pub proof fn lemma_fold_concat<M: Monoid>(m: M, s: Seq<M::T>, t: Seq<M::T>)
    requires
        m.wf(),
        all_valid(m, s),
        all_valid(m, t),
    ensures
        fold(m, s + t) == m.op_spec(fold(m, s), fold(m, t)),
    decreases t.len(),
{
    lemma_fold_valid(m, s);
    if t.len() == 0 {
        assert(s + t =~= s);
        m.lemma_laws(fold(m, s), fold(m, s), fold(m, s));
    } else {
        lemma_fold_concat(m, s, t.drop_last());
        lemma_fold_valid(m, t.drop_last());
        assert(m.valid(t[t.len() - 1]));
        assert((s + t).drop_last() =~= s + t.drop_last());
        assert((s + t).last() == t.last());
        m.lemma_laws(fold(m, s), fold(m, t.drop_last()), t.last());
    }
}

/// Splitting a range of a sequence at `mid` splits its product.
pub proof fn lemma_fold_split<M: Monoid>(m: M, s: Seq<M::T>, lo: int, mid: int, hi: int)
    requires
        m.wf(),
        0 <= lo <= mid <= hi <= s.len(),
        forall|i: int| lo <= i < hi ==> #[trigger] m.valid(s[i]),
    ensures
        fold(m, s.subrange(lo, hi)) == m.op_spec(fold(m, s.subrange(lo, mid)), fold(m, s.subrange(mid, hi))),
{
    assert(s.subrange(lo, hi) =~= s.subrange(lo, mid) + s.subrange(mid, hi));
    assert(all_valid(m, s.subrange(lo, mid)));
    assert(all_valid(m, s.subrange(mid, hi)));
    lemma_fold_concat(m, s.subrange(lo, mid), s.subrange(mid, hi));
}

/// Extending a range by one element on the right.
pub proof fn lemma_fold_push<M: Monoid>(m: M, s: Seq<M::T>, lo: int, hi: int)
    requires
        m.wf(),
        0 <= lo <= hi < s.len(),
    ensures
        fold(m, s.subrange(lo, hi + 1)) == m.op_spec(fold(m, s.subrange(lo, hi)), s[hi]),
{
    assert(s.subrange(lo, hi + 1).drop_last() =~= s.subrange(lo, hi));
}

/// The product of `s[l..r]`; the identity when the range is empty (`l >= r`).
pub open spec fn range_prod<M: Monoid>(m: M, s: Seq<M::T>, l: int, r: int) -> M::T {
    if l < r {
        fold(m, s.subrange(l, r))
    } else {
        m.identity_spec()
    }
}

/// Adjacent ranges multiply: the product of `l..r` is the product of `l..mid` times the
/// product of `mid..r`, empty ranges included.
pub proof fn lemma_range_prod_split<M: Monoid>(m: M, s: Seq<M::T>, l: int, mid: int, r: int)
    requires
        m.wf(),
        all_valid(m, s),
        0 <= l <= mid <= r <= s.len(),
    ensures
        range_prod(m, s, l, r) == m.op_spec(range_prod(m, s, l, mid), range_prod(m, s, mid, r)),
{
    assert(all_valid(m, s.subrange(l, r)));
    lemma_fold_valid(m, s.subrange(l, r));
    m.lemma_laws(fold(m, s.subrange(l, r)), fold(m, s.subrange(l, r)), fold(m, s.subrange(l, r)));
    m.lemma_laws(m.identity_spec(), m.identity_spec(), m.identity_spec());
    if l < mid && mid < r {
        lemma_fold_split(m, s, l, mid, r);
    } else if l == mid && mid < r {
        assert(s.subrange(mid, r) =~= s.subrange(l, r));
    } else if l < mid && mid == r {
        assert(s.subrange(l, mid) =~= s.subrange(l, r));
    }
}

/// The product over one position is the element there, and over an empty range the identity;
/// with `lemma_range_prod_split` these fix every range product.
pub proof fn lemma_range_prod_single<M: Monoid>(m: M, s: Seq<M::T>, i: int, l: int)
    requires
        m.wf(),
        0 <= i < s.len(),
        m.valid(s[i]),
    ensures
        range_prod(m, s, i, i + 1) == s[i],
        range_prod(m, s, l, l) == m.identity_spec(),
{
    assert(s.subrange(i, i + 1) =~= seq![s[i]]);
    lemma_fold_single(m, s[i]);
}

/// The product of the whole sequence is the product of the range `0..len`.
pub proof fn lemma_range_prod_whole<M: Monoid>(m: M, s: Seq<M::T>)
    ensures
        fold(m, s) == range_prod(m, s, 0, s.len() as int),
{
    assert(s.subrange(0, s.len() as int) =~= s);
}

/// Replacing the element at `i` leaves the product of every range that does not contain `i`
/// unchanged.
pub proof fn lemma_range_prod_update_outside<M: Monoid>(m: M, s: Seq<M::T>, i: int, v: M::T, l: int, r: int)
    requires
        0 <= i < s.len(),
        0 <= l,
        r <= s.len(),
        i < l || r <= i,
    ensures
        range_prod(m, s.update(i, v), l, r) == range_prod(m, s, l, r),
{
    if l < r {
        assert(s.update(i, v).subrange(l, r) =~= s.subrange(l, r));
    }
}

/// Minimum, with the largest value as identity.
pub struct Min<T>(PhantomData<T>);

/// Maximum, with the smallest value as identity.
pub struct Max<T>(PhantomData<T>);

/// Addition (wrapping on fixed-width integers), with identity 0.
pub struct Sum<T>(PhantomData<T>);

/// Multiplication (wrapping on fixed-width integers), with identity 1.
pub struct Prod<T>(PhantomData<T>);

/// Bitwise exclusive or, with identity 0; every element is its own inverse.
pub struct Xor<T>(PhantomData<T>);

impl<T> Min<T> {
    pub fn new() -> Self {
        Min(PhantomData)
    }
}

impl<T> Max<T> {
    pub fn new() -> Self {
        Max(PhantomData)
    }
}

impl<T> Sum<T> {
    pub fn new() -> Self {
        Sum(PhantomData)
    }
}

impl<T> Prod<T> {
    pub fn new() -> Self {
        Prod(PhantomData)
    }
}

impl<T> Xor<T> {
    pub fn new() -> Self {
        Xor(PhantomData)
    }
}

impl<T> Default for Min<T> {
    fn default() -> (r: Self) {
        Min(PhantomData)
    }
}

impl<T> Default for Max<T> {
    fn default() -> (r: Self) {
        Max(PhantomData)
    }
}

impl<T> Default for Sum<T> {
    fn default() -> (r: Self) {
        Sum(PhantomData)
    }
}

impl<T> Default for Prod<T> {
    fn default() -> (r: Self) {
        Prod(PhantomData)
    }
}

impl<T> Default for Xor<T> {
    fn default() -> (r: Self) {
        Xor(PhantomData)
    }
}

impl<T> Clone for Min<T> {
    fn clone(&self) -> (r: Self) {
        Min(PhantomData)
    }
}

impl<T> Clone for Max<T> {
    fn clone(&self) -> (r: Self) {
        Max(PhantomData)
    }
}

impl<T> Clone for Sum<T> {
    fn clone(&self) -> (r: Self) {
        Sum(PhantomData)
    }
}

impl<T> Clone for Prod<T> {
    fn clone(&self) -> (r: Self) {
        Prod(PhantomData)
    }
}

impl<T> Clone for Xor<T> {
    fn clone(&self) -> (r: Self) {
        Xor(PhantomData)
    }
}

impl<T> Copy for Min<T> {}

impl<T> Copy for Max<T> {}

impl<T> Copy for Sum<T> {}

impl<T> Copy for Prod<T> {}

impl<T> Copy for Xor<T> {}

pub open spec fn i64_range() -> int {
    0x1_0000_0000_0000_0000
}

pub open spec fn i32_range() -> int {
    0x1_0000_0000
}

pub open spec fn u64_range() -> int {
    0x1_0000_0000_0000_0000
}

/// Reduction of `x` into the signed window `[max + 1 - range, max]`, as two's complement does.
pub open spec fn crop(x: int, range: int, max: int) -> int {
    if x % range > max {
        x % range - range
    } else {
        x % range
    }
}

proof fn lemma_mod_mul_assoc(a: int, b: int, c: int, m: int)
    requires
        m > 0,
    ensures
        ((a * b) % m) * c % m == a * ((b * c) % m) % m,
{
    vstd::arithmetic::div_mod::lemma_mul_mod_noop_left(a * b, c, m);
    vstd::arithmetic::div_mod::lemma_mul_mod_noop_right(a, b * c, m);
    vstd::arithmetic::mul::lemma_mul_is_associative(a, b, c);
}

proof fn lemma_crop_congruent(x: int, range: int, max: int)
    requires
        range > 0,
    ensures
        crop(x, range, max) % range == x % range,
{
    vstd::arithmetic::div_mod::lemma_mod_twice(x, range);
    vstd::arithmetic::div_mod::lemma_mod_sub_multiples_vanish(x % range, range);
}

proof fn lemma_crop_mul_assoc(a: int, b: int, c: int, range: int, max: int)
    requires
        range > 0,
    ensures
        crop(crop(a * b, range, max) * c, range, max) == crop(a * crop(b * c, range, max), range, max),
{
    let s = crop(a * b, range, max);
    let t = crop(b * c, range, max);
    lemma_crop_congruent(a * b, range, max);
    lemma_crop_congruent(b * c, range, max);
    vstd::arithmetic::div_mod::lemma_mul_mod_noop_left(s, c, range);
    vstd::arithmetic::div_mod::lemma_mul_mod_noop_left(a * b, c, range);
    vstd::arithmetic::div_mod::lemma_mul_mod_noop_right(a, t, range);
    vstd::arithmetic::div_mod::lemma_mul_mod_noop_right(a, b * c, range);
    vstd::arithmetic::mul::lemma_mul_is_associative(a, b, c);
}

proof fn lemma_crop_small(a: int, range: int, max: int)
    requires
        range == 2 * (max + 1),
        max > 0,
        -(max + 1) <= a <= max,
    ensures
        crop(a, range, max) == a,
{
    if a >= 0 {
        vstd::arithmetic::div_mod::lemma_small_mod(a as nat, range as nat);
    } else {
        vstd::arithmetic::div_mod::lemma_mod_add_multiples_vanish(a, range);
        vstd::arithmetic::div_mod::lemma_small_mod((a + range) as nat, range as nat);
    }
}

impl Monoid for Min<i64> {
    type T = i64;

    open spec fn wf(&self) -> bool {
        true
    }

    open spec fn identity_spec(&self) -> i64 {
        i64::MAX
    }

    open spec fn op_spec(&self, a: i64, b: i64) -> i64 {
        if a <= b {
            a
        } else {
            b
        }
    }

    open spec fn valid(&self, a: i64) -> bool {
        true
    }

    proof fn lemma_laws(&self, a: i64, b: i64, c: i64) {
    }

    fn identity(&self) -> (r: i64) {
        i64::MAX
    }

    fn binary_op(&self, a: &i64, b: &i64) -> (r: i64) {
        if *a <= *b {
            *a
        } else {
            *b
        }
    }
}

impl Monoid for Max<i64> {
    type T = i64;

    open spec fn wf(&self) -> bool {
        true
    }

    open spec fn identity_spec(&self) -> i64 {
        i64::MIN
    }

    open spec fn op_spec(&self, a: i64, b: i64) -> i64 {
        if a >= b {
            a
        } else {
            b
        }
    }

    open spec fn valid(&self, a: i64) -> bool {
        true
    }

    proof fn lemma_laws(&self, a: i64, b: i64, c: i64) {
    }

    fn identity(&self) -> (r: i64) {
        i64::MIN
    }

    fn binary_op(&self, a: &i64, b: &i64) -> (r: i64) {
        if *a >= *b {
            *a
        } else {
            *b
        }
    }
}

impl Monoid for Sum<i64> {
    type T = i64;

    open spec fn wf(&self) -> bool {
        true
    }

    open spec fn identity_spec(&self) -> i64 {
        0
    }

    open spec fn op_spec(&self, a: i64, b: i64) -> i64 {
        vstd::wrapping::i64_specs::wrapping_add(a, b)
    }

    open spec fn valid(&self, a: i64) -> bool {
        true
    }

    proof fn lemma_laws(&self, a: i64, b: i64, c: i64) {
    }

    fn identity(&self) -> (r: i64) {
        0
    }

    fn binary_op(&self, a: &i64, b: &i64) -> (r: i64) {
        a.wrapping_add(*b)
    }
}

impl Group for Sum<i64> {
    open spec fn inv_op_spec(&self, a: i64, b: i64) -> i64 {
        vstd::wrapping::i64_specs::wrapping_sub(a, b)
    }

    proof fn lemma_group_laws(&self, a: i64, b: i64) {
    }

    fn inv_binary_op(&self, a: &i64, b: &i64) -> (r: i64) {
        a.wrapping_sub(*b)
    }
}

impl Monoid for Prod<i64> {
    type T = i64;

    open spec fn wf(&self) -> bool {
        true
    }

    open spec fn identity_spec(&self) -> i64 {
        1
    }

    open spec fn op_spec(&self, a: i64, b: i64) -> i64 {
        vstd::wrapping::i64_specs::wrapping_mul(a, b)
    }

    open spec fn valid(&self, a: i64) -> bool {
        true
    }

    proof fn lemma_laws(&self, a: i64, b: i64, c: i64) {
        lemma_crop_mul_assoc(a as int, b as int, c as int, i64_range(), i64::MAX as int);
        lemma_crop_small(a as int, i64_range(), i64::MAX as int);
    }

    fn identity(&self) -> (r: i64) {
        1
    }

    fn binary_op(&self, a: &i64, b: &i64) -> (r: i64) {
        a.wrapping_mul(*b)
    }
}

impl Monoid for Min<i32> {
    type T = i32;

    open spec fn wf(&self) -> bool {
        true
    }

    open spec fn identity_spec(&self) -> i32 {
        i32::MAX
    }

    open spec fn op_spec(&self, a: i32, b: i32) -> i32 {
        if a <= b {
            a
        } else {
            b
        }
    }

    open spec fn valid(&self, a: i32) -> bool {
        true
    }

    proof fn lemma_laws(&self, a: i32, b: i32, c: i32) {
    }

    fn identity(&self) -> (r: i32) {
        i32::MAX
    }

    fn binary_op(&self, a: &i32, b: &i32) -> (r: i32) {
        if *a <= *b {
            *a
        } else {
            *b
        }
    }
}

impl Monoid for Max<i32> {
    type T = i32;

    open spec fn wf(&self) -> bool {
        true
    }

    open spec fn identity_spec(&self) -> i32 {
        i32::MIN
    }

    open spec fn op_spec(&self, a: i32, b: i32) -> i32 {
        if a >= b {
            a
        } else {
            b
        }
    }

    open spec fn valid(&self, a: i32) -> bool {
        true
    }

    proof fn lemma_laws(&self, a: i32, b: i32, c: i32) {
    }

    fn identity(&self) -> (r: i32) {
        i32::MIN
    }

    fn binary_op(&self, a: &i32, b: &i32) -> (r: i32) {
        if *a >= *b {
            *a
        } else {
            *b
        }
    }
}

impl Monoid for Sum<i32> {
    type T = i32;

    open spec fn wf(&self) -> bool {
        true
    }

    open spec fn identity_spec(&self) -> i32 {
        0
    }

    open spec fn op_spec(&self, a: i32, b: i32) -> i32 {
        vstd::wrapping::i32_specs::wrapping_add(a, b)
    }

    open spec fn valid(&self, a: i32) -> bool {
        true
    }

    proof fn lemma_laws(&self, a: i32, b: i32, c: i32) {
    }

    fn identity(&self) -> (r: i32) {
        0
    }

    fn binary_op(&self, a: &i32, b: &i32) -> (r: i32) {
        a.wrapping_add(*b)
    }
}

impl Group for Sum<i32> {
    open spec fn inv_op_spec(&self, a: i32, b: i32) -> i32 {
        vstd::wrapping::i32_specs::wrapping_sub(a, b)
    }

    proof fn lemma_group_laws(&self, a: i32, b: i32) {
    }

    fn inv_binary_op(&self, a: &i32, b: &i32) -> (r: i32) {
        a.wrapping_sub(*b)
    }
}

impl Monoid for Prod<i32> {
    type T = i32;

    open spec fn wf(&self) -> bool {
        true
    }

    open spec fn identity_spec(&self) -> i32 {
        1
    }

    open spec fn op_spec(&self, a: i32, b: i32) -> i32 {
        vstd::wrapping::i32_specs::wrapping_mul(a, b)
    }

    open spec fn valid(&self, a: i32) -> bool {
        true
    }

    proof fn lemma_laws(&self, a: i32, b: i32, c: i32) {
        lemma_crop_mul_assoc(a as int, b as int, c as int, i32_range(), i32::MAX as int);
        lemma_crop_small(a as int, i32_range(), i32::MAX as int);
    }

    fn identity(&self) -> (r: i32) {
        1
    }

    fn binary_op(&self, a: &i32, b: &i32) -> (r: i32) {
        a.wrapping_mul(*b)
    }
}

impl Monoid for Min<u64> {
    type T = u64;

    open spec fn wf(&self) -> bool {
        true
    }

    open spec fn identity_spec(&self) -> u64 {
        u64::MAX
    }

    open spec fn op_spec(&self, a: u64, b: u64) -> u64 {
        if a <= b {
            a
        } else {
            b
        }
    }

    open spec fn valid(&self, a: u64) -> bool {
        true
    }

    proof fn lemma_laws(&self, a: u64, b: u64, c: u64) {
    }

    fn identity(&self) -> (r: u64) {
        u64::MAX
    }

    fn binary_op(&self, a: &u64, b: &u64) -> (r: u64) {
        if *a <= *b {
            *a
        } else {
            *b
        }
    }
}

impl Monoid for Max<u64> {
    type T = u64;

    open spec fn wf(&self) -> bool {
        true
    }

    open spec fn identity_spec(&self) -> u64 {
        u64::MIN
    }

    open spec fn op_spec(&self, a: u64, b: u64) -> u64 {
        if a >= b {
            a
        } else {
            b
        }
    }

    open spec fn valid(&self, a: u64) -> bool {
        true
    }

    proof fn lemma_laws(&self, a: u64, b: u64, c: u64) {
    }

    fn identity(&self) -> (r: u64) {
        u64::MIN
    }

    fn binary_op(&self, a: &u64, b: &u64) -> (r: u64) {
        if *a >= *b {
            *a
        } else {
            *b
        }
    }
}

impl Monoid for Sum<u64> {
    type T = u64;

    open spec fn wf(&self) -> bool {
        true
    }

    open spec fn identity_spec(&self) -> u64 {
        0
    }

    open spec fn op_spec(&self, a: u64, b: u64) -> u64 {
        vstd::wrapping::u64_specs::wrapping_add(a, b)
    }

    open spec fn valid(&self, a: u64) -> bool {
        true
    }

    proof fn lemma_laws(&self, a: u64, b: u64, c: u64) {
    }

    fn identity(&self) -> (r: u64) {
        0
    }

    fn binary_op(&self, a: &u64, b: &u64) -> (r: u64) {
        a.wrapping_add(*b)
    }
}

impl Group for Sum<u64> {
    open spec fn inv_op_spec(&self, a: u64, b: u64) -> u64 {
        vstd::wrapping::u64_specs::wrapping_sub(a, b)
    }

    proof fn lemma_group_laws(&self, a: u64, b: u64) {
    }

    fn inv_binary_op(&self, a: &u64, b: &u64) -> (r: u64) {
        a.wrapping_sub(*b)
    }
}

impl Monoid for Prod<u64> {
    type T = u64;

    open spec fn wf(&self) -> bool {
        true
    }

    open spec fn identity_spec(&self) -> u64 {
        1
    }

    open spec fn op_spec(&self, a: u64, b: u64) -> u64 {
        vstd::wrapping::u64_specs::wrapping_mul(a, b)
    }

    open spec fn valid(&self, a: u64) -> bool {
        true
    }

    proof fn lemma_laws(&self, a: u64, b: u64, c: u64) {
        lemma_mod_mul_assoc(a as int, b as int, c as int, u64_range());
        vstd::arithmetic::div_mod::lemma_small_mod(a as nat, u64_range() as nat);
    }

    fn identity(&self) -> (r: u64) {
        1
    }

    fn binary_op(&self, a: &u64, b: &u64) -> (r: u64) {
        a.wrapping_mul(*b)
    }
}

impl Monoid for Min<usize> {
    type T = usize;

    open spec fn wf(&self) -> bool {
        true
    }

    open spec fn identity_spec(&self) -> usize {
        usize::MAX
    }

    open spec fn op_spec(&self, a: usize, b: usize) -> usize {
        if a <= b {
            a
        } else {
            b
        }
    }

    open spec fn valid(&self, a: usize) -> bool {
        true
    }

    proof fn lemma_laws(&self, a: usize, b: usize, c: usize) {
    }

    fn identity(&self) -> (r: usize) {
        usize::MAX
    }

    fn binary_op(&self, a: &usize, b: &usize) -> (r: usize) {
        if *a <= *b {
            *a
        } else {
            *b
        }
    }
}

impl Monoid for Max<usize> {
    type T = usize;

    open spec fn wf(&self) -> bool {
        true
    }

    open spec fn identity_spec(&self) -> usize {
        usize::MIN
    }

    open spec fn op_spec(&self, a: usize, b: usize) -> usize {
        if a >= b {
            a
        } else {
            b
        }
    }

    open spec fn valid(&self, a: usize) -> bool {
        true
    }

    proof fn lemma_laws(&self, a: usize, b: usize, c: usize) {
    }

    fn identity(&self) -> (r: usize) {
        usize::MIN
    }

    fn binary_op(&self, a: &usize, b: &usize) -> (r: usize) {
        if *a >= *b {
            *a
        } else {
            *b
        }
    }
}

impl Monoid for Sum<usize> {
    type T = usize;

    open spec fn wf(&self) -> bool {
        true
    }

    open spec fn identity_spec(&self) -> usize {
        0
    }

    open spec fn op_spec(&self, a: usize, b: usize) -> usize {
        vstd::wrapping::usize_specs::wrapping_add(a, b)
    }

    open spec fn valid(&self, a: usize) -> bool {
        true
    }

    proof fn lemma_laws(&self, a: usize, b: usize, c: usize) {
    }

    fn identity(&self) -> (r: usize) {
        0
    }

    fn binary_op(&self, a: &usize, b: &usize) -> (r: usize) {
        a.wrapping_add(*b)
    }
}

impl Group for Sum<usize> {
    open spec fn inv_op_spec(&self, a: usize, b: usize) -> usize {
        vstd::wrapping::usize_specs::wrapping_sub(a, b)
    }

    proof fn lemma_group_laws(&self, a: usize, b: usize) {
    }

    fn inv_binary_op(&self, a: &usize, b: &usize) -> (r: usize) {
        a.wrapping_sub(*b)
    }
}

impl Monoid for Prod<usize> {
    type T = usize;

    open spec fn wf(&self) -> bool {
        true
    }

    open spec fn identity_spec(&self) -> usize {
        1
    }

    open spec fn op_spec(&self, a: usize, b: usize) -> usize {
        vstd::wrapping::usize_specs::wrapping_mul(a, b)
    }

    open spec fn valid(&self, a: usize) -> bool {
        true
    }

    proof fn lemma_laws(&self, a: usize, b: usize, c: usize) {
        lemma_mod_mul_assoc(a as int, b as int, c as int, usize::MAX + 1);
        vstd::arithmetic::div_mod::lemma_small_mod(a as nat, (usize::MAX + 1) as nat);
    }

    fn identity(&self) -> (r: usize) {
        1
    }

    fn binary_op(&self, a: &usize, b: &usize) -> (r: usize) {
        a.wrapping_mul(*b)
    }
}


impl Monoid for Min<i8> {
    type T = i8;

    open spec fn wf(&self) -> bool {
        true
    }

    open spec fn identity_spec(&self) -> i8 {
        i8::MAX
    }

    open spec fn op_spec(&self, a: i8, b: i8) -> i8 {
        if a <= b {
            a
        } else {
            b
        }
    }

    open spec fn valid(&self, a: i8) -> bool {
        true
    }

    proof fn lemma_laws(&self, a: i8, b: i8, c: i8) {
    }

    fn identity(&self) -> (r: i8) {
        i8::MAX
    }

    fn binary_op(&self, a: &i8, b: &i8) -> (r: i8) {
        if *a <= *b {
            *a
        } else {
            *b
        }
    }
}

impl Monoid for Max<i8> {
    type T = i8;

    open spec fn wf(&self) -> bool {
        true
    }

    open spec fn identity_spec(&self) -> i8 {
        i8::MIN
    }

    open spec fn op_spec(&self, a: i8, b: i8) -> i8 {
        if a >= b {
            a
        } else {
            b
        }
    }

    open spec fn valid(&self, a: i8) -> bool {
        true
    }

    proof fn lemma_laws(&self, a: i8, b: i8, c: i8) {
    }

    fn identity(&self) -> (r: i8) {
        i8::MIN
    }

    fn binary_op(&self, a: &i8, b: &i8) -> (r: i8) {
        if *a >= *b {
            *a
        } else {
            *b
        }
    }
}

impl Monoid for Sum<i8> {
    type T = i8;

    open spec fn wf(&self) -> bool {
        true
    }

    open spec fn identity_spec(&self) -> i8 {
        0
    }

    open spec fn op_spec(&self, a: i8, b: i8) -> i8 {
        vstd::wrapping::i8_specs::wrapping_add(a, b)
    }

    open spec fn valid(&self, a: i8) -> bool {
        true
    }

    proof fn lemma_laws(&self, a: i8, b: i8, c: i8) {
    }

    fn identity(&self) -> (r: i8) {
        0
    }

    fn binary_op(&self, a: &i8, b: &i8) -> (r: i8) {
        a.wrapping_add(*b)
    }
}

impl Group for Sum<i8> {
    open spec fn inv_op_spec(&self, a: i8, b: i8) -> i8 {
        vstd::wrapping::i8_specs::wrapping_sub(a, b)
    }

    proof fn lemma_group_laws(&self, a: i8, b: i8) {
    }

    fn inv_binary_op(&self, a: &i8, b: &i8) -> (r: i8) {
        a.wrapping_sub(*b)
    }
}

impl Monoid for Prod<i8> {
    type T = i8;

    open spec fn wf(&self) -> bool {
        true
    }

    open spec fn identity_spec(&self) -> i8 {
        1
    }

    open spec fn op_spec(&self, a: i8, b: i8) -> i8 {
        vstd::wrapping::i8_specs::wrapping_mul(a, b)
    }

    open spec fn valid(&self, a: i8) -> bool {
        true
    }

    proof fn lemma_laws(&self, a: i8, b: i8, c: i8) {
        lemma_crop_mul_assoc(a as int, b as int, c as int, 0x100, i8::MAX as int);
        lemma_crop_small(a as int, 0x100, i8::MAX as int);
    }

    fn identity(&self) -> (r: i8) {
        1
    }

    fn binary_op(&self, a: &i8, b: &i8) -> (r: i8) {
        a.wrapping_mul(*b)
    }
}

impl Monoid for Min<i16> {
    type T = i16;

    open spec fn wf(&self) -> bool {
        true
    }

    open spec fn identity_spec(&self) -> i16 {
        i16::MAX
    }

    open spec fn op_spec(&self, a: i16, b: i16) -> i16 {
        if a <= b {
            a
        } else {
            b
        }
    }

    open spec fn valid(&self, a: i16) -> bool {
        true
    }

    proof fn lemma_laws(&self, a: i16, b: i16, c: i16) {
    }

    fn identity(&self) -> (r: i16) {
        i16::MAX
    }

    fn binary_op(&self, a: &i16, b: &i16) -> (r: i16) {
        if *a <= *b {
            *a
        } else {
            *b
        }
    }
}

impl Monoid for Max<i16> {
    type T = i16;

    open spec fn wf(&self) -> bool {
        true
    }

    open spec fn identity_spec(&self) -> i16 {
        i16::MIN
    }

    open spec fn op_spec(&self, a: i16, b: i16) -> i16 {
        if a >= b {
            a
        } else {
            b
        }
    }

    open spec fn valid(&self, a: i16) -> bool {
        true
    }

    proof fn lemma_laws(&self, a: i16, b: i16, c: i16) {
    }

    fn identity(&self) -> (r: i16) {
        i16::MIN
    }

    fn binary_op(&self, a: &i16, b: &i16) -> (r: i16) {
        if *a >= *b {
            *a
        } else {
            *b
        }
    }
}

impl Monoid for Sum<i16> {
    type T = i16;

    open spec fn wf(&self) -> bool {
        true
    }

    open spec fn identity_spec(&self) -> i16 {
        0
    }

    open spec fn op_spec(&self, a: i16, b: i16) -> i16 {
        vstd::wrapping::i16_specs::wrapping_add(a, b)
    }

    open spec fn valid(&self, a: i16) -> bool {
        true
    }

    proof fn lemma_laws(&self, a: i16, b: i16, c: i16) {
    }

    fn identity(&self) -> (r: i16) {
        0
    }

    fn binary_op(&self, a: &i16, b: &i16) -> (r: i16) {
        a.wrapping_add(*b)
    }
}

impl Group for Sum<i16> {
    open spec fn inv_op_spec(&self, a: i16, b: i16) -> i16 {
        vstd::wrapping::i16_specs::wrapping_sub(a, b)
    }

    proof fn lemma_group_laws(&self, a: i16, b: i16) {
    }

    fn inv_binary_op(&self, a: &i16, b: &i16) -> (r: i16) {
        a.wrapping_sub(*b)
    }
}

impl Monoid for Prod<i16> {
    type T = i16;

    open spec fn wf(&self) -> bool {
        true
    }

    open spec fn identity_spec(&self) -> i16 {
        1
    }

    open spec fn op_spec(&self, a: i16, b: i16) -> i16 {
        vstd::wrapping::i16_specs::wrapping_mul(a, b)
    }

    open spec fn valid(&self, a: i16) -> bool {
        true
    }

    proof fn lemma_laws(&self, a: i16, b: i16, c: i16) {
        lemma_crop_mul_assoc(a as int, b as int, c as int, 0x1_0000, i16::MAX as int);
        lemma_crop_small(a as int, 0x1_0000, i16::MAX as int);
    }

    fn identity(&self) -> (r: i16) {
        1
    }

    fn binary_op(&self, a: &i16, b: &i16) -> (r: i16) {
        a.wrapping_mul(*b)
    }
}

impl Monoid for Min<i128> {
    type T = i128;

    open spec fn wf(&self) -> bool {
        true
    }

    open spec fn identity_spec(&self) -> i128 {
        i128::MAX
    }

    open spec fn op_spec(&self, a: i128, b: i128) -> i128 {
        if a <= b {
            a
        } else {
            b
        }
    }

    open spec fn valid(&self, a: i128) -> bool {
        true
    }

    proof fn lemma_laws(&self, a: i128, b: i128, c: i128) {
    }

    fn identity(&self) -> (r: i128) {
        i128::MAX
    }

    fn binary_op(&self, a: &i128, b: &i128) -> (r: i128) {
        if *a <= *b {
            *a
        } else {
            *b
        }
    }
}

impl Monoid for Max<i128> {
    type T = i128;

    open spec fn wf(&self) -> bool {
        true
    }

    open spec fn identity_spec(&self) -> i128 {
        i128::MIN
    }

    open spec fn op_spec(&self, a: i128, b: i128) -> i128 {
        if a >= b {
            a
        } else {
            b
        }
    }

    open spec fn valid(&self, a: i128) -> bool {
        true
    }

    proof fn lemma_laws(&self, a: i128, b: i128, c: i128) {
    }

    fn identity(&self) -> (r: i128) {
        i128::MIN
    }

    fn binary_op(&self, a: &i128, b: &i128) -> (r: i128) {
        if *a >= *b {
            *a
        } else {
            *b
        }
    }
}

impl Monoid for Sum<i128> {
    type T = i128;

    open spec fn wf(&self) -> bool {
        true
    }

    open spec fn identity_spec(&self) -> i128 {
        0
    }

    open spec fn op_spec(&self, a: i128, b: i128) -> i128 {
        vstd::wrapping::i128_specs::wrapping_add(a, b)
    }

    open spec fn valid(&self, a: i128) -> bool {
        true
    }

    proof fn lemma_laws(&self, a: i128, b: i128, c: i128) {
    }

    fn identity(&self) -> (r: i128) {
        0
    }

    fn binary_op(&self, a: &i128, b: &i128) -> (r: i128) {
        a.wrapping_add(*b)
    }
}

impl Group for Sum<i128> {
    open spec fn inv_op_spec(&self, a: i128, b: i128) -> i128 {
        vstd::wrapping::i128_specs::wrapping_sub(a, b)
    }

    proof fn lemma_group_laws(&self, a: i128, b: i128) {
    }

    fn inv_binary_op(&self, a: &i128, b: &i128) -> (r: i128) {
        a.wrapping_sub(*b)
    }
}

impl Monoid for Prod<i128> {
    type T = i128;

    open spec fn wf(&self) -> bool {
        true
    }

    open spec fn identity_spec(&self) -> i128 {
        1
    }

    open spec fn op_spec(&self, a: i128, b: i128) -> i128 {
        vstd::wrapping::i128_specs::wrapping_mul(a, b)
    }

    open spec fn valid(&self, a: i128) -> bool {
        true
    }

    proof fn lemma_laws(&self, a: i128, b: i128, c: i128) {
        lemma_crop_mul_assoc(a as int, b as int, c as int, (u128::MAX + 1), i128::MAX as int);
        lemma_crop_small(a as int, (u128::MAX + 1), i128::MAX as int);
    }

    fn identity(&self) -> (r: i128) {
        1
    }

    fn binary_op(&self, a: &i128, b: &i128) -> (r: i128) {
        a.wrapping_mul(*b)
    }
}

impl Monoid for Min<isize> {
    type T = isize;

    open spec fn wf(&self) -> bool {
        true
    }

    open spec fn identity_spec(&self) -> isize {
        isize::MAX
    }

    open spec fn op_spec(&self, a: isize, b: isize) -> isize {
        if a <= b {
            a
        } else {
            b
        }
    }

    open spec fn valid(&self, a: isize) -> bool {
        true
    }

    proof fn lemma_laws(&self, a: isize, b: isize, c: isize) {
    }

    fn identity(&self) -> (r: isize) {
        isize::MAX
    }

    fn binary_op(&self, a: &isize, b: &isize) -> (r: isize) {
        if *a <= *b {
            *a
        } else {
            *b
        }
    }
}

impl Monoid for Max<isize> {
    type T = isize;

    open spec fn wf(&self) -> bool {
        true
    }

    open spec fn identity_spec(&self) -> isize {
        isize::MIN
    }

    open spec fn op_spec(&self, a: isize, b: isize) -> isize {
        if a >= b {
            a
        } else {
            b
        }
    }

    open spec fn valid(&self, a: isize) -> bool {
        true
    }

    proof fn lemma_laws(&self, a: isize, b: isize, c: isize) {
    }

    fn identity(&self) -> (r: isize) {
        isize::MIN
    }

    fn binary_op(&self, a: &isize, b: &isize) -> (r: isize) {
        if *a >= *b {
            *a
        } else {
            *b
        }
    }
}

impl Monoid for Sum<isize> {
    type T = isize;

    open spec fn wf(&self) -> bool {
        true
    }

    open spec fn identity_spec(&self) -> isize {
        0
    }

    open spec fn op_spec(&self, a: isize, b: isize) -> isize {
        vstd::wrapping::isize_specs::wrapping_add(a, b)
    }

    open spec fn valid(&self, a: isize) -> bool {
        true
    }

    proof fn lemma_laws(&self, a: isize, b: isize, c: isize) {
    }

    fn identity(&self) -> (r: isize) {
        0
    }

    fn binary_op(&self, a: &isize, b: &isize) -> (r: isize) {
        a.wrapping_add(*b)
    }
}

impl Group for Sum<isize> {
    open spec fn inv_op_spec(&self, a: isize, b: isize) -> isize {
        vstd::wrapping::isize_specs::wrapping_sub(a, b)
    }

    proof fn lemma_group_laws(&self, a: isize, b: isize) {
    }

    fn inv_binary_op(&self, a: &isize, b: &isize) -> (r: isize) {
        a.wrapping_sub(*b)
    }
}

impl Monoid for Prod<isize> {
    type T = isize;

    open spec fn wf(&self) -> bool {
        true
    }

    open spec fn identity_spec(&self) -> isize {
        1
    }

    open spec fn op_spec(&self, a: isize, b: isize) -> isize {
        vstd::wrapping::isize_specs::wrapping_mul(a, b)
    }

    open spec fn valid(&self, a: isize) -> bool {
        true
    }

    proof fn lemma_laws(&self, a: isize, b: isize, c: isize) {
        lemma_crop_mul_assoc(a as int, b as int, c as int, (usize::MAX + 1), isize::MAX as int);
        lemma_crop_small(a as int, (usize::MAX + 1), isize::MAX as int);
    }

    fn identity(&self) -> (r: isize) {
        1
    }

    fn binary_op(&self, a: &isize, b: &isize) -> (r: isize) {
        a.wrapping_mul(*b)
    }
}

impl Monoid for Min<u8> {
    type T = u8;

    open spec fn wf(&self) -> bool {
        true
    }

    open spec fn identity_spec(&self) -> u8 {
        u8::MAX
    }

    open spec fn op_spec(&self, a: u8, b: u8) -> u8 {
        if a <= b {
            a
        } else {
            b
        }
    }

    open spec fn valid(&self, a: u8) -> bool {
        true
    }

    proof fn lemma_laws(&self, a: u8, b: u8, c: u8) {
    }

    fn identity(&self) -> (r: u8) {
        u8::MAX
    }

    fn binary_op(&self, a: &u8, b: &u8) -> (r: u8) {
        if *a <= *b {
            *a
        } else {
            *b
        }
    }
}

impl Monoid for Max<u8> {
    type T = u8;

    open spec fn wf(&self) -> bool {
        true
    }

    open spec fn identity_spec(&self) -> u8 {
        u8::MIN
    }

    open spec fn op_spec(&self, a: u8, b: u8) -> u8 {
        if a >= b {
            a
        } else {
            b
        }
    }

    open spec fn valid(&self, a: u8) -> bool {
        true
    }

    proof fn lemma_laws(&self, a: u8, b: u8, c: u8) {
    }

    fn identity(&self) -> (r: u8) {
        u8::MIN
    }

    fn binary_op(&self, a: &u8, b: &u8) -> (r: u8) {
        if *a >= *b {
            *a
        } else {
            *b
        }
    }
}

impl Monoid for Sum<u8> {
    type T = u8;

    open spec fn wf(&self) -> bool {
        true
    }

    open spec fn identity_spec(&self) -> u8 {
        0
    }

    open spec fn op_spec(&self, a: u8, b: u8) -> u8 {
        vstd::wrapping::u8_specs::wrapping_add(a, b)
    }

    open spec fn valid(&self, a: u8) -> bool {
        true
    }

    proof fn lemma_laws(&self, a: u8, b: u8, c: u8) {
    }

    fn identity(&self) -> (r: u8) {
        0
    }

    fn binary_op(&self, a: &u8, b: &u8) -> (r: u8) {
        a.wrapping_add(*b)
    }
}

impl Group for Sum<u8> {
    open spec fn inv_op_spec(&self, a: u8, b: u8) -> u8 {
        vstd::wrapping::u8_specs::wrapping_sub(a, b)
    }

    proof fn lemma_group_laws(&self, a: u8, b: u8) {
    }

    fn inv_binary_op(&self, a: &u8, b: &u8) -> (r: u8) {
        a.wrapping_sub(*b)
    }
}

impl Monoid for Prod<u8> {
    type T = u8;

    open spec fn wf(&self) -> bool {
        true
    }

    open spec fn identity_spec(&self) -> u8 {
        1
    }

    open spec fn op_spec(&self, a: u8, b: u8) -> u8 {
        vstd::wrapping::u8_specs::wrapping_mul(a, b)
    }

    open spec fn valid(&self, a: u8) -> bool {
        true
    }

    proof fn lemma_laws(&self, a: u8, b: u8, c: u8) {
        lemma_mod_mul_assoc(a as int, b as int, c as int, 0x100);
        vstd::arithmetic::div_mod::lemma_small_mod(a as nat, 0x100 as nat);
    }

    fn identity(&self) -> (r: u8) {
        1
    }

    fn binary_op(&self, a: &u8, b: &u8) -> (r: u8) {
        a.wrapping_mul(*b)
    }
}

impl Monoid for Min<u16> {
    type T = u16;

    open spec fn wf(&self) -> bool {
        true
    }

    open spec fn identity_spec(&self) -> u16 {
        u16::MAX
    }

    open spec fn op_spec(&self, a: u16, b: u16) -> u16 {
        if a <= b {
            a
        } else {
            b
        }
    }

    open spec fn valid(&self, a: u16) -> bool {
        true
    }

    proof fn lemma_laws(&self, a: u16, b: u16, c: u16) {
    }

    fn identity(&self) -> (r: u16) {
        u16::MAX
    }

    fn binary_op(&self, a: &u16, b: &u16) -> (r: u16) {
        if *a <= *b {
            *a
        } else {
            *b
        }
    }
}

impl Monoid for Max<u16> {
    type T = u16;

    open spec fn wf(&self) -> bool {
        true
    }

    open spec fn identity_spec(&self) -> u16 {
        u16::MIN
    }

    open spec fn op_spec(&self, a: u16, b: u16) -> u16 {
        if a >= b {
            a
        } else {
            b
        }
    }

    open spec fn valid(&self, a: u16) -> bool {
        true
    }

    proof fn lemma_laws(&self, a: u16, b: u16, c: u16) {
    }

    fn identity(&self) -> (r: u16) {
        u16::MIN
    }

    fn binary_op(&self, a: &u16, b: &u16) -> (r: u16) {
        if *a >= *b {
            *a
        } else {
            *b
        }
    }
}

impl Monoid for Sum<u16> {
    type T = u16;

    open spec fn wf(&self) -> bool {
        true
    }

    open spec fn identity_spec(&self) -> u16 {
        0
    }

    open spec fn op_spec(&self, a: u16, b: u16) -> u16 {
        vstd::wrapping::u16_specs::wrapping_add(a, b)
    }

    open spec fn valid(&self, a: u16) -> bool {
        true
    }

    proof fn lemma_laws(&self, a: u16, b: u16, c: u16) {
    }

    fn identity(&self) -> (r: u16) {
        0
    }

    fn binary_op(&self, a: &u16, b: &u16) -> (r: u16) {
        a.wrapping_add(*b)
    }
}

impl Group for Sum<u16> {
    open spec fn inv_op_spec(&self, a: u16, b: u16) -> u16 {
        vstd::wrapping::u16_specs::wrapping_sub(a, b)
    }

    proof fn lemma_group_laws(&self, a: u16, b: u16) {
    }

    fn inv_binary_op(&self, a: &u16, b: &u16) -> (r: u16) {
        a.wrapping_sub(*b)
    }
}

impl Monoid for Prod<u16> {
    type T = u16;

    open spec fn wf(&self) -> bool {
        true
    }

    open spec fn identity_spec(&self) -> u16 {
        1
    }

    open spec fn op_spec(&self, a: u16, b: u16) -> u16 {
        vstd::wrapping::u16_specs::wrapping_mul(a, b)
    }

    open spec fn valid(&self, a: u16) -> bool {
        true
    }

    proof fn lemma_laws(&self, a: u16, b: u16, c: u16) {
        lemma_mod_mul_assoc(a as int, b as int, c as int, 0x1_0000);
        vstd::arithmetic::div_mod::lemma_small_mod(a as nat, 0x1_0000 as nat);
    }

    fn identity(&self) -> (r: u16) {
        1
    }

    fn binary_op(&self, a: &u16, b: &u16) -> (r: u16) {
        a.wrapping_mul(*b)
    }
}

impl Monoid for Min<u32> {
    type T = u32;

    open spec fn wf(&self) -> bool {
        true
    }

    open spec fn identity_spec(&self) -> u32 {
        u32::MAX
    }

    open spec fn op_spec(&self, a: u32, b: u32) -> u32 {
        if a <= b {
            a
        } else {
            b
        }
    }

    open spec fn valid(&self, a: u32) -> bool {
        true
    }

    proof fn lemma_laws(&self, a: u32, b: u32, c: u32) {
    }

    fn identity(&self) -> (r: u32) {
        u32::MAX
    }

    fn binary_op(&self, a: &u32, b: &u32) -> (r: u32) {
        if *a <= *b {
            *a
        } else {
            *b
        }
    }
}

impl Monoid for Max<u32> {
    type T = u32;

    open spec fn wf(&self) -> bool {
        true
    }

    open spec fn identity_spec(&self) -> u32 {
        u32::MIN
    }

    open spec fn op_spec(&self, a: u32, b: u32) -> u32 {
        if a >= b {
            a
        } else {
            b
        }
    }

    open spec fn valid(&self, a: u32) -> bool {
        true
    }

    proof fn lemma_laws(&self, a: u32, b: u32, c: u32) {
    }

    fn identity(&self) -> (r: u32) {
        u32::MIN
    }

    fn binary_op(&self, a: &u32, b: &u32) -> (r: u32) {
        if *a >= *b {
            *a
        } else {
            *b
        }
    }
}

impl Monoid for Sum<u32> {
    type T = u32;

    open spec fn wf(&self) -> bool {
        true
    }

    open spec fn identity_spec(&self) -> u32 {
        0
    }

    open spec fn op_spec(&self, a: u32, b: u32) -> u32 {
        vstd::wrapping::u32_specs::wrapping_add(a, b)
    }

    open spec fn valid(&self, a: u32) -> bool {
        true
    }

    proof fn lemma_laws(&self, a: u32, b: u32, c: u32) {
    }

    fn identity(&self) -> (r: u32) {
        0
    }

    fn binary_op(&self, a: &u32, b: &u32) -> (r: u32) {
        a.wrapping_add(*b)
    }
}

impl Group for Sum<u32> {
    open spec fn inv_op_spec(&self, a: u32, b: u32) -> u32 {
        vstd::wrapping::u32_specs::wrapping_sub(a, b)
    }

    proof fn lemma_group_laws(&self, a: u32, b: u32) {
    }

    fn inv_binary_op(&self, a: &u32, b: &u32) -> (r: u32) {
        a.wrapping_sub(*b)
    }
}

impl Monoid for Prod<u32> {
    type T = u32;

    open spec fn wf(&self) -> bool {
        true
    }

    open spec fn identity_spec(&self) -> u32 {
        1
    }

    open spec fn op_spec(&self, a: u32, b: u32) -> u32 {
        vstd::wrapping::u32_specs::wrapping_mul(a, b)
    }

    open spec fn valid(&self, a: u32) -> bool {
        true
    }

    proof fn lemma_laws(&self, a: u32, b: u32, c: u32) {
        lemma_mod_mul_assoc(a as int, b as int, c as int, 0x1_0000_0000);
        vstd::arithmetic::div_mod::lemma_small_mod(a as nat, 0x1_0000_0000 as nat);
    }

    fn identity(&self) -> (r: u32) {
        1
    }

    fn binary_op(&self, a: &u32, b: &u32) -> (r: u32) {
        a.wrapping_mul(*b)
    }
}

impl Monoid for Min<u128> {
    type T = u128;

    open spec fn wf(&self) -> bool {
        true
    }

    open spec fn identity_spec(&self) -> u128 {
        u128::MAX
    }

    open spec fn op_spec(&self, a: u128, b: u128) -> u128 {
        if a <= b {
            a
        } else {
            b
        }
    }

    open spec fn valid(&self, a: u128) -> bool {
        true
    }

    proof fn lemma_laws(&self, a: u128, b: u128, c: u128) {
    }

    fn identity(&self) -> (r: u128) {
        u128::MAX
    }

    fn binary_op(&self, a: &u128, b: &u128) -> (r: u128) {
        if *a <= *b {
            *a
        } else {
            *b
        }
    }
}

impl Monoid for Max<u128> {
    type T = u128;

    open spec fn wf(&self) -> bool {
        true
    }

    open spec fn identity_spec(&self) -> u128 {
        u128::MIN
    }

    open spec fn op_spec(&self, a: u128, b: u128) -> u128 {
        if a >= b {
            a
        } else {
            b
        }
    }

    open spec fn valid(&self, a: u128) -> bool {
        true
    }

    proof fn lemma_laws(&self, a: u128, b: u128, c: u128) {
    }

    fn identity(&self) -> (r: u128) {
        u128::MIN
    }

    fn binary_op(&self, a: &u128, b: &u128) -> (r: u128) {
        if *a >= *b {
            *a
        } else {
            *b
        }
    }
}

impl Monoid for Sum<u128> {
    type T = u128;

    open spec fn wf(&self) -> bool {
        true
    }

    open spec fn identity_spec(&self) -> u128 {
        0
    }

    open spec fn op_spec(&self, a: u128, b: u128) -> u128 {
        vstd::wrapping::u128_specs::wrapping_add(a, b)
    }

    open spec fn valid(&self, a: u128) -> bool {
        true
    }

    proof fn lemma_laws(&self, a: u128, b: u128, c: u128) {
    }

    fn identity(&self) -> (r: u128) {
        0
    }

    fn binary_op(&self, a: &u128, b: &u128) -> (r: u128) {
        a.wrapping_add(*b)
    }
}

impl Group for Sum<u128> {
    open spec fn inv_op_spec(&self, a: u128, b: u128) -> u128 {
        vstd::wrapping::u128_specs::wrapping_sub(a, b)
    }

    proof fn lemma_group_laws(&self, a: u128, b: u128) {
    }

    fn inv_binary_op(&self, a: &u128, b: &u128) -> (r: u128) {
        a.wrapping_sub(*b)
    }
}

impl Monoid for Prod<u128> {
    type T = u128;

    open spec fn wf(&self) -> bool {
        true
    }

    open spec fn identity_spec(&self) -> u128 {
        1
    }

    open spec fn op_spec(&self, a: u128, b: u128) -> u128 {
        vstd::wrapping::u128_specs::wrapping_mul(a, b)
    }

    open spec fn valid(&self, a: u128) -> bool {
        true
    }

    proof fn lemma_laws(&self, a: u128, b: u128, c: u128) {
        lemma_mod_mul_assoc(a as int, b as int, c as int, (u128::MAX + 1));
        vstd::arithmetic::div_mod::lemma_small_mod(a as nat, (u128::MAX + 1) as nat);
    }

    fn identity(&self) -> (r: u128) {
        1
    }

    fn binary_op(&self, a: &u128, b: &u128) -> (r: u128) {
        a.wrapping_mul(*b)
    }
}

impl Monoid for Xor<u64> {
    type T = u64;

    open spec fn wf(&self) -> bool {
        true
    }

    open spec fn identity_spec(&self) -> u64 {
        0
    }

    open spec fn op_spec(&self, a: u64, b: u64) -> u64 {
        a ^ b
    }

    open spec fn valid(&self, a: u64) -> bool {
        true
    }

    proof fn lemma_laws(&self, a: u64, b: u64, c: u64) {
        assert((a ^ b) ^ c == a ^ (b ^ c)) by (bit_vector);
        assert(0u64 ^ a == a) by (bit_vector);
        assert(a ^ 0u64 == a) by (bit_vector);
    }

    fn identity(&self) -> (r: u64) {
        0
    }

    fn binary_op(&self, a: &u64, b: &u64) -> (r: u64) {
        *a ^ *b
    }
}

impl Group for Xor<u64> {
    open spec fn inv_op_spec(&self, a: u64, b: u64) -> u64 {
        a ^ b
    }

    proof fn lemma_group_laws(&self, a: u64, b: u64) {
        assert((a ^ b) ^ a == b) by (bit_vector);
    }

    fn inv_binary_op(&self, a: &u64, b: &u64) -> (r: u64) {
        *a ^ *b
    }
}


/// The result a deterministic closure `op` gives on `(a, b)`.
pub open spec fn fn_result<T, F: Fn(&T, &T) -> T>(op: F, a: T, b: T) -> T {
    choose|r: T| call_ensures(op, (&a, &b), r)
}

/// `a` is an element the closure monoid works on: `op` accepts it next to the identity, on
/// either side.  For a closure without a precondition that is every value.
pub open spec fn fn_valid<T, F: Fn(&T, &T) -> T>(identity: T, op: F, a: T) -> bool {
    call_requires(op, (&a, &identity)) && call_requires(op, (&identity, &a))
}

/// On valid elements `op` may be called, always gives the same result, and that result is
/// valid.
pub open spec fn is_closed_function<T, F: Fn(&T, &T) -> T>(identity: T, op: F) -> bool {
    &&& forall|a: T, b: T|
        fn_valid(identity, op, a) && fn_valid(identity, op, b) ==> #[trigger] call_requires(op, (&a, &b))
    &&& forall|a: T, b: T, r: T|
        fn_valid(identity, op, a) && fn_valid(identity, op, b) && #[trigger] call_ensures(op, (&a, &b), r) ==> r
            == fn_result(op, a, b)
    &&& forall|a: T, b: T|
        fn_valid(identity, op, a) && fn_valid(identity, op, b) ==> fn_valid(identity, op, #[trigger] fn_result(op, a, b))
}

/// `op` is an associative operation with two-sided identity `identity` on the valid elements,
/// on a type whose clones equal their source.
#[verifier::opaque]
pub open spec fn monoid_laws<T: Clone, F: Fn(&T, &T) -> T>(identity: T, op: F) -> bool {
    &&& fn_valid(identity, op, identity)
    &&& is_closed_function(identity, op)
    &&& forall|a: T, b: T, c: T|
        #![trigger fn_result(op, fn_result(op, a, b), c)]
        fn_valid(identity, op, a) && fn_valid(identity, op, b) && fn_valid(identity, op, c) ==> fn_result(
            op,
            fn_result(op, a, b),
            c,
        ) == fn_result(op, a, fn_result(op, b, c))
    &&& forall|a: T| fn_valid(identity, op, a) ==> #[trigger] fn_result(op, identity, a) == a
    &&& forall|a: T| fn_valid(identity, op, a) ==> #[trigger] fn_result(op, a, identity) == a
    &&& forall|a: T, b: T| #[trigger] strictly_cloned(a, b) ==> a == b
}

/// What the monoid laws say of given elements.
proof fn lemma_fn_monoid<T: Clone, F: Fn(&T, &T) -> T>(identity: T, op: F, a: T, b: T, c: T)
    requires
        monoid_laws(identity, op),
    ensures
        fn_valid(identity, op, identity),
        fn_valid(identity, op, a) && fn_valid(identity, op, b) ==> call_requires(op, (&a, &b)) && fn_valid(
            identity,
            op,
            fn_result(op, a, b),
        ) && forall|r: T| #[trigger] call_ensures(op, (&a, &b), r) ==> r == fn_result(op, a, b),
        fn_valid(identity, op, a) && fn_valid(identity, op, b) && fn_valid(identity, op, c) ==> fn_result(
            op,
            fn_result(op, a, b),
            c,
        ) == fn_result(op, a, fn_result(op, b, c)),
        fn_valid(identity, op, a) ==> fn_result(op, identity, a) == a && fn_result(op, a, identity) == a,
        strictly_cloned(a, b) ==> a == b,
{
    reveal(monoid_laws);
    if fn_valid(identity, op, a) && fn_valid(identity, op, b) {
        assert(fn_valid(identity, op, fn_result(op, a, b)));
    }
    assert(fn_valid(identity, op, a) && fn_valid(identity, op, b) && fn_valid(identity, op, c) ==> fn_result(
        op,
        fn_result(op, a, b),
        c,
    ) == fn_result(op, a, fn_result(op, b, c)));
    assert(fn_valid(identity, op, a) ==> fn_result(op, identity, a) == a);
    assert(fn_valid(identity, op, a) ==> fn_result(op, a, identity) == a);
    assert(strictly_cloned(a, b) ==> a == b);
}

/// What the group laws say of given elements.
proof fn lemma_fn_group<T: Clone, F: Fn(&T, &T) -> T, G: Fn(&T, &T) -> T>(identity: T, op: F, inv_op: G, a: T, b: T)
    requires
        group_laws(identity, op, inv_op),
    ensures
        monoid_laws(identity, op),
        fn_valid(identity, op, a) && fn_valid(identity, op, b) ==> call_requires(inv_op, (&a, &b)) && (forall|r: T|
            #[trigger] call_ensures(inv_op, (&a, &b), r) ==> r == fn_result(inv_op, a, b)) && fn_result(
            inv_op,
            fn_result(op, a, b),
            a,
        ) == b,
{
    reveal(group_laws);
}

/// A monoid built from an identity value and a closure, for operations fixed at run time.
pub struct FnMonoid<T, F> {
    identity: T,
    op: F,
}

impl<T: Clone, F: Fn(&T, &T) -> T> FnMonoid<T, F> {
    pub fn new(identity: T, op: F) -> (r: Self)
        requires
            monoid_laws(identity, op),
        ensures
            r.wf(),
            r.identity_spec() == identity,
            forall|a: T, b: T| #[trigger] r.op_spec(a, b) == fn_result(op, a, b),
            forall|a: T| #[trigger] r.valid(a) == fn_valid(identity, op, a),
    {
        FnMonoid { identity, op }
    }
}

impl<T: Clone, F: Fn(&T, &T) -> T> Monoid for FnMonoid<T, F> {
    type T = T;

    closed spec fn wf(&self) -> bool {
        monoid_laws(self.identity, self.op)
    }

    closed spec fn identity_spec(&self) -> T {
        self.identity
    }

    closed spec fn op_spec(&self, a: T, b: T) -> T {
        fn_result(self.op, a, b)
    }

    closed spec fn valid(&self, a: T) -> bool {
        fn_valid(self.identity, self.op, a)
    }

    proof fn lemma_laws(&self, a: T, b: T, c: T) {
        lemma_fn_monoid(self.identity, self.op, a, b, c);
    }

    fn identity(&self) -> (r: T) {
        let r = self.identity.clone();
        proof {
            lemma_fn_monoid(self.identity, self.op, self.identity, r, r);
        }
        r
    }

    fn binary_op(&self, a: &T, b: &T) -> (r: T) {
        proof {
            lemma_fn_monoid(self.identity, self.op, *a, *b, *b);
        }
        (self.op)(a, b)
    }
}

/// A group built from an identity value, a closure for the operation and one for `a ∘ b⁻¹`.
pub struct FnGroup<T, F, G> {
    identity: T,
    op: F,
    inv_op: G,
}

/// `inv_op` may be called on valid elements, always gives the same result, and
/// `(a ∘ b) ∘ a⁻¹ == b` there.
#[verifier::opaque]
pub open spec fn group_laws<T: Clone, F: Fn(&T, &T) -> T, G: Fn(&T, &T) -> T>(identity: T, op: F, inv_op: G) -> bool {
    &&& monoid_laws(identity, op)
    &&& forall|a: T, b: T|
        fn_valid(identity, op, a) && fn_valid(identity, op, b) ==> #[trigger] call_requires(inv_op, (&a, &b))
    &&& forall|a: T, b: T, r: T|
        fn_valid(identity, op, a) && fn_valid(identity, op, b) && #[trigger] call_ensures(inv_op, (&a, &b), r) ==> r
            == fn_result(inv_op, a, b)
    &&& forall|a: T, b: T|
        fn_valid(identity, op, a) && fn_valid(identity, op, b) ==> #[trigger] fn_result(
            inv_op,
            fn_result(op, a, b),
            a,
        ) == b
}

impl<T: Clone, F: Fn(&T, &T) -> T, G: Fn(&T, &T) -> T> FnGroup<T, F, G> {
    pub fn new(identity: T, op: F, inv_op: G) -> (r: Self)
        requires
            group_laws(identity, op, inv_op),
        ensures
            r.wf(),
            r.identity_spec() == identity,
            forall|a: T, b: T| #[trigger] r.op_spec(a, b) == fn_result(op, a, b),
            forall|a: T, b: T| #[trigger] r.inv_op_spec(a, b) == fn_result(inv_op, a, b),
            forall|a: T| #[trigger] r.valid(a) == fn_valid(identity, op, a),
    {
        FnGroup { identity, op, inv_op }
    }
}

impl<T: Clone, F: Fn(&T, &T) -> T, G: Fn(&T, &T) -> T> Monoid for FnGroup<T, F, G> {
    type T = T;

    closed spec fn wf(&self) -> bool {
        group_laws(self.identity, self.op, self.inv_op)
    }

    closed spec fn identity_spec(&self) -> T {
        self.identity
    }

    closed spec fn op_spec(&self, a: T, b: T) -> T {
        fn_result(self.op, a, b)
    }

    closed spec fn valid(&self, a: T) -> bool {
        fn_valid(self.identity, self.op, a)
    }

    proof fn lemma_laws(&self, a: T, b: T, c: T) {
        lemma_fn_group(self.identity, self.op, self.inv_op, a, b);
        lemma_fn_monoid(self.identity, self.op, a, b, c);
    }

    fn identity(&self) -> (r: T) {
        let r = self.identity.clone();
        proof {
            lemma_fn_group(self.identity, self.op, self.inv_op, r, r);
            lemma_fn_monoid(self.identity, self.op, self.identity, r, r);
        }
        r
    }

    fn binary_op(&self, a: &T, b: &T) -> (r: T) {
        proof {
            lemma_fn_group(self.identity, self.op, self.inv_op, *a, *b);
            lemma_fn_monoid(self.identity, self.op, *a, *b, *b);
        }
        (self.op)(a, b)
    }
}

impl<T: Clone, F: Fn(&T, &T) -> T, G: Fn(&T, &T) -> T> Group for FnGroup<T, F, G> {
    closed spec fn inv_op_spec(&self, a: T, b: T) -> T {
        fn_result(self.inv_op, a, b)
    }

    proof fn lemma_group_laws(&self, a: T, b: T) {
        lemma_fn_group(self.identity, self.op, self.inv_op, a, b);
    }

    fn inv_binary_op(&self, a: &T, b: &T) -> (r: T) {
        proof {
            lemma_fn_group(self.identity, self.op, self.inv_op, *a, *b);
        }
        (self.inv_op)(a, b)
    }
}

/// `x - y` is a multiple of `m` when `x` is `y` moved by at most one `m`.
proof fn lemma_wrapped(x: int, y: int, m: int)
    requires
        m > 0,
        x == y || x == y - m || x == y + m,
    ensures
        (x - y) % m == 0,
{
    if x == y - m {
        vstd::arithmetic::div_mod::lemma_mod_multiples_basic(-1, m);
    } else if x == y + m {
        vstd::arithmetic::div_mod::lemma_mod_multiples_basic(1, m);
    }
}

/// `x - y` is a multiple of `m` when `x ≡ y`.
proof fn lemma_cong_diff(x: int, y: int, m: int)
    requires
        m > 0,
        x % m == y % m,
    ensures
        (x - y) % m == 0,
{
    vstd::arithmetic::div_mod::lemma_sub_mod_noop(x, y, m);
    vstd::arithmetic::div_mod::lemma_small_mod(0, m as nat);
}

/// The instances on `i8`: `Min` gives the smaller argument and `Max` the larger, `Min`'s
/// identity lies above every value and `Max`'s below; `Sum`, its difference and `Prod` agree with
/// `+`, `-` and `*` modulo `2^8`.
pub proof fn lemma_i8_instances(mn: Min<i8>, mx: Max<i8>, s: Sum<i8>, p: Prod<i8>, a: i8, b: i8)
    ensures
        mn.op_spec(a, b) <= a && mn.op_spec(a, b) <= b,
        mn.op_spec(a, b) == a || mn.op_spec(a, b) == b,
        a <= mn.identity_spec(),
        mx.op_spec(a, b) >= a && mx.op_spec(a, b) >= b,
        mx.op_spec(a, b) == a || mx.op_spec(a, b) == b,
        mx.identity_spec() <= a,
        (s.op_spec(a, b) - (a + b)) % 0x100 == 0,
        (s.inv_op_spec(a, b) - (a - b)) % 0x100 == 0,
        (p.op_spec(a, b) - a * b) % 0x100 == 0,
{
    lemma_wrapped(s.op_spec(a, b) as int, a + b, 0x100);
    lemma_wrapped(s.inv_op_spec(a, b) as int, a - b, 0x100);
    lemma_crop_congruent(a * b, 0x100, i8::MAX as int);
    lemma_cong_diff(p.op_spec(a, b) as int, a * b, 0x100);
}

/// The instances on `i16`: `Min` gives the smaller argument and `Max` the larger, `Min`'s
/// identity lies above every value and `Max`'s below; `Sum`, its difference and `Prod` agree with
/// `+`, `-` and `*` modulo `2^16`.
pub proof fn lemma_i16_instances(mn: Min<i16>, mx: Max<i16>, s: Sum<i16>, p: Prod<i16>, a: i16, b: i16)
    ensures
        mn.op_spec(a, b) <= a && mn.op_spec(a, b) <= b,
        mn.op_spec(a, b) == a || mn.op_spec(a, b) == b,
        a <= mn.identity_spec(),
        mx.op_spec(a, b) >= a && mx.op_spec(a, b) >= b,
        mx.op_spec(a, b) == a || mx.op_spec(a, b) == b,
        mx.identity_spec() <= a,
        (s.op_spec(a, b) - (a + b)) % 0x1_0000 == 0,
        (s.inv_op_spec(a, b) - (a - b)) % 0x1_0000 == 0,
        (p.op_spec(a, b) - a * b) % 0x1_0000 == 0,
{
    lemma_wrapped(s.op_spec(a, b) as int, a + b, 0x1_0000);
    lemma_wrapped(s.inv_op_spec(a, b) as int, a - b, 0x1_0000);
    lemma_crop_congruent(a * b, 0x1_0000, i16::MAX as int);
    lemma_cong_diff(p.op_spec(a, b) as int, a * b, 0x1_0000);
}

/// The instances on `i32`: `Min` gives the smaller argument and `Max` the larger, `Min`'s
/// identity lies above every value and `Max`'s below; `Sum`, its difference and `Prod` agree with
/// `+`, `-` and `*` modulo `2^32`.
pub proof fn lemma_i32_instances(mn: Min<i32>, mx: Max<i32>, s: Sum<i32>, p: Prod<i32>, a: i32, b: i32)
    ensures
        mn.op_spec(a, b) <= a && mn.op_spec(a, b) <= b,
        mn.op_spec(a, b) == a || mn.op_spec(a, b) == b,
        a <= mn.identity_spec(),
        mx.op_spec(a, b) >= a && mx.op_spec(a, b) >= b,
        mx.op_spec(a, b) == a || mx.op_spec(a, b) == b,
        mx.identity_spec() <= a,
        (s.op_spec(a, b) - (a + b)) % 0x1_0000_0000 == 0,
        (s.inv_op_spec(a, b) - (a - b)) % 0x1_0000_0000 == 0,
        (p.op_spec(a, b) - a * b) % 0x1_0000_0000 == 0,
{
    lemma_wrapped(s.op_spec(a, b) as int, a + b, 0x1_0000_0000);
    lemma_wrapped(s.inv_op_spec(a, b) as int, a - b, 0x1_0000_0000);
    lemma_crop_congruent(a * b, 0x1_0000_0000, i32::MAX as int);
    lemma_cong_diff(p.op_spec(a, b) as int, a * b, 0x1_0000_0000);
}

/// The instances on `i64`: `Min` gives the smaller argument and `Max` the larger, `Min`'s
/// identity lies above every value and `Max`'s below; `Sum`, its difference and `Prod` agree with
/// `+`, `-` and `*` modulo `2^64`.
pub proof fn lemma_i64_instances(mn: Min<i64>, mx: Max<i64>, s: Sum<i64>, p: Prod<i64>, a: i64, b: i64)
    ensures
        mn.op_spec(a, b) <= a && mn.op_spec(a, b) <= b,
        mn.op_spec(a, b) == a || mn.op_spec(a, b) == b,
        a <= mn.identity_spec(),
        mx.op_spec(a, b) >= a && mx.op_spec(a, b) >= b,
        mx.op_spec(a, b) == a || mx.op_spec(a, b) == b,
        mx.identity_spec() <= a,
        (s.op_spec(a, b) - (a + b)) % 0x1_0000_0000_0000_0000 == 0,
        (s.inv_op_spec(a, b) - (a - b)) % 0x1_0000_0000_0000_0000 == 0,
        (p.op_spec(a, b) - a * b) % 0x1_0000_0000_0000_0000 == 0,
{
    lemma_wrapped(s.op_spec(a, b) as int, a + b, 0x1_0000_0000_0000_0000);
    lemma_wrapped(s.inv_op_spec(a, b) as int, a - b, 0x1_0000_0000_0000_0000);
    lemma_crop_congruent(a * b, 0x1_0000_0000_0000_0000, i64::MAX as int);
    lemma_cong_diff(p.op_spec(a, b) as int, a * b, 0x1_0000_0000_0000_0000);
}

/// The instances on `i128`: `Min` gives the smaller argument and `Max` the larger, `Min`'s
/// identity lies above every value and `Max`'s below; `Sum`, its difference and `Prod` agree with
/// `+`, `-` and `*` modulo `2^128`.
pub proof fn lemma_i128_instances(mn: Min<i128>, mx: Max<i128>, s: Sum<i128>, p: Prod<i128>, a: i128, b: i128)
    ensures
        mn.op_spec(a, b) <= a && mn.op_spec(a, b) <= b,
        mn.op_spec(a, b) == a || mn.op_spec(a, b) == b,
        a <= mn.identity_spec(),
        mx.op_spec(a, b) >= a && mx.op_spec(a, b) >= b,
        mx.op_spec(a, b) == a || mx.op_spec(a, b) == b,
        mx.identity_spec() <= a,
        (s.op_spec(a, b) - (a + b)) % (u128::MAX + 1) == 0,
        (s.inv_op_spec(a, b) - (a - b)) % (u128::MAX + 1) == 0,
        (p.op_spec(a, b) - a * b) % (u128::MAX + 1) == 0,
{
    lemma_wrapped(s.op_spec(a, b) as int, a + b, (u128::MAX + 1));
    lemma_wrapped(s.inv_op_spec(a, b) as int, a - b, (u128::MAX + 1));
    lemma_crop_congruent(a * b, (u128::MAX + 1), i128::MAX as int);
    lemma_cong_diff(p.op_spec(a, b) as int, a * b, (u128::MAX + 1));
}

/// The instances on `isize`: `Min` gives the smaller argument and `Max` the larger, `Min`'s
/// identity lies above every value and `Max`'s below; `Sum`, its difference and `Prod` agree with
/// `+`, `-` and `*` modulo `2^usize::BITS`.
pub proof fn lemma_isize_instances(mn: Min<isize>, mx: Max<isize>, s: Sum<isize>, p: Prod<isize>, a: isize, b: isize)
    ensures
        mn.op_spec(a, b) <= a && mn.op_spec(a, b) <= b,
        mn.op_spec(a, b) == a || mn.op_spec(a, b) == b,
        a <= mn.identity_spec(),
        mx.op_spec(a, b) >= a && mx.op_spec(a, b) >= b,
        mx.op_spec(a, b) == a || mx.op_spec(a, b) == b,
        mx.identity_spec() <= a,
        (s.op_spec(a, b) - (a + b)) % (usize::MAX + 1) == 0,
        (s.inv_op_spec(a, b) - (a - b)) % (usize::MAX + 1) == 0,
        (p.op_spec(a, b) - a * b) % (usize::MAX + 1) == 0,
{
    lemma_wrapped(s.op_spec(a, b) as int, a + b, (usize::MAX + 1));
    lemma_wrapped(s.inv_op_spec(a, b) as int, a - b, (usize::MAX + 1));
    lemma_crop_congruent(a * b, (usize::MAX + 1), isize::MAX as int);
    lemma_cong_diff(p.op_spec(a, b) as int, a * b, (usize::MAX + 1));
}

/// The instances on `u8`: `Min` gives the smaller argument and `Max` the larger, `Min`'s
/// identity lies above every value and `Max`'s below; `Sum`, its difference and `Prod` agree with
/// `+`, `-` and `*` modulo `2^8`.
pub proof fn lemma_u8_instances(mn: Min<u8>, mx: Max<u8>, s: Sum<u8>, p: Prod<u8>, a: u8, b: u8)
    ensures
        mn.op_spec(a, b) <= a && mn.op_spec(a, b) <= b,
        mn.op_spec(a, b) == a || mn.op_spec(a, b) == b,
        a <= mn.identity_spec(),
        mx.op_spec(a, b) >= a && mx.op_spec(a, b) >= b,
        mx.op_spec(a, b) == a || mx.op_spec(a, b) == b,
        mx.identity_spec() <= a,
        (s.op_spec(a, b) - (a + b)) % 0x100 == 0,
        (s.inv_op_spec(a, b) - (a - b)) % 0x100 == 0,
        (p.op_spec(a, b) - a * b) % 0x100 == 0,
{
    lemma_wrapped(s.op_spec(a, b) as int, a + b, 0x100);
    lemma_wrapped(s.inv_op_spec(a, b) as int, a - b, 0x100);
    vstd::arithmetic::div_mod::lemma_mod_twice(a * b, 0x100);
    lemma_cong_diff(p.op_spec(a, b) as int, a * b, 0x100);
}

/// The instances on `u16`: `Min` gives the smaller argument and `Max` the larger, `Min`'s
/// identity lies above every value and `Max`'s below; `Sum`, its difference and `Prod` agree with
/// `+`, `-` and `*` modulo `2^16`.
pub proof fn lemma_u16_instances(mn: Min<u16>, mx: Max<u16>, s: Sum<u16>, p: Prod<u16>, a: u16, b: u16)
    ensures
        mn.op_spec(a, b) <= a && mn.op_spec(a, b) <= b,
        mn.op_spec(a, b) == a || mn.op_spec(a, b) == b,
        a <= mn.identity_spec(),
        mx.op_spec(a, b) >= a && mx.op_spec(a, b) >= b,
        mx.op_spec(a, b) == a || mx.op_spec(a, b) == b,
        mx.identity_spec() <= a,
        (s.op_spec(a, b) - (a + b)) % 0x1_0000 == 0,
        (s.inv_op_spec(a, b) - (a - b)) % 0x1_0000 == 0,
        (p.op_spec(a, b) - a * b) % 0x1_0000 == 0,
{
    lemma_wrapped(s.op_spec(a, b) as int, a + b, 0x1_0000);
    lemma_wrapped(s.inv_op_spec(a, b) as int, a - b, 0x1_0000);
    vstd::arithmetic::div_mod::lemma_mod_twice(a * b, 0x1_0000);
    lemma_cong_diff(p.op_spec(a, b) as int, a * b, 0x1_0000);
}

/// The instances on `u32`: `Min` gives the smaller argument and `Max` the larger, `Min`'s
/// identity lies above every value and `Max`'s below; `Sum`, its difference and `Prod` agree with
/// `+`, `-` and `*` modulo `2^32`.
pub proof fn lemma_u32_instances(mn: Min<u32>, mx: Max<u32>, s: Sum<u32>, p: Prod<u32>, a: u32, b: u32)
    ensures
        mn.op_spec(a, b) <= a && mn.op_spec(a, b) <= b,
        mn.op_spec(a, b) == a || mn.op_spec(a, b) == b,
        a <= mn.identity_spec(),
        mx.op_spec(a, b) >= a && mx.op_spec(a, b) >= b,
        mx.op_spec(a, b) == a || mx.op_spec(a, b) == b,
        mx.identity_spec() <= a,
        (s.op_spec(a, b) - (a + b)) % 0x1_0000_0000 == 0,
        (s.inv_op_spec(a, b) - (a - b)) % 0x1_0000_0000 == 0,
        (p.op_spec(a, b) - a * b) % 0x1_0000_0000 == 0,
{
    lemma_wrapped(s.op_spec(a, b) as int, a + b, 0x1_0000_0000);
    lemma_wrapped(s.inv_op_spec(a, b) as int, a - b, 0x1_0000_0000);
    vstd::arithmetic::div_mod::lemma_mod_twice(a * b, 0x1_0000_0000);
    lemma_cong_diff(p.op_spec(a, b) as int, a * b, 0x1_0000_0000);
}

/// The instances on `u64`: `Min` gives the smaller argument and `Max` the larger, `Min`'s
/// identity lies above every value and `Max`'s below; `Sum`, its difference and `Prod` agree with
/// `+`, `-` and `*` modulo `2^64`.
pub proof fn lemma_u64_instances(mn: Min<u64>, mx: Max<u64>, s: Sum<u64>, p: Prod<u64>, a: u64, b: u64)
    ensures
        mn.op_spec(a, b) <= a && mn.op_spec(a, b) <= b,
        mn.op_spec(a, b) == a || mn.op_spec(a, b) == b,
        a <= mn.identity_spec(),
        mx.op_spec(a, b) >= a && mx.op_spec(a, b) >= b,
        mx.op_spec(a, b) == a || mx.op_spec(a, b) == b,
        mx.identity_spec() <= a,
        (s.op_spec(a, b) - (a + b)) % 0x1_0000_0000_0000_0000 == 0,
        (s.inv_op_spec(a, b) - (a - b)) % 0x1_0000_0000_0000_0000 == 0,
        (p.op_spec(a, b) - a * b) % 0x1_0000_0000_0000_0000 == 0,
{
    lemma_wrapped(s.op_spec(a, b) as int, a + b, 0x1_0000_0000_0000_0000);
    lemma_wrapped(s.inv_op_spec(a, b) as int, a - b, 0x1_0000_0000_0000_0000);
    vstd::arithmetic::div_mod::lemma_mod_twice(a * b, 0x1_0000_0000_0000_0000);
    lemma_cong_diff(p.op_spec(a, b) as int, a * b, 0x1_0000_0000_0000_0000);
}

/// The instances on `u128`: `Min` gives the smaller argument and `Max` the larger, `Min`'s
/// identity lies above every value and `Max`'s below; `Sum`, its difference and `Prod` agree with
/// `+`, `-` and `*` modulo `2^128`.
pub proof fn lemma_u128_instances(mn: Min<u128>, mx: Max<u128>, s: Sum<u128>, p: Prod<u128>, a: u128, b: u128)
    ensures
        mn.op_spec(a, b) <= a && mn.op_spec(a, b) <= b,
        mn.op_spec(a, b) == a || mn.op_spec(a, b) == b,
        a <= mn.identity_spec(),
        mx.op_spec(a, b) >= a && mx.op_spec(a, b) >= b,
        mx.op_spec(a, b) == a || mx.op_spec(a, b) == b,
        mx.identity_spec() <= a,
        (s.op_spec(a, b) - (a + b)) % (u128::MAX + 1) == 0,
        (s.inv_op_spec(a, b) - (a - b)) % (u128::MAX + 1) == 0,
        (p.op_spec(a, b) - a * b) % (u128::MAX + 1) == 0,
{
    lemma_wrapped(s.op_spec(a, b) as int, a + b, (u128::MAX + 1));
    lemma_wrapped(s.inv_op_spec(a, b) as int, a - b, (u128::MAX + 1));
    vstd::arithmetic::div_mod::lemma_mod_twice(a * b, (u128::MAX + 1));
    lemma_cong_diff(p.op_spec(a, b) as int, a * b, (u128::MAX + 1));
}

/// The instances on `usize`: `Min` gives the smaller argument and `Max` the larger, `Min`'s
/// identity lies above every value and `Max`'s below; `Sum`, its difference and `Prod` agree with
/// `+`, `-` and `*` modulo `2^usize::BITS`.
pub proof fn lemma_usize_instances(mn: Min<usize>, mx: Max<usize>, s: Sum<usize>, p: Prod<usize>, a: usize, b: usize)
    ensures
        mn.op_spec(a, b) <= a && mn.op_spec(a, b) <= b,
        mn.op_spec(a, b) == a || mn.op_spec(a, b) == b,
        a <= mn.identity_spec(),
        mx.op_spec(a, b) >= a && mx.op_spec(a, b) >= b,
        mx.op_spec(a, b) == a || mx.op_spec(a, b) == b,
        mx.identity_spec() <= a,
        (s.op_spec(a, b) - (a + b)) % (usize::MAX + 1) == 0,
        (s.inv_op_spec(a, b) - (a - b)) % (usize::MAX + 1) == 0,
        (p.op_spec(a, b) - a * b) % (usize::MAX + 1) == 0,
{
    lemma_wrapped(s.op_spec(a, b) as int, a + b, (usize::MAX + 1));
    lemma_wrapped(s.inv_op_spec(a, b) as int, a - b, (usize::MAX + 1));
    vstd::arithmetic::div_mod::lemma_mod_twice(a * b, (usize::MAX + 1));
    lemma_cong_diff(p.op_spec(a, b) as int, a * b, (usize::MAX + 1));
}

/// `Xor` flips exactly the bits where its arguments differ, and so does its difference.
pub proof fn lemma_xor_bits(x: Xor<u64>, a: u64, b: u64, i: u64)
    requires
        i < 64,
    ensures
        ((x.op_spec(a, b) >> i) & 1 == 1) == (((a >> i) & 1 == 1) != ((b >> i) & 1 == 1)),
        ((x.inv_op_spec(a, b) >> i) & 1 == 1) == (((a >> i) & 1 == 1) != ((b >> i) & 1 == 1)),
{
    assert((((a ^ b) >> i) & 1 == 1) == (((a >> i) & 1 == 1) != ((b >> i) & 1 == 1))) by (bit_vector)
        requires
            i < 64,
    ;
}

} // verus!

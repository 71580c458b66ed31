//! Segment tree over a monoid: point update and range product in `O(log n)`.
use vstd::prelude::*;
use vstd::arithmetic::power2::{pow2, lemma_pow2_unfold, lemma_pow2_pos};
use crate::algebra::{Monoid, fold, range_prod, all_valid, lemma_fold_split, lemma_fold_single};

verus! {

/// Segment tree over the monoid `M`.
///
/// The monoid is kept as an instance, so a modulus or a precomputed table can live in it.
/// Node `1` is the root; node `i` has children `2i` and `2i + 1`; the leaves are
/// `cap..2cap`, of which the first `n` hold the sequence and the rest the identity.
pub struct SegTree<M: Monoid> {
    n: usize,
    cap: usize,
    data: Vec<M::T>,
    monoid: M,
}

/// Node `i` holds the product of its two children.
pub open spec fn pulled<M: Monoid>(m: M, data: Seq<M::T>, i: int) -> bool {
    data[i] == m.op_spec(data[2 * i], data[2 * i + 1])
}

/// Every internal node below `cap` holds the product of its children.
pub open spec fn all_pulled<M: Monoid>(m: M, data: Seq<M::T>, cap: int) -> bool {
    forall|i: int| 1 <= i < cap ==> #[trigger] pulled(m, data, i)
}

pub open spec fn is_power_of_two(x: int) -> bool {
    exists|k: nat| pow2(k) == x
}

/// A node at width `2^k` holds the product of the `2^k` leaves below it.
proof fn lemma_cover<M: Monoid>(m: M, data: Seq<M::T>, cap: int, k: nat, i: int)
    requires
        m.wf(),
        cap >= 1,
        data.len() == 2 * cap,
        all_pulled(m, data, cap),
        all_valid(m, data),
        1 <= i,
        i * pow2(k) >= cap,
        (i + 1) * pow2(k) <= 2 * cap,
    ensures
        data[i] == fold(m, data.subrange(i * pow2(k), (i + 1) * pow2(k))),
    decreases k,
{
    lemma_pow2_pos(k);
    if k == 0 {
        assert(pow2(0) == 1) by {
            vstd::arithmetic::power2::lemma2_to64();
        }
        assert(data.subrange(i, i + 1) =~= seq![data[i]]);
        lemma_fold_single(m, data[i]);
    } else {
        let p = pow2((k - 1) as nat);
        lemma_pow2_unfold(k);
        lemma_pow2_pos((k - 1) as nat);
        assert(pow2(k) == 2 * p);
        assert(i * pow2(k) == (2 * i) * p) by (nonlinear_arith)
            requires
                pow2(k) == 2 * p,
        ;
        assert((i + 1) * pow2(k) == (2 * i + 2) * p) by (nonlinear_arith)
            requires
                pow2(k) == 2 * p,
        ;
        assert((2 * i + 2) * p == (2 * i + 1) * p + p) by (nonlinear_arith);
        assert((2 * i + 1) * p == (2 * i) * p + p) by (nonlinear_arith);
        assert(i < cap) by (nonlinear_arith)
            requires
                (i + 1) * pow2(k) <= 2 * cap,
                pow2(k) == 2 * p,
                p >= 1,
                i >= 1,
        ;
        lemma_cover(m, data, cap, (k - 1) as nat, 2 * i);
        lemma_cover(m, data, cap, (k - 1) as nat, 2 * i + 1);
        assert(pulled(m, data, i));
        lemma_fold_split(m, data, (2 * i) * p, (2 * i + 1) * p, (2 * i + 2) * p);
    }
}

impl<M: Monoid> View for SegTree<M> {
    type V = Seq<M::T>;

    /// The sequence the tree holds.
    closed spec fn view(&self) -> Seq<M::T> {
        self.data@.subrange(self.cap as int, self.cap + self.n)
    }
}

impl<M: Monoid> SegTree<M> {
    pub closed spec fn monoid_spec(&self) -> M {
        self.monoid
    }

    /// The structural invariant of the tree.
    pub closed spec fn wf(&self) -> bool {
        &&& self.monoid.wf()
        &&& is_power_of_two(self.cap as int)
        &&& 1 <= self.cap
        &&& 2 * self.cap <= usize::MAX
        &&& self.n <= self.cap
        &&& self.data@.len() == 2 * self.cap
        &&& forall|i: int|
            self.cap + self.n <= i < 2 * self.cap ==> #[trigger] self.data@[i] == self.monoid.identity_spec()
        &&& all_pulled(self.monoid, self.data@, self.cap as int)
        &&& all_valid(self.monoid, self.data@)
    }

    /// Every element of the sequence is valid for the monoid.
    pub proof fn lemma_view_valid(&self)
        requires
            self.wf(),
        ensures
            all_valid(self.monoid_spec(), self@),
    {
        assert forall|i: int| 0 <= i < self@.len() implies #[trigger] self.monoid.valid(self@[i]) by {
            assert(self.monoid.valid(self.data@[self.cap + i]));
        }
    }

    /// A sequence of length `n` filled with the identity.
    pub fn new(n: usize, monoid: M) -> (r: Self)
        requires
            monoid.wf(),
            n <= usize::MAX / 4,
        ensures
            r.wf(),
            r.monoid_spec() == monoid,
            r@ == Seq::new(n as nat, |i: int| monoid.identity_spec()),
    {
        let mut cap: usize = 1;
        let ghost mut k: nat = 0;
        assert(pow2(0) == 1) by {
            vstd::arithmetic::power2::lemma2_to64();
        }
        while cap < n
            invariant
                pow2(k) == cap,
                1 <= cap,
                n <= usize::MAX / 4,
                cap < 2 * n || cap == 1,
            decreases usize::MAX - cap,
        {
            proof {
                lemma_pow2_unfold(k + 1);
            }
            cap = cap * 2;
            proof {
                k = k + 1;
            }
        }
        let e = monoid.identity();
        let data = vec![e; cap * 2];
        proof {
            assert forall|i: int| 0 <= i < data@.len() implies data@[i] == monoid.identity_spec() by {
                monoid.lemma_laws(e, data@[i], e);
            }
            assert forall|i: int| 1 <= i < cap implies #[trigger] pulled(monoid, data@, i) by {
                monoid.lemma_laws(e, e, e);
            }
            monoid.lemma_laws(e, e, e);
            assert(all_valid(monoid, data@));
        }
        let r = SegTree { n, cap, data, monoid };
        assert(r@ =~= Seq::new(n as nat, |i: int| monoid.identity_spec()));
        r
    }

    /// Recomputes node `pt` from its children.
    fn pull(&mut self, pt: usize)
        requires
            1 <= pt < old(self).cap,
            2 * old(self).cap <= usize::MAX,
            old(self).data@.len() == 2 * old(self).cap,
            old(self).monoid.wf(),
            old(self).monoid.valid(old(self).data@[2 * pt]),
            old(self).monoid.valid(old(self).data@[2 * pt + 1]),
        ensures
            final(self).data@ == old(self).data@.update(
                pt as int,
                old(self).monoid.op_spec(old(self).data@[2 * pt], old(self).data@[2 * pt + 1]),
            ),
            final(self).n == old(self).n,
            final(self).cap == old(self).cap,
            final(self).monoid == old(self).monoid,
    {
        let v = self.monoid.binary_op(&self.data[2 * pt], &self.data[2 * pt + 1]);
        self.data.set(pt, v);
    }

    /// Builds the tree over `values` in `O(n)`.
    pub fn from_vec(values: Vec<M::T>, monoid: M) -> (r: Self)
        requires
            monoid.wf(),
            values.len() <= usize::MAX / 4,
            all_valid(monoid, values@),
        ensures
            r.wf(),
            r.monoid_spec() == monoid,
            r@ == values@,
    {
        let ghost vals = values@;
        let mut values = values;
        let mut tree = Self::new(values.len(), monoid);
        let len = values.len();
        let cap = tree.cap;
        assert(tree@.len() == len);
        let mut i = len;
        while i > 0
            invariant
                tree.cap == cap,
                tree.n == len,
                len == vals.len(),
                tree.data@.len() == 2 * cap,
                len <= cap,
                1 <= cap,
                2 * cap <= usize::MAX,
                values@ == vals.subrange(0, i as int),
                i <= len,
                forall|j: int| i <= j < len ==> tree.data@[cap + j] == vals[j],
                forall|j: int|
                    cap + len <= j < 2 * cap ==> #[trigger] tree.data@[j] == monoid.identity_spec(),
                tree.monoid == monoid,
                tree.monoid.wf(),
                is_power_of_two(cap as int),
                all_valid(monoid, vals),
                all_valid(monoid, tree.data@),
            decreases i,
        {
            let v = values.pop().unwrap();
            i = i - 1;
            assert(monoid.valid(vals[i as int]));
            tree.data.set(cap + i, v);
        }
        let mut pt = cap;
        while pt > 1
            invariant
                1 <= pt <= cap,
                2 * cap <= usize::MAX,
                tree.cap == cap,
                tree.n == len,
                tree.data@.len() == 2 * cap,
                len <= cap,
                len == vals.len(),
                forall|j: int| 0 <= j < len ==> tree.data@[cap + j] == vals[j],
                forall|j: int|
                    cap + len <= j < 2 * cap ==> #[trigger] tree.data@[j] == monoid.identity_spec(),
                forall|j: int| pt <= j < cap ==> #[trigger] pulled(monoid, tree.data@, j),
                tree.monoid == monoid,
                tree.monoid.wf(),
                is_power_of_two(cap as int),
                all_valid(monoid, tree.data@),
            decreases pt,
        {
            pt = pt - 1;
            let ghost before = tree.data@;
            tree.pull(pt);
            proof {
                monoid.lemma_laws(before[2 * pt], before[2 * pt + 1], before[2 * pt]);
            }
            assert forall|j: int| pt <= j < cap implies #[trigger] pulled(monoid, tree.data@, j) by {
                if j != pt {
                    assert(pulled(monoid, before, j));
                }
            }
        }
        assert(tree@ =~= vals);
        tree
    }

    /// The length of the sequence.
    pub fn len(&self) -> (r: usize)
        requires
            self.wf(),
        ensures
            r == self@.len(),
    {
        self.n
    }

    pub fn is_empty(&self) -> (r: bool)
        requires
            self.wf(),
        ensures
            r == (self@.len() == 0),
    {
        self.n == 0
    }

    pub fn monoid(&self) -> (r: &M)
        ensures
            *r == self.monoid_spec(),
    {
        &self.monoid
    }

    /// The `i`-th element.
    pub fn get(&self, i: usize) -> (r: &M::T)
        requires
            self.wf(),
            i < self@.len(),
        ensures
            *r == self@[i as int],
    {
        &self.data[self.cap + i]
    }

    /// Replaces the `i`-th element by `value`.
    pub fn set(&mut self, i: usize, value: M::T)
        requires
            old(self).wf(),
            i < old(self)@.len(),
            old(self).monoid_spec().valid(value),
        ensures
            final(self).wf(),
            final(self)@ == old(self)@.update(i as int, value),
            final(self).monoid_spec() == old(self).monoid_spec(),
    {
        let cap = self.cap;
        let ghost m = self.monoid;
        let mut pt = cap + i;
        self.data.set(pt, value);
        proof {
            assert forall|j: int|
                1 <= j < cap && !is_ancestor(j, pt as int) implies #[trigger] pulled(m, self.data@, j) by {
                assert(pulled(m, old(self).data@, j));
                assert(j != pt / 2);
            }
            assert(self.data@.subrange(cap as int, 2 * cap) =~= old(self).data@.subrange(
                cap as int,
                2 * cap,
            ).update(i as int, value));
        }
        while pt > 1
            invariant
                self.cap == cap,
                self.n == old(self).n,
                self.monoid == m,
                m.wf(),
                1 <= pt < 2 * cap,
                2 * cap <= usize::MAX,
                i < old(self).n <= cap,
                old(self).data@.len() == 2 * cap,
                self.data@.len() == 2 * cap,
                self.data@.subrange(cap as int, 2 * cap) == old(self).data@.subrange(
                    cap as int,
                    2 * cap,
                ).update(i as int, value),
                forall|j: int|
                    1 <= j < cap && !is_ancestor(j, pt as int) ==> #[trigger] pulled(m, self.data@, j),
                all_valid(m, self.data@),
            decreases pt,
        {
            let ghost before = self.data@;
            let ghost old_pt = pt;
            pt = pt / 2;
            self.pull(pt);
            proof {
                m.lemma_laws(before[2 * pt], before[2 * pt + 1], before[2 * pt]);
            }
            assert(self.data@.subrange(cap as int, 2 * cap) =~= before.subrange(cap as int, 2 * cap));
            assert forall|j: int|
                1 <= j < cap && !is_ancestor(j, pt as int) implies #[trigger] pulled(m, self.data@, j) by {
                if j != pt {
                    assert(!is_ancestor(j, old_pt as int));
                    assert(pulled(m, before, j));
                    assert(j != old_pt / 2);
                }
            }
        }
        proof {
            assert forall|j: int| 1 <= j < cap implies #[trigger] pulled(m, self.data@, j) by {
                assert(!is_ancestor(j, 1));
            }
            assert forall|j: int|
                cap + self.n <= j < 2 * cap implies #[trigger] self.data@[j] == m.identity_spec() by {
                assert(self.data@[j] == self.data@.subrange(cap as int, 2 * cap)[j - cap]);
                assert(old(self).data@[j] == old(self).data@.subrange(cap as int, 2 * cap)[j - cap]);
            }
        }
        assert(self@ =~= old(self)@.update(i as int, value)) by {
            assert forall|j: int| 0 <= j < self.n implies self@[j] == old(self)@.update(i as int, value)[j] by {
                assert(self.data@[cap + j] == self.data@.subrange(cap as int, 2 * cap)[j]);
                assert(old(self).data@[cap + j] == old(self).data@.subrange(cap as int, 2 * cap)[j]);
            }
        }
    }

    /// Recomputes the `i`-th element from its current value with `f`.
    pub fn update<F: FnOnce(&M::T) -> M::T>(&mut self, i: usize, f: F)
        requires
            old(self).wf(),
            i < old(self)@.len(),
            call_requires(f, (&old(self)@[i as int],)),
            forall|v: M::T|
                call_ensures(f, (&old(self)@[i as int],), v) ==> old(self).monoid_spec().valid(v),
        ensures
            final(self).wf(),
            exists|v: M::T|
                call_ensures(f, (&old(self)@[i as int],), v) && final(self)@ == old(self)@.update(
                    i as int,
                    v,
                ),
            final(self).monoid_spec() == old(self).monoid_spec(),
    {
        let value = f(self.get(i));
        self.set(i, value);
    }

    /// The product of the elements with indices in `l..r`; the identity when `l >= r`.
    pub fn prod(&self, l: usize, r: usize) -> (res: M::T)
        requires
            self.wf(),
            l >= r || r <= self@.len(),
        ensures
            res == range_prod(self.monoid_spec(), self@, l as int, r as int),
    {
        if l >= r {
            return self.monoid.identity();
        }
        let cap = self.cap;
        let ghost m = self.monoid;
        let ghost data = self.data@;
        let ghost lo = cap + l;
        let ghost hi = cap + r;
        let mut l = l + cap;
        let mut r = r + cap;
        let mut prod_l = self.monoid.identity();
        let mut prod_r = self.monoid.identity();
        let ghost mut k: nat = 0;
        let ghost mut w: int = 1;
        proof {
            vstd::arithmetic::power2::lemma2_to64();
            assert(data.subrange(lo, lo) =~= Seq::<M::T>::empty());
            assert(data.subrange(hi, hi) =~= Seq::<M::T>::empty());
        }
        proof {
            m.lemma_laws(prod_l, prod_l, prod_l);
        }
        while l < r
            invariant
                m == self.monoid,
                m.valid(prod_l),
                m.valid(prod_r),
                data == self.data@,
                self.wf(),
                cap == self.cap,
                cap <= lo < hi <= 2 * cap,
                w == pow2(k),
                w >= 1,
                1 <= l <= r,
                lo <= l * w <= r * w <= hi,
                prod_l == fold(m, data.subrange(lo, l * w)),
                prod_r == fold(m, data.subrange(r * w, hi)),
            decreases r - l,
        {
            proof {
                lemma_pow2_pos(k);
            }
            let ghost old_pl = prod_l;
            let ghost old_pr = prod_r;
            if l % 2 == 1 {
                proof {
                    assert((l + 1) * w == l * w + w) by (nonlinear_arith);
                    assert((l + 1) * w <= r * w) by (nonlinear_arith)
                        requires
                            l + 1 <= r,
                            w >= 1,
                    ;
                    lemma_cover(m, data, cap as int, k, l as int);
                    assert(l < 2 * cap) by (nonlinear_arith)
                        requires
                            l * w < 2 * cap,
                            w >= 1,
                            l >= 0,
                    ;
                    lemma_fold_split(m, data, lo, l * w, (l + 1) * w);
                }
                prod_l = self.monoid.binary_op(&prod_l, &self.data[l]);
                proof {
                    m.lemma_laws(old_pl, data[l as int], data[l as int]);
                }
                l = l + 1;
            }
            if r % 2 == 1 {
                proof {
                    assert((r - 1) * w + w == r * w) by (nonlinear_arith);
                    assert(l * w <= (r - 1) * w) by (nonlinear_arith)
                        requires
                            l <= r - 1,
                            w >= 1,
                    ;
                    assert(r - 1 < 2 * cap) by (nonlinear_arith)
                        requires
                            r * w <= 2 * cap,
                            w >= 1,
                            r >= 1,
                    ;
                    lemma_cover(m, data, cap as int, k, (r - 1) as int);
                    lemma_fold_split(m, data, (r - 1) * w, r * w, hi);
                }
                r = r - 1;
                prod_r = self.monoid.binary_op(&self.data[r], &prod_r);
                proof {
                    m.lemma_laws(data[r as int], old_pr, old_pr);
                }
            }
            proof {
                lemma_pow2_unfold(k + 1);
                assert((l / 2) * (2 * w) == l * w) by (nonlinear_arith)
                    requires
                        l % 2 == 0,
                ;
                assert((r / 2) * (2 * w) == r * w) by (nonlinear_arith)
                    requires
                        r % 2 == 0,
                ;
                k = k + 1;
                w = 2 * w;
            }
            l = l / 2;
            r = r / 2;
        }
        proof {
            lemma_fold_split(m, data, lo, l * w, hi);
            assert(data.subrange(lo, hi) =~= self@.subrange(lo - cap, hi - cap));
        }
        self.monoid.binary_op(&prod_l, &prod_r)
    }

    /// The product of the whole sequence, in `O(1)`.
    pub fn all_prod(&self) -> (res: M::T)
        requires
            self.wf(),
        ensures
            res == fold(self.monoid_spec(), self@),
    {
        let ghost m = self.monoid;
        let ghost data = self.data@;
        let cap = self.cap;
        proof {
            let k = choose|k: nat| pow2(k) == cap;
            lemma_cover(m, data, cap as int, k, 1);
            assert(pow2(k) == cap);
            lemma_fold_split(m, data, cap as int, cap + self.n, 2 * cap);
            lemma_fold_all_identity(m, data.subrange(cap + self.n, 2 * cap as int));
            self.lemma_view_valid();
            crate::algebra::lemma_fold_valid(m, self@);
            m.lemma_laws(fold(m, self@), fold(m, self@), fold(m, self@));
            assert(data.subrange(cap + 0, cap + self.n) =~= self@);
            assert(data.subrange(1 * cap, (1 + 1) * cap) =~= data.subrange(cap as int, 2 * cap));
        }
        let r = self.data[1].clone();
        proof {
            m.lemma_laws(data[1], r, r);
        }
        r
    }
}

/// `j` is a strict ancestor of node `x`.
pub open spec fn is_ancestor(j: int, x: int) -> bool
    decreases x,
{
    if x <= 1 {
        false
    } else {
        x / 2 == j || is_ancestor(j, x / 2)
    }
}

/// The product of identities is the identity.
proof fn lemma_fold_all_identity<M: Monoid>(m: M, s: Seq<M::T>)
    requires
        m.wf(),
        forall|i: int| 0 <= i < s.len() ==> #[trigger] s[i] == m.identity_spec(),
    ensures
        fold(m, s) == m.identity_spec(),
    decreases s.len(),
{
    m.lemma_laws(m.identity_spec(), m.identity_spec(), m.identity_spec());
    if s.len() > 0 {
        lemma_fold_all_identity(m, s.drop_last());
    }
}

} // verus!

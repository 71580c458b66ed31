//! Prefix products over a group: `O(n)` construction, `O(1)` range products.
use vstd::prelude::*;
use crate::algebra::{Monoid, Group, fold, range_prod, all_valid, lemma_fold_valid, lemma_fold_push};

verus! {

/// Prefix products of a sequence over the group `G`.
///
/// Range products are differences of prefix products, hence the `Group` bound; without
/// inverses use `SegTree`.
pub struct PrefixSum<G: Group> {
    /// `cum[i]` is the product of the first `i` elements; its length is `n + 1`.
    cum: Vec<G::T>,
    group: G,
    values: Ghost<Seq<G::T>>,
}

impl<G: Group> View for PrefixSum<G> {
    type V = Seq<G::T>;

    /// The sequence the prefix products were built from.
    closed spec fn view(&self) -> Seq<G::T> {
        self.values@
    }
}

impl<G: Group> PrefixSum<G> {
    pub closed spec fn group_spec(&self) -> G {
        self.group
    }

    pub closed spec fn wf(&self) -> bool {
        &&& self.group.wf()
        &&& all_valid(self.group, self.values@)
        &&& self.cum@.len() == self.values@.len() + 1
        &&& forall|i: int|
            0 <= i <= self.values@.len() ==> #[trigger] self.cum@[i] == fold(
                self.group,
                self.values@.take(i),
            )
    }

    /// Builds the prefix products of `values`.
    pub fn new(values: Vec<G::T>, group: G) -> (r: Self)
        requires
            group.wf(),
            all_valid(group, values@),
            values.len() < usize::MAX,
        ensures
            r.wf(),
            r@ == values@,
            r.group_spec() == group,
    {
        let n = values.len();
        let mut cum: Vec<G::T> = Vec::with_capacity(n + 1);
        let mut acc = group.identity();
        proof {
            group.lemma_laws(acc, acc, acc);
            assert(values@.take(0) =~= Seq::<G::T>::empty());
        }
        let c = acc.clone();
        proof {
            group.lemma_laws(acc, c, c);
        }
        cum.push(c);
        for i in 0..n
            invariant
                n == values@.len(),
                group.wf(),
                all_valid(group, values@),
                acc == fold(group, values@.take(i as int)),
                group.valid(acc),
                cum@.len() == i + 1,
                forall|j: int| 0 <= j <= i ==> #[trigger] cum@[j] == fold(group, values@.take(j)),
        {
            proof {
                lemma_fold_push(group, values@, 0, i as int);
                assert(values@.subrange(0, i as int) =~= values@.take(i as int));
                assert(values@.subrange(0, i + 1) =~= values@.take(i + 1));
                group.lemma_laws(acc, values@[i as int], acc);
            }
            acc = group.binary_op(&acc, &values[i]);
            let c = acc.clone();
            proof {
                group.lemma_laws(acc, c, c);
            }
            cum.push(c);
        }
        PrefixSum { cum, group, values: Ghost(values@) }
    }

    /// The length of the sequence.
    pub fn len(&self) -> (r: usize)
        requires
            self.wf(),
        ensures
            r == self@.len(),
    {
        self.cum.len() - 1
    }

    pub fn is_empty(&self) -> (r: bool)
        requires
            self.wf(),
        ensures
            r == (self@.len() == 0),
    {
        self.len() == 0
    }

    pub fn group(&self) -> (r: &G)
        ensures
            *r == self.group_spec(),
    {
        &self.group
    }

    /// The prefix products themselves: `cum()[i]` is the product of the first `i` elements.
    pub fn cum(&self) -> (r: &[G::T])
        requires
            self.wf(),
        ensures
            r@.len() == self@.len() + 1,
            forall|i: int| 0 <= i <= self@.len() ==> #[trigger] r@[i] == fold(self.group_spec(), self@.take(i)),
    {
        self.cum.as_slice()
    }

    /// The product of the elements with indices in `l..r`; the identity when `l >= r`.
    pub fn prod(&self, l: usize, r: usize) -> (res: G::T)
        requires
            self.wf(),
            l >= r || r <= self@.len(),
        ensures
            res == range_prod(self.group_spec(), self@, l as int, r as int),
    {
        if l >= r {
            return self.group.identity();
        }
        let ghost g = self.group;
        let ghost vals = self.values@;
        proof {
            crate::algebra::lemma_fold_split(g, vals, 0, l as int, r as int);
            assert(vals.subrange(0, l as int) =~= vals.take(l as int));
            assert(vals.subrange(0, r as int) =~= vals.take(r as int));
            assert(all_valid(g, vals.take(l as int)));
            assert(all_valid(g, vals.subrange(l as int, r as int)));
            lemma_fold_valid(g, vals.take(l as int));
            lemma_fold_valid(g, vals.subrange(l as int, r as int));
            g.lemma_group_laws(fold(g, vals.take(l as int)), fold(g, vals.subrange(l as int, r as int)));
            assert(all_valid(g, vals.take(r as int)));
            lemma_fold_valid(g, vals.take(r as int));
        }
        self.group.inv_binary_op(&self.cum[r], &self.cum[l])
    }

    /// The product of the whole sequence.
    pub fn all_prod(&self) -> (res: G::T)
        requires
            self.wf(),
        ensures
            res == fold(self.group_spec(), self@),
    {
        let n = self.len();
        let r = self.cum[n].clone();
        proof {
            assert(self.values@.take(n as int) =~= self.values@);
            self.group.lemma_laws(self.cum@[n as int], r, r);
        }
        r
    }
}

impl<G: Group + Default> PrefixSum<G> {
    /// Shortcut for groups whose identity and operation are fixed by the type (such as `Sum`).
    pub fn from_slice(values: &[G::T]) -> (r: Self)
        requires
            forall|g: G| #[trigger] call_ensures(G::default, (), g) ==> g.wf() && forall|i: int|
                0 <= i < values@.len() ==> #[trigger] g.valid(values@[i]),
            values@.len() < usize::MAX,
        ensures
            r.wf(),
            r@ == values@,
    {
        let group = G::default();
        let mut v: Vec<G::T> = Vec::with_capacity(values.len());
        for i in 0..values.len()
            invariant
                group.wf(),
                v@ == values@.take(i as int),
                forall|i: int| 0 <= i < values@.len() ==> #[trigger] group.valid(values@[i]),
        {
            let x = values[i].clone();
            proof {
                group.lemma_laws(values@[i as int], x, x);
            }
            v.push(x);
            assert(v@ =~= values@.take(i + 1));
        }
        assert(v@ =~= values@);
        assert(all_valid(group, v@)) by {
            assert forall|j: int| 0 <= j < v@.len() implies #[trigger] group.valid(v@[j]) by {
                assert(group.valid(values@[j]));
            }
        }
        Self::new(v, group)
    }
}

} // verus!

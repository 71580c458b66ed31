//! Sliding window aggregation: a queue over a monoid with `O(1)` amortised push, pop and
//! product of the whole queue. No inverses are needed, so `Min` or matrix products work.
use vstd::prelude::*;
use crate::algebra::{Monoid, fold, all_valid, lemma_fold_valid, lemma_fold_concat, lemma_fold_single};

verus! {

/// A queue of monoid elements, kept as two stacks.
///
/// `front` holds the head side of the queue, its last entry being the head, each paired with
/// the product from that element to the bottom of `front`; `back` holds the tail side in
/// queue order, with its product in `back_prod`.
pub struct Swag<M: Monoid> {
    front: Vec<(M::T, M::T)>,
    back: Vec<M::T>,
    back_prod: M::T,
    monoid: M,
}

/// The values of `front` read from the top of the stack down, that is, in queue order.
pub open spec fn front_values<T>(front: Seq<(T, T)>) -> Seq<T> {
    Seq::new(front.len(), |j: int| front[front.len() - 1 - j].0)
}

/// The entries `i, i-1, ..., 0` of `front`, in queue order.
pub open spec fn front_part<T>(front: Seq<(T, T)>, i: int) -> Seq<T> {
    Seq::new((i + 1) as nat, |j: int| front[i - j].0)
}

/// The window product follows the queue: pushing `x` multiplies it by `x` on the right, and
/// popping the head takes the head off on the left.
pub proof fn lemma_window_product<M: Monoid>(m: M, q: Seq<M::T>, x: M::T)
    requires
        m.wf(),
        all_valid(m, q),
        m.valid(x),
    ensures
        fold(m, q.push(x)) == m.op_spec(fold(m, q), x),
        q.len() > 0 ==> fold(m, q) == m.op_spec(q[0], fold(m, q.drop_first())),
{
    assert(q.push(x).drop_last() =~= q);
    if q.len() > 0 {
        assert(q =~= seq![q[0]] + q.drop_first());
        assert(all_valid(m, q.drop_first()));
        lemma_fold_concat(m, seq![q[0]], q.drop_first());
        lemma_fold_single(m, q[0]);
    }
}

impl<M: Monoid> View for Swag<M> {
    type V = Seq<M::T>;

    /// The queue, head first.
    closed spec fn view(&self) -> Seq<M::T> {
        front_values(self.front@) + self.back@
    }
}

impl<M: Monoid> Swag<M> {
    pub closed spec fn monoid_spec(&self) -> M {
        self.monoid
    }

    pub closed spec fn wf(&self) -> bool {
        let m = self.monoid;
        &&& m.wf()
        &&& all_valid(m, self.back@)
        &&& self.back_prod == fold(m, self.back@)
        &&& forall|i: int| 0 <= i < self.front@.len() ==> #[trigger] m.valid(self.front@[i].0)
        &&& forall|i: int|
            0 <= i < self.front@.len() ==> #[trigger] self.front@[i].1 == fold(m, front_part(self.front@, i))
    }

    pub fn new(monoid: M) -> (r: Self)
        requires
            monoid.wf(),
        ensures
            r.wf(),
            r@ == Seq::<M::T>::empty(),
            r.monoid_spec() == monoid,
    {
        let back_prod = monoid.identity();
        let r = Swag { front: Vec::new(), back: Vec::new(), back_prod, monoid };
        assert(r@ =~= Seq::<M::T>::empty());
        r
    }

    pub fn len(&self) -> (r: usize)
        requires
            self.wf(),
            self@.len() <= usize::MAX,
        ensures
            r == self@.len(),
    {
        self.front.len() + self.back.len()
    }

    pub fn is_empty(&self) -> (r: bool)
        requires
            self.wf(),
        ensures
            r == (self@.len() == 0),
    {
        self.front.len() == 0 && self.back.len() == 0
    }

    pub fn monoid(&self) -> (r: &M)
        ensures
            *r == self.monoid_spec(),
    {
        &self.monoid
    }

    /// Appends `value` at the tail, in `O(1)`.
    pub fn push(&mut self, value: M::T)
        requires
            old(self).wf(),
            old(self).monoid_spec().valid(value),
        ensures
            final(self).wf(),
            final(self)@ == old(self)@.push(value),
            final(self).monoid_spec() == old(self).monoid_spec(),
    {
        let ghost m = self.monoid;
        proof {
            lemma_fold_valid(m, self.back@);
            crate::algebra::lemma_fold_push(m, self.back@.push(value), 0, self.back@.len() as int);
            assert(self.back@.push(value).subrange(0, self.back@.len() as int) =~= self.back@);
            assert(self.back@.push(value).subrange(0, self.back@.len() as int + 1) =~= self.back@.push(value));
        }
        self.back_prod = self.monoid.binary_op(&self.back_prod, &value);
        self.back.push(value);
        assert(self@ =~= old(self)@.push(value));
    }

    /// Moves `back` onto `front` in reverse order and recomputes the stored products.
    /// Called only when `front` is empty; each element moves at most once.
    fn move_back_to_front(&mut self)
        requires
            old(self).wf(),
            old(self).front@.len() == 0,
        ensures
            final(self).wf(),
            final(self)@ == old(self)@,
            final(self).back@.len() == 0,
            final(self).monoid == old(self).monoid,
    {
        let ghost m = self.monoid;
        let ghost q = self@;
        while self.back.len() > 0
            invariant
                self.monoid == m,
                m.wf(),
                all_valid(m, self.back@),
                forall|i: int| 0 <= i < self.front@.len() ==> #[trigger] m.valid(self.front@[i].0),
                forall|i: int|
                    0 <= i < self.front@.len() ==> #[trigger] self.front@[i].1 == fold(
                        m,
                        front_part(self.front@, i),
                    ),
                self.back@ + front_values(self.front@) == q,
            decreases self.back@.len(),
        {
            let value = self.back.pop().unwrap();
            let ghost fr = self.front@;
            let k = self.front.len();
            let cum = if k == 0 {
                let c = value.clone();
                proof {
                    m.lemma_laws(value, c, c);
                    lemma_fold_single(m, value);
                    assert(front_part(fr.push((value, c)), 0) =~= seq![value]);
                }
                c
            } else {
                let prev = &self.front[k - 1].1;
                proof {
                    lemma_fold_single(m, value);
                    assert(all_valid(m, front_part(fr, k - 1))) by {
                        assert forall|j: int| 0 <= j < k implies #[trigger] m.valid(
                            front_part(fr, k - 1)[j],
                        ) by {
                            assert(m.valid(fr[k - 1 - j].0));
                        }
                    }
                    lemma_fold_valid(m, front_part(fr, k - 1));
                    lemma_fold_concat(m, seq![value], front_part(fr, k - 1));
                    assert(seq![value] + front_part(fr, k - 1) =~= front_part(
                        fr.push((value, value)),
                        k as int,
                    ));
                }
                self.monoid.binary_op(&value, prev)
            };
            self.front.push((value, cum));
            proof {
                assert forall|i: int| 0 <= i < self.front@.len() implies #[trigger] self.front@[i].1 == fold(
                    m,
                    front_part(self.front@, i),
                ) by {
                    if i < k {
                        assert(front_part(self.front@, i) =~= front_part(fr, i));
                    } else {
                        assert(front_part(self.front@, i) =~= front_part(fr.push((value, value)), i));
                    }
                }
                assert(self.back@ + front_values(self.front@) =~= q);
            }
        }
        self.back_prod = self.monoid.identity();
        proof {
            assert(self.back@ =~= Seq::<M::T>::empty());
            assert(front_values(self.front@) =~= q);
            assert(self@ =~= q);
        }
    }

    /// Removes and returns the head, or `None` when the queue is empty; amortised `O(1)`.
    pub fn pop(&mut self) -> (r: Option<M::T>)
        requires
            old(self).wf(),
        ensures
            final(self).wf(),
            final(self).monoid_spec() == old(self).monoid_spec(),
            old(self)@.len() == 0 ==> r is None && final(self)@ == old(self)@,
            old(self)@.len() > 0 ==> r == Some(old(self)@[0]) && final(self)@ == old(self)@.drop_first(),
    {
        if self.front.len() == 0 {
            self.move_back_to_front();
        }
        let ghost q = self@;
        let ghost fr = self.front@;
        match self.front.pop() {
            Some((value, _)) => {
                proof {
                    let m = self.monoid;
                    assert forall|i: int| 0 <= i < self.front@.len() implies #[trigger] self.front@[i].1
                        == fold(m, front_part(self.front@, i)) by {
                        assert(front_part(self.front@, i) =~= front_part(fr, i));
                        assert(fr[i] == self.front@[i]);
                    }
                    assert forall|i: int| 0 <= i < self.front@.len() implies #[trigger] m.valid(
                        self.front@[i].0,
                    ) by {
                        assert(fr[i] == self.front@[i]);
                    }
                    assert(self@ =~= q.drop_first());
                }
                Some(value)
            },
            None => {
                assert(self@ =~= q);
                None
            },
        }
    }

    /// The head of the queue.
    pub fn front(&self) -> (r: Option<&M::T>)
        requires
            self.wf(),
        ensures
            self@.len() == 0 ==> r is None,
            self@.len() > 0 ==> r == Some(&self@[0]),
    {
        let k = self.front.len();
        if k > 0 {
            Some(&self.front[k - 1].0)
        } else if self.back.len() > 0 {
            Some(&self.back[0])
        } else {
            None
        }
    }

    /// The product of the whole queue; the identity when empty. `O(1)`.
    pub fn prod(&self) -> (r: M::T)
        requires
            self.wf(),
        ensures
            r == fold(self.monoid_spec(), self@),
    {
        let ghost m = self.monoid;
        let k = self.front.len();
        proof {
            lemma_fold_valid(m, self.back@);
            assert(all_valid(m, front_values(self.front@))) by {
                assert forall|j: int| 0 <= j < front_values(self.front@).len() implies #[trigger] m.valid(
                    front_values(self.front@)[j],
                ) by {
                    assert(m.valid(self.front@[self.front@.len() - 1 - j].0));
                }
            }
            lemma_fold_concat(m, front_values(self.front@), self.back@);
        }
        if k > 0 {
            proof {
                assert(front_part(self.front@, k - 1) =~= front_values(self.front@));
                lemma_fold_valid(m, front_values(self.front@));
            }
            self.monoid.binary_op(&self.front[k - 1].1, &self.back_prod)
        } else {
            let r = self.back_prod.clone();
            proof {
                m.lemma_laws(self.back_prod, r, r);
                assert(front_values(self.front@) =~= Seq::<M::T>::empty());
                m.lemma_laws(fold(m, self.back@), r, r);
            }
            r
        }
    }

    /// Empties the queue.
    pub fn clear(&mut self)
        requires
            old(self).wf(),
        ensures
            final(self).wf(),
            final(self)@ == Seq::<M::T>::empty(),
            final(self).monoid_spec() == old(self).monoid_spec(),
    {
        self.front.clear();
        self.back.clear();
        self.back_prod = self.monoid.identity();
        assert(self@ =~= Seq::<M::T>::empty());
    }
}

/// The products of all windows of width `k`: `r[i]` is the product of `values[i..i + k]`.
/// The result has length `n - k + 1`, and is empty when `k == 0` or `k > n`.
pub fn window_prods<M: Monoid>(values: &[M::T], k: usize, monoid: M) -> (r: Vec<M::T>)
    requires
        monoid.wf(),
        all_valid(monoid, values@),
    ensures
        (k == 0 || k > values@.len()) ==> r@.len() == 0,
        (k >= 1 && k <= values@.len()) ==> r@.len() == values@.len() - k + 1,
        forall|i: int| 0 <= i < r@.len() ==> #[trigger] r@[i] == fold(monoid, values@.subrange(i, i + k)),
{
    if k == 0 || k > values.len() {
        return Vec::new();
    }
    let n = values.len();
    let mut swag = Swag::new(monoid);
    let mut ret: Vec<M::T> = Vec::with_capacity(n - k + 1);
    for j in 0..n
        invariant
            n == values@.len(),
            1 <= k <= n,
            swag.wf(),
            swag.monoid_spec() == monoid,
            monoid.wf(),
            all_valid(monoid, values@),
            j < k ==> swag@ == values@.subrange(0, j as int),
            j >= k ==> swag@ == values@.subrange(j - k + 1, j as int),
            ret@.len() == if j < k {
                0
            } else {
                j - k + 1
            },
            forall|i: int| 0 <= i < ret@.len() ==> #[trigger] ret@[i] == fold(monoid, values@.subrange(i, i + k)),
    {
        let v = values[j].clone();
        proof {
            monoid.lemma_laws(values@[j as int], v, v);
        }
        swag.push(v);
        proof {
            if j < k {
                assert(swag@ =~= values@.subrange(0, j + 1));
            } else {
                assert(swag@ =~= values@.subrange(j - k + 1, j + 1));
            }
        }
        if swag.len() == k {
            proof {
                assert(swag@ =~= values@.subrange(j + 1 - k, j + 1 - k + k));
            }
            let p = swag.prod();
            ret.push(p);
            swag.pop();
            proof {
                assert(swag@ =~= values@.subrange(j - k + 2, j + 1));
            }
        }
        proof {
            if j + 1 < k {
                assert(swag@ =~= values@.subrange(0, j + 1));
            } else if j + 1 >= k {
                assert(swag@ =~= values@.subrange(j + 1 - k + 1, j + 1));
            }
        }
    }
    ret
}

} // verus!

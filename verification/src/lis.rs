//! Longest strictly increasing subsequence by patience sorting.
use vstd::prelude::*;
use crate::order::{lawful_order, less, less_is_computed, lemma_less_laws};

verus! {

/// `idx` lists positions of `a` in increasing order whose values strictly increase.
pub open spec fn is_increasing_subsequence<T: PartialOrd>(a: Seq<T>, idx: Seq<usize>) -> bool {
    &&& forall|t: int| 0 <= t < idx.len() ==> #[trigger] idx[t] < a.len()
    &&& forall|s: int, t: int|
        0 <= s < t < idx.len() ==> #[trigger] idx[s] < #[trigger] idx[t] && less(
            a[idx[s] as int],
            a[idx[t] as int],
        )
}

/// `m` is the length of a longest strictly increasing subsequence of `a`.
pub open spec fn is_lis_length<T: PartialOrd>(a: Seq<T>, m: int) -> bool {
    &&& exists|idx: Seq<usize>| is_increasing_subsequence(a, idx) && idx.len() == m
    &&& forall|idx: Seq<usize>| #[trigger] is_increasing_subsequence(a, idx) ==> idx.len() <= m
}

/// The length of a longest increasing subsequence is unique.
pub proof fn lemma_lis_length_unique<T: PartialOrd>(a: Seq<T>, m1: int, m2: int)
    requires
        is_lis_length(a, m1),
        is_lis_length(a, m2),
    ensures
        m1 == m2,
{
    let w1 = choose|idx: Seq<usize>| is_increasing_subsequence(a, idx) && idx.len() == m1;
    let w2 = choose|idx: Seq<usize>| is_increasing_subsequence(a, idx) && idx.len() == m2;
    assert(is_increasing_subsequence(a, w1));
    assert(is_increasing_subsequence(a, w2));
}

/// State of the patience sorting after the first `pos.len()` elements: `tails[k]` is the
/// position of the smallest value that ends an increasing subsequence of length `k + 1`, and
/// `pos[j] + 1` is the length of a longest increasing subsequence ending at `j`.
pub open spec fn patience_state<T: PartialOrd>(a: Seq<T>, tails: Seq<usize>, pos: Seq<usize>) -> bool {
    &&& pos.len() <= a.len()
    &&& forall|k: int|
        0 <= k < tails.len() ==> #[trigger] tails[k] < pos.len() && pos[tails[k] as int] == k
    &&& forall|k1: int, k2: int|
        0 <= k1 < k2 < tails.len() ==> less(a[#[trigger] tails[k1] as int], a[#[trigger] tails[k2] as int])
    &&& forall|j: int|
        0 <= j < pos.len() ==> #[trigger] pos[j] < tails.len() && !less(
            a[j],
            a[tails[pos[j] as int] as int],
        )
    &&& forall|j: int|
        0 <= j < pos.len() && #[trigger] pos[j] > 0 ==> exists|jp: int|
            0 <= jp < j && #[trigger] pos[jp] == pos[j] - 1 && less(a[jp], a[j])
    &&& forall|jp: int, j: int|
        0 <= jp < j < pos.len() && less(a[jp], a[j]) ==> #[trigger] pos[jp] < #[trigger] pos[j]
}

/// In the patience state, every position `j` ends an increasing subsequence of length `pos[j] + 1`.
proof fn lemma_chain<T: PartialOrd>(a: Seq<T>, tails: Seq<usize>, pos: Seq<usize>, j: usize) -> (idx:
    Seq<usize>)
    requires
        patience_state(a, tails, pos),
        0 <= j < pos.len(),
        forall|x: T, y: T, z: T| #[trigger] less(x, y) && #[trigger] less(y, z) ==> less(x, z),
    ensures
        is_increasing_subsequence(a, idx),
        idx.len() == pos[j as int] + 1,
        idx[idx.len() - 1] == j,
    decreases pos[j as int],
{
    if pos[j as int] == 0 {
        seq![j]
    } else {
        let jp = choose|jp: int|
            0 <= jp < j && #[trigger] pos[jp] == pos[j as int] - 1 && less(a[jp], a[j as int]);
        let prev = lemma_chain(a, tails, pos, jp as usize);
        let idx = prev.push(j);
        assert forall|s: int, t: int| 0 <= s < t < idx.len() implies #[trigger] idx[s] < #[trigger] idx[t]
            && less(a[idx[s] as int], a[idx[t] as int]) by {
            if t == idx.len() - 1 {
                if s < prev.len() - 1 {
                    assert(prev[s] < prev[prev.len() - 1]);
                    assert(less(a[prev[s] as int], a[jp]));
                }
            } else {
                assert(prev[s] < prev[t]);
            }
        }
        assert forall|t: int| 0 <= t < idx.len() implies #[trigger] idx[t] < a.len() by {
            if t < prev.len() {
                assert(prev[t] < a.len());
            }
        }
        idx
    }
}

/// Along an increasing subsequence within the processed prefix, the tail slot of the `t`-th
/// element is at least `t`.
proof fn lemma_slot_lower_bound<T: PartialOrd>(
    a: Seq<T>,
    tails: Seq<usize>,
    pos: Seq<usize>,
    idx: Seq<usize>,
    t: int,
)
    requires
        patience_state(a, tails, pos),
        is_increasing_subsequence(a, idx),
        forall|u: int| 0 <= u < idx.len() ==> #[trigger] idx[u] < pos.len(),
        0 <= t < idx.len(),
    ensures
        pos[idx[t] as int] >= t,
    decreases t,
{
    if t > 0 {
        lemma_slot_lower_bound(a, tails, pos, idx, t - 1);
        assert(idx[t - 1] < idx[t]);
        assert(pos[idx[t - 1] as int] < pos[idx[t] as int]);
    }
}

/// In the patience state, an increasing subsequence within the processed prefix is no longer
/// than the number of tails.
proof fn lemma_bounded<T: PartialOrd>(a: Seq<T>, tails: Seq<usize>, pos: Seq<usize>, idx: Seq<usize>)
    requires
        patience_state(a, tails, pos),
        is_increasing_subsequence(a, idx),
        forall|t: int| 0 <= t < idx.len() ==> #[trigger] idx[t] < pos.len(),
    ensures
        idx.len() <= tails.len(),
{
    if idx.len() > 0 {
        let t = idx.len() - 1;
        lemma_slot_lower_bound(a, tails, pos, idx, t);
        assert(pos[idx[t] as int] < tails.len());
    }
}

/// First `k` with `!(a[tails[k]] < a[x])`; `tails` lists positions of strictly increasing values.
fn partition_point<T: Ord>(a: &[T], tails: &Vec<usize>, x: usize) -> (p: usize)
    requires
        lawful_order::<T>(),
        x < a@.len(),
        forall|k: int| 0 <= k < tails@.len() ==> #[trigger] tails@[k] < a@.len(),
        forall|k1: int, k2: int|
            0 <= k1 < k2 < tails@.len() ==> less(a@[#[trigger] tails@[k1] as int], a@[#[trigger] tails@[k2] as int]),
    ensures
        p <= tails@.len(),
        forall|k: int| 0 <= k < p ==> less(a@[#[trigger] tails@[k] as int], a@[x as int]),
        forall|k: int| p <= k < tails@.len() ==> !less(a@[#[trigger] tails@[k] as int], a@[x as int]),
{
    proof {
        lemma_less_laws::<T>();
    }
    let mut lo: usize = 0;
    let mut hi: usize = tails.len();
    while lo < hi
        invariant
            lo <= hi <= tails@.len(),
            x < a@.len(),
            forall|k: int| 0 <= k < tails@.len() ==> #[trigger] tails@[k] < a@.len(),
            forall|k1: int, k2: int|
                0 <= k1 < k2 < tails@.len() ==> less(a@[#[trigger] tails@[k1] as int], a@[#[trigger] tails@[k2] as int]),
            forall|k: int| 0 <= k < lo ==> less(a@[#[trigger] tails@[k] as int], a@[x as int]),
            forall|k: int| hi <= k < tails@.len() ==> !less(a@[#[trigger] tails@[k] as int], a@[x as int]),
            less_is_computed::<T>(),
            forall|x: T, y: T, z: T| #[trigger] less(x, y) && #[trigger] less(y, z) ==> less(x, z),
        decreases hi - lo,
    {
        let mid = lo + (hi - lo) / 2;
        if a[tails[mid]] < a[x] {
            assert(less(a@[tails@[mid as int] as int], a@[x as int]));
            assert forall|k: int| 0 <= k < mid + 1 implies less(a@[#[trigger] tails@[k] as int], a@[x as int]) by {
                if k < mid {
                    assert(less(a@[tails@[k] as int], a@[tails@[mid as int] as int]));
                }
            }
            lo = mid + 1;
        } else {
            assert forall|k: int| mid <= k < tails@.len() implies !less(a@[#[trigger] tails@[k] as int], a@[x as int]) by {
                if k > mid {
                    assert(less(a@[tails@[mid as int] as int], a@[tails@[k] as int]));
                }
            }
            hi = mid;
        }
    }
    lo
}

/// Runs patience sorting over all of `a`: the final tails and, for each position, its tail slot.
pub(crate) fn patience<T: Ord>(a: &[T]) -> (res: (Vec<usize>, Vec<usize>))
    requires
        lawful_order::<T>(),
    ensures
        patience_state(a@, res.0@, res.1@),
        res.1@.len() == a@.len(),
{
    proof {
        lemma_less_laws::<T>();
    }
    let mut tails: Vec<usize> = Vec::new();
    let mut pos: Vec<usize> = Vec::new();
    let mut i: usize = 0;
    while i < a.len()
        invariant
            lawful_order::<T>(),
            i <= a@.len(),
            pos@.len() == i,
            patience_state(a@, tails@, pos@),
            forall|x: T| !#[trigger] less(x, x),
            forall|x: T, y: T, z: T| #[trigger] less(x, y) && #[trigger] less(y, z) ==> less(x, z),
            forall|p: T, q: T, r: T|
                !#[trigger] less(p, q) && #[trigger] less(p, r) ==> #[trigger] less(q, r),
        decreases a@.len() - i,
    {
        let p = partition_point(a, &tails, i);
        let ghost old_tails = tails@;
        let ghost old_pos = pos@;
        let ghost x = a@[i as int];
        if p == tails.len() {
            tails.push(i);
        } else {
            tails.set(p, i);
        }
        pos.push(p);
        proof {
            let a = a@;
            assert forall|k: int| 0 <= k < tails@.len() implies #[trigger] tails@[k] < pos@.len()
                && pos@[tails@[k] as int] == k by {
                if k != p {
                    assert(old_tails[k] < old_pos.len());
                }
            }
            assert forall|k1: int, k2: int| 0 <= k1 < k2 < tails@.len() implies less(
                a[#[trigger] tails@[k1] as int],
                a[#[trigger] tails@[k2] as int],
            ) by {
                if k2 == p {
                    assert(less(a[old_tails[k1] as int], x));
                } else if k1 == p {
                    assert(!less(a[old_tails[p as int] as int], x));
                    assert(less(a[old_tails[p as int] as int], a[old_tails[k2] as int]));
                } else {
                    assert(less(a[old_tails[k1] as int], a[old_tails[k2] as int]));
                }
            }
            assert forall|j: int| 0 <= j < pos@.len() implies #[trigger] pos@[j] < tails@.len()
                && !less(a[j], a[tails@[pos@[j] as int] as int]) by {
                if j < i {
                    let k = old_pos[j] as int;
                    assert(!less(a[j], a[old_tails[k] as int]));
                    if k == p {
                        assert(!less(a[old_tails[k] as int], x));
                        if less(a[j], x) {
                            assert(less(a[old_tails[k] as int], x));
                        }
                    }
                }
            }
            assert forall|j: int| 0 <= j < pos@.len() && #[trigger] pos@[j] > 0 implies exists|jp: int|
                0 <= jp < j && #[trigger] pos@[jp] == pos@[j] - 1 && less(a[jp], a[j]) by {
                if j < i {
                    let jp = choose|jp: int|
                        0 <= jp < j && #[trigger] old_pos[jp] == old_pos[j] - 1 && less(a[jp], a[j]);
                    assert(pos@[jp] == pos@[j] - 1);
                } else {
                    let jp = old_tails[p - 1] as int;
                    assert(old_pos[jp] == p - 1);
                    assert(less(a[jp], x));
                    assert(pos@[jp] == pos@[j] - 1);
                }
            }
            assert forall|jp: int, j: int| 0 <= jp < j < pos@.len() && less(a[jp], a[j]) implies
                #[trigger] pos@[jp] < #[trigger] pos@[j] by {
                if j == i {
                    let k = old_pos[jp] as int;
                    assert(!less(a[jp], a[old_tails[k] as int]));
                    assert(less(a[old_tails[k] as int], x));
                } else {
                    assert(old_pos[jp] < old_pos[j]);
                }
            }
        }
        i = i + 1;
    }
    (tails, pos)
}

/// The number of tails after the whole sequence is the longest increasing length.
pub(crate) proof fn lemma_lis_facts<T: Ord>(a: Seq<T>, tails: Seq<usize>, pos: Seq<usize>)
    requires
        lawful_order::<T>(),
        patience_state(a, tails, pos),
        pos.len() == a.len(),
    ensures
        is_lis_length(a, tails.len() as int),
{
    lemma_less_laws::<T>();
    assert forall|idx: Seq<usize>| #[trigger] is_increasing_subsequence(a, idx) implies idx.len()
        <= tails.len() by {
        assert forall|t: int| 0 <= t < idx.len() implies #[trigger] idx[t] < pos.len() by {
            assert(idx[t] < a.len());
        }
        lemma_bounded(a, tails, pos, idx);
    }
    if tails.len() == 0 {
        assert(is_increasing_subsequence(a, Seq::<usize>::empty()));
    } else {
        let last = tails[tails.len() - 1];
        let w = lemma_chain(a, tails, pos, last);
        assert(is_increasing_subsequence(a, w) && w.len() == tails.len());
    }
}

/// Longest strictly increasing subsequence of a sequence.
pub trait LIS<T: Ord>: View<V = Seq<T>> {
    /// The length of a longest strictly increasing subsequence.
    fn lis(&self) -> (r: usize)
        requires
            lawful_order::<T>(),
        ensures
            is_lis_length(self@, r as int),
    ;

    /// The positions of one longest strictly increasing subsequence, in increasing order.
    fn lis_restore(&self) -> (r: Vec<usize>)
        requires
            lawful_order::<T>(),
        ensures
            is_increasing_subsequence(self@, r@),
            is_lis_length(self@, r@.len() as int),
    ;
}

impl<T: Ord + Clone> LIS<T> for [T] {
    fn lis(&self) -> (r: usize) {
        let (tails, pos) = patience(self);
        proof {
            lemma_lis_facts(self@, tails@, pos@);
        }
        tails.len()
    }

    fn lis_restore(&self) -> (r: Vec<usize>) {
        let (tails, idx) = patience(self);
        proof {
            lemma_less_laws::<T>();
        }
        let ghost a = self@;
        let len = tails.len();
        let mut rest = len;
        let mut ret: Vec<usize> = vec![0; rest];
        let mut i: usize = self.len();
        proof {
            if len > 0 {
                let w = tails@[len - 1];
                assert(idx@[w as int] == len - 1);
            }
        }
        while i > 0
            invariant
                patience_state(a, tails@, idx@),
                idx@.len() == a.len(),
                a == self@,
                len == tails@.len(),
                ret@.len() == len,
                i <= a.len(),
                rest <= len,
                forall|t: int| rest <= t < len ==> #[trigger] ret@[t] >= i && ret@[t] < a.len()
                    && idx@[ret@[t] as int] == t,
                forall|s: int, t: int|
                    rest <= s < t < len ==> #[trigger] ret@[s] < #[trigger] ret@[t] && less(
                        a[ret@[s] as int],
                        a[ret@[t] as int],
                    ),
                rest > 0 ==> exists|j: int|
                    0 <= j < i && #[trigger] idx@[j] == rest - 1 && (rest == len || less(
                        a[j],
                        a[ret@[rest as int] as int],
                    )),
                forall|x: T, y: T, z: T| #[trigger] less(x, y) && #[trigger] less(y, z) ==> less(x, z),
                forall|p: T, q: T, r: T|
                    !#[trigger] less(p, q) && #[trigger] less(p, r) ==> #[trigger] less(q, r),
            decreases i,
        {
            i -= 1;
            if rest > 0 && idx[i] == rest - 1 {
                let ghost old_ret = ret@;
                let ghost j = choose|j: int|
                    0 <= j < i + 1 && #[trigger] idx@[j] == rest - 1 && (rest == len || less(
                        a[j],
                        a[ret@[rest as int] as int],
                    ));
                proof {
                    if rest < len && j != i {
                        assert(!less(a[j], a[i as int]));
                    }
                }
                rest -= 1;
                ret.set(rest, i);
                proof {
                    assert forall|s: int, t: int| rest <= s < t < len implies #[trigger] ret@[s]
                        < #[trigger] ret@[t] && less(a[ret@[s] as int], a[ret@[t] as int]) by {
                        if s == rest && t > rest + 1 {
                            assert(less(a[old_ret[rest + 1] as int], a[old_ret[t] as int]));
                        }
                        if s == rest {
                            assert(old_ret[t] >= i + 1);
                        }
                    }
                    if rest > 0 {
                        let jp = choose|jp: int|
                            0 <= jp < i && #[trigger] idx@[jp] == idx@[i as int] - 1 && less(
                                a[jp],
                                a[i as int],
                            );
                        assert(idx@[jp] == rest - 1);
                    }
                }
            } else {
                proof {
                    if rest > 0 {
                        let j = choose|j: int|
                            0 <= j < i + 1 && #[trigger] idx@[j] == rest - 1 && (rest == len || less(
                                a[j],
                                a[ret@[rest as int] as int],
                            ));
                        assert(j != i);
                    }
                }
            }
        }
        proof {
            assert forall|t: int| 0 <= t < ret@.len() implies #[trigger] ret@[t] < a.len() by {}
            assert forall|idx2: Seq<usize>| #[trigger] is_increasing_subsequence(a, idx2) implies idx2.len()
                <= tails@.len() by {
                assert forall|t: int| 0 <= t < idx2.len() implies #[trigger] idx2[t] < idx@.len() by {
                    assert(idx2[t] < a.len());
                }
                lemma_bounded(a, tails@, idx@, idx2);
            }
            assert(is_increasing_subsequence(a, ret@));
        }
        ret
    }
}

} // verus!

//! Element-wise combination, minimum and maximum of fixed-size arrays.
use vstd::prelude::*;
use crate::order::{lawful_order, less, less_is_computed, lemma_less_laws};

verus! {

/// `[f(0), f(1), ..., f(N - 1)]`, calling `f` on the indices in increasing order.
#[verifier::external_body]
pub(crate) fn array_from_fn<S, const N: usize, F: FnMut(usize) -> S>(f: F) -> (r: [S; N])
    requires
        forall|i: usize| i < N ==> call_requires(f, (i,)),
    ensures
        forall|i: int| 0 <= i < N ==> call_ensures(f, (i as usize,), #[trigger] r@[i]),
{
    std::array::from_fn(f)
}

/// Fixed-size arrays.
pub trait ArrayExt<T, const N: usize>: View<V = Seq<T>> {
    /// `[f(a[0], b[0]), ..., f(a[N - 1], b[N - 1])]`.
    fn zip_with<U: Copy, S, F: Fn(T, U) -> S>(self, other: [U; N], f: F) -> (r: [S; N])
        requires
            forall|i: int| 0 <= i < N ==> call_requires(f, (self@[i], other@[i])),
        ensures
            forall|i: int| 0 <= i < N ==> call_ensures(f, (self@[i], other@[i]), #[trigger] r@[i]),
    ;

    /// The first least element; the array must not be empty.
    fn arr_min(self) -> (r: T) where T: Ord
        requires
            N > 0,
            lawful_order::<T>(),
        ensures
            exists|k: int|
                0 <= k < N && self@[k] == r && (forall|i: int| 0 <= i < k ==> less(r, #[trigger] self@[i])) && (
                forall|i: int| 0 <= i < N ==> !less(#[trigger] self@[i], r)),
    ;

    /// The last greatest element; the array must not be empty.
    fn arr_max(self) -> (r: T) where T: Ord
        requires
            N > 0,
            lawful_order::<T>(),
        ensures
            exists|k: int|
                0 <= k < N && self@[k] == r && (forall|i: int| k < i < N ==> less(#[trigger] self@[i], r)) && (
                forall|i: int| 0 <= i < N ==> !less(r, #[trigger] self@[i])),
    ;
}

impl<T: Copy, const N: usize> ArrayExt<T, N> for [T; N] {
    fn zip_with<U: Copy, S, F: Fn(T, U) -> S>(self, other: [U; N], f: F) -> (r: [S; N]) {
        let fr = &f;
        let g = |i: usize| -> (s: S)
            requires
                i < N,
                call_requires(fr, (self@[i as int], other@[i as int])),
            ensures
                call_ensures(fr, (self@[i as int], other@[i as int]), s),
            { fr(self[i], other[i]) };
        array_from_fn(g)
    }

    fn arr_min(self) -> (r: T) where T: Ord {
        proof {
            lemma_less_laws::<T>();
        }
        let mut best = self[0];
        let ghost mut k: int = 0;
        let mut i: usize = 1;
        while i < N
            invariant
                1 <= i <= N,
                0 <= k < i,
                self@[k] == best,
                less_is_computed::<T>(),
                forall|x: T| !#[trigger] less(x, x),
                forall|x: T, y: T, z: T| #[trigger] less(x, y) && #[trigger] less(y, z) ==> less(x, z),
                forall|p: T, q: T, r: T|
                    !#[trigger] less(p, q) && #[trigger] less(p, r) ==> #[trigger] less(q, r),
                forall|t: int| 0 <= t < k ==> less(best, #[trigger] self@[t]),
                forall|t: int| 0 <= t < i ==> !less(#[trigger] self@[t], best),
            decreases N - i,
        {
            if self[i] < best {
                proof {
                    assert forall|t: int| 0 <= t < i implies less(self@[i as int], #[trigger] self@[t]) by {
                        if !less(self@[i as int], self@[t]) {
                            assert(less(self@[i as int], best));
                            assert(less(self@[t], best));
                        }
                    }
                    assert forall|t: int| 0 <= t < i implies !less(#[trigger] self@[t], self@[i as int]) by {
                        if less(self@[t], self@[i as int]) {
                            assert(less(self@[t], best));
                        }
                    }
                    k = i as int;
                }
                best = self[i];
            }
            i += 1;
        }
        best
    }

    fn arr_max(self) -> (r: T) where T: Ord {
        proof {
            lemma_less_laws::<T>();
        }
        let mut best = self[0];
        let ghost mut k: int = 0;
        let mut i: usize = 1;
        while i < N
            invariant
                1 <= i <= N,
                0 <= k < i,
                self@[k] == best,
                less_is_computed::<T>(),
                forall|x: T| !#[trigger] less(x, x),
                forall|x: T, y: T, z: T| #[trigger] less(x, y) && #[trigger] less(y, z) ==> less(x, z),
                forall|p: T, q: T, r: T|
                    !#[trigger] less(p, q) && #[trigger] less(p, r) ==> #[trigger] less(q, r),
                forall|t: int| k < t < i ==> less(#[trigger] self@[t], best),
                forall|t: int| 0 <= t < i ==> !less(best, #[trigger] self@[t]),
            decreases N - i,
        {
            if !(self[i] < best) {
                proof {
                    assert(!less(self@[i as int], best));
                    assert forall|t: int| 0 <= t < i implies !less(self@[i as int], #[trigger] self@[t]) by {
                        if less(self@[i as int], self@[t]) {
                            assert(less(best, self@[t]));
                        }
                    }
                    k = i as int;
                }
                best = self[i];
            } else {
                proof {
                    assert(less(self@[i as int], best));
                    if less(best, self@[i as int]) {
                        assert(less(best, best));
                    }
                }
            }
            i += 1;
        }
        best
    }
}

} // verus!

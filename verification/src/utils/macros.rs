//! Update-if-better helpers and nested vectors.
use vstd::prelude::*;
use crate::order::{lawful_order, less, less_is_computed, lemma_less_laws};

verus! {

/// Replaces `a` by `b` when `b < a`; tells whether it did.
pub fn chmin<T: Ord>(a: &mut T, b: T) -> (changed: bool)
    requires
        lawful_order::<T>(),
    ensures
        changed == less(b, *old(a)),
        *final(a) == if changed { b } else { *old(a) },
{
    proof {
        lemma_less_laws::<T>();
    }
    if b < *a {
        *a = b;
        true
    } else {
        false
    }
}

/// Replaces `a` by `b` when `a < b`; tells whether it did.
pub fn chmax<T: Ord>(a: &mut T, b: T) -> (changed: bool)
    requires
        lawful_order::<T>(),
    ensures
        changed == less(*old(a), b),
        *final(a) == if changed { b } else { *old(a) },
{
    proof {
        lemma_less_laws::<T>();
    }
    if *a < b {
        *a = b;
        true
    } else {
        false
    }
}

/// A `d0 x d1` table filled with clones of `e`.
pub fn mat2<T: Clone>(e: T, d0: usize, d1: usize) -> (r: Vec<Vec<T>>)
    ensures
        r@.len() == d0,
        forall|i: int| 0 <= i < d0 ==> #[trigger] r@[i]@.len() == d1,
{
    let row: Vec<T> = vec![e; d1];
    vec![row; d0]
}

/// A `d0 x d1 x d2` table filled with clones of `e`.
pub fn mat3<T: Clone>(e: T, d0: usize, d1: usize, d2: usize) -> (r: Vec<Vec<Vec<T>>>)
    ensures
        r@.len() == d0,
        forall|i: int| 0 <= i < d0 ==> #[trigger] r@[i]@.len() == d1,
        forall|i: int, j: int| 0 <= i < d0 && 0 <= j < d1 ==> #[trigger] r@[i]@[j]@.len() == d2,
{
    let inner = mat2(e, d1, d2);
    vec![inner; d0]
}

} // verus!

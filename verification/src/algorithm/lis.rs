//! Longest increasing subsequence: this module's own `LIS` trait, with the same contract and
//! the same algorithm as `crate::lis`.
use vstd::prelude::*;
use crate::order::{lawful_order, less};
use crate::lis::{is_increasing_subsequence, is_lis_length, patience, lemma_lis_facts};

verus! {

/// Longest strictly increasing subsequence of a sequence.
pub trait LIS<T: Ord>: View<V = Seq<T>> {
    /// The length of a longest strictly increasing subsequence.
    fn lis(&self) -> (r: usize)
        requires
            lawful_order::<T>(),
        ensures
            is_lis_length(self@, r as int),
    ;

    /// The positions of one longest strictly increasing subsequence, in increasing order.
    fn lis_restore(&self) -> (r: Vec<usize>)
        requires
            lawful_order::<T>(),
        ensures
            is_increasing_subsequence(self@, r@),
            is_lis_length(self@, r@.len() as int),
    ;
}

impl<T: Ord + Clone> LIS<T> for [T] {
    fn lis(&self) -> (r: usize) {
        let (tails, pos) = patience(self);
        proof {
            lemma_lis_facts(self@, tails@, pos@);
        }
        tails.len()
    }

    fn lis_restore(&self) -> (r: Vec<usize>) {
        <[T] as crate::lis::LIS<T>>::lis_restore(self)
    }
}

} // verus!

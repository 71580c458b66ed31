//! Verified algorithms and data structures for competitive programming.
use vstd::prelude::*;

pub mod algebra;
pub mod segtree;
pub mod dsu;
pub mod numtheory;
pub mod fermat;
pub mod residue;
pub mod dft;
pub mod poly;
pub mod modint;
pub mod prefix_sum;
pub mod swag;
pub mod manacher;
pub mod order;
pub mod lis;
pub mod algorithm;
pub mod convolution;
pub mod fps;
pub mod prim;
pub mod grid;
pub mod utils;
pub mod binary_search;
pub mod array;
pub mod io;
pub mod vector;
pub mod rerooting_dp;

verus! {
} // verus!

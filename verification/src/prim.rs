//! Primitive integers read as elements of `Z`, and tuples and arrays of them as points of `Z^N`.
use vstd::prelude::*;

verus! {

/// A primitive integer, converted to `isize` by `as`.
pub trait Int: Copy {
    /// The mathematical value.
    spec fn value(&self) -> int;

    /// `self as isize`: the value when it fits, truncated otherwise.
    fn to_isize(self) -> (r: isize)
        ensures
            r == self.value() as isize,
    ;
}

impl Int for usize {
    open spec fn value(&self) -> int {
        *self as int
    }

    fn to_isize(self) -> (r: isize) {
        self as isize
    }
}

impl Int for isize {
    open spec fn value(&self) -> int {
        *self as int
    }

    fn to_isize(self) -> (r: isize) {
        self as isize
    }
}

impl Int for u8 {
    open spec fn value(&self) -> int {
        *self as int
    }

    fn to_isize(self) -> (r: isize) {
        self as isize
    }
}

impl Int for u16 {
    open spec fn value(&self) -> int {
        *self as int
    }

    fn to_isize(self) -> (r: isize) {
        self as isize
    }
}

impl Int for u32 {
    open spec fn value(&self) -> int {
        *self as int
    }

    fn to_isize(self) -> (r: isize) {
        self as isize
    }
}

impl Int for u64 {
    open spec fn value(&self) -> int {
        *self as int
    }

    fn to_isize(self) -> (r: isize) {
        self as isize
    }
}

impl Int for u128 {
    open spec fn value(&self) -> int {
        *self as int
    }

    fn to_isize(self) -> (r: isize) {
        self as isize
    }
}

impl Int for i8 {
    open spec fn value(&self) -> int {
        *self as int
    }

    fn to_isize(self) -> (r: isize) {
        self as isize
    }
}

impl Int for i16 {
    open spec fn value(&self) -> int {
        *self as int
    }

    fn to_isize(self) -> (r: isize) {
        self as isize
    }
}

impl Int for i32 {
    open spec fn value(&self) -> int {
        *self as int
    }

    fn to_isize(self) -> (r: isize) {
        self as isize
    }
}

impl Int for i64 {
    open spec fn value(&self) -> int {
        *self as int
    }

    fn to_isize(self) -> (r: isize) {
        self as isize
    }
}

impl Int for i128 {
    open spec fn value(&self) -> int {
        *self as int
    }

    fn to_isize(self) -> (r: isize) {
        self as isize
    }
}

/// `N` integers read as a point of `Z^N`.
pub trait IntN<const N: usize>: Sized {
    /// The coordinates as `isize` values.
    spec fn coords(&self) -> Seq<isize>;

    /// The coordinates as `isize` values.
    fn to_ints(self) -> (r: [isize; N])
        ensures
            r@ == self.coords(),
    ;

    /// The coordinates as `usize` values, for indexing; negative values wrap around, so the
    /// caller checks the range.
    fn to_index(self) -> (r: [usize; N])
        ensures
            r@.len() == N,
            forall|i: int| 0 <= i < N ==> #[trigger] r@[i] == self.coords()[i] as usize,
    ;
}

impl<I: Int, const N: usize> IntN<N> for [I; N] {
    open spec fn coords(&self) -> Seq<isize> {
        Seq::new(N as nat, |i: int| self@[i].value() as isize)
    }

    fn to_ints(self) -> (r: [isize; N]) {
        let mut out = [0isize; N];
        let mut i: usize = 0;
        while i < N
            invariant
                i <= N,
                out@.len() == N,
                forall|t: int| 0 <= t < i ==> #[trigger] out@[t] == self@[t].value() as isize,
            decreases N - i,
        {
            out.set(i, self[i].to_isize());
            i += 1;
        }
        proof {
            assert(out@ =~= self.coords());
        }
        out
    }

    fn to_index(self) -> (r: [usize; N]) {
        let ints = self.to_ints();
        let mut out = [0usize; N];
        let mut i: usize = 0;
        while i < N
            invariant
                i <= N,
                out@.len() == N,
                ints@ == self.coords(),
                forall|t: int| 0 <= t < i ==> #[trigger] out@[t] == self.coords()[t] as usize,
            decreases N - i,
        {
            out.set(i, ints[i] as usize);
            i += 1;
        }
        out
    }
}

impl<I: Int> IntN<2> for (I, I) {
    open spec fn coords(&self) -> Seq<isize> {
        seq![self.0.value() as isize, self.1.value() as isize]
    }

    fn to_ints(self) -> (r: [isize; 2]) {
        let r = [self.0.to_isize(), self.1.to_isize()];
        proof {
            assert(r@ =~= self.coords());
        }
        r
    }

    fn to_index(self) -> (r: [usize; 2]) {
        let p = self.to_ints();
        [p[0] as usize, p[1] as usize]
    }
}

impl<I: Int> IntN<3> for (I, I, I) {
    open spec fn coords(&self) -> Seq<isize> {
        seq![self.0.value() as isize, self.1.value() as isize, self.2.value() as isize]
    }

    fn to_ints(self) -> (r: [isize; 3]) {
        let r = [self.0.to_isize(), self.1.to_isize(), self.2.to_isize()];
        proof {
            assert(r@ =~= self.coords());
        }
        r
    }

    fn to_index(self) -> (r: [usize; 3]) {
        let p = self.to_ints();
        [p[0] as usize, p[1] as usize, p[2] as usize]
    }
}

} // verus!

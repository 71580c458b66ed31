//! Fixed-length numeric vectors.
use vstd::prelude::*;
use vstd::std_specs::convert::FromSpecImpl;
use vstd::std_specs::ops::{MulSpec, SubSpec};
use core::ops::{Mul, Sub};
use crate::array::array_from_fn;
use crate::prim::IntN;

pub mod argcmp;
mod ops;

verus! {

/// A vector of `N` coordinates.
#[derive(Debug, Clone, Copy, PartialEq, Eq, PartialOrd, Ord, Hash)]
pub struct Vector<T, const N: usize>(pub [T; N]);

/// A scalar to broadcast over the coordinates of a vector.
#[derive(Debug, Clone, Copy, PartialEq, Eq, PartialOrd, Ord, Hash)]
pub struct Scalar<T>(pub T);

/// `[f(a[0]), ..., f(a[N - 1])]`, calling `f` on the elements in order.
#[verifier::external_body]
fn array_map<T, U, F: FnMut(T) -> U, const N: usize>(a: [T; N], f: F) -> (r: [U; N])
    requires
        forall|i: int| 0 <= i < N ==> call_requires(f, (#[trigger] a@[i],)),
    ensures
        forall|i: int| 0 <= i < N ==> call_ensures(f, (a@[i],), #[trigger] r@[i]),
{
    a.map(f)
}

/// The `N` elements of `v` as an array.
#[verifier::external_body]
fn vec_into_array<T, const N: usize>(v: Vec<T>) -> (r: [T; N])
    requires
        v@.len() == N,
    ensures
        r@ == v@,
{
    let r: Result<[T; N], Vec<T>> = v.try_into();
    r.ok().unwrap()
}

impl<T, const N: usize> core::ops::Deref for Vector<T, N> {
    type Target = [T; N];

    /// The coordinates.
    fn deref(&self) -> (r: &[T; N])
        ensures
            *r == self.0,
    {
        &self.0
    }
}

impl<T, const N: usize> Vector<T, N> {
    /// `[f(0), ..., f(N - 1)]`.
    pub fn from_fn<F: FnMut(usize) -> T>(f: F) -> (r: Self)
        requires
            forall|i: usize| i < N ==> call_requires(f, (i,)),
        ensures
            forall|i: int| 0 <= i < N ==> call_ensures(f, (i as usize,), #[trigger] r.0@[i]),
    {
        Self(array_from_fn(f))
    }

    /// Every coordinate `x`.
    pub fn splat(x: T) -> (r: Self) where T: Copy
        ensures
            forall|i: int| 0 <= i < N ==> #[trigger] r.0@[i] == x,
    {
        Self([x; N])
    }

    /// `f` applied to each coordinate.
    pub fn map<U, F: FnMut(T) -> U>(self, f: F) -> (r: Vector<U, N>)
        requires
            forall|i: int| 0 <= i < N ==> call_requires(f, (#[trigger] self.0@[i],)),
        ensures
            forall|i: int| 0 <= i < N ==> call_ensures(f, (self.0@[i],), #[trigger] r.0@[i]),
    {
        Vector(array_map(self.0, f))
    }
}

impl<T> Vector<T, 1> {
    pub fn new(x: T) -> (r: Self)
        ensures
            r.0@ == seq![x],
    {
        let r = Self([x]);
        proof {
            assert(r.0@ =~= seq![x]);
        }
        r
    }
}

impl<T> Vector<T, 2> {
    pub fn new(x: T, y: T) -> (r: Self)
        ensures
            r.0@ == seq![x, y],
    {
        let r = Self([x, y]);
        proof {
            assert(r.0@ =~= seq![x, y]);
        }
        r
    }
}

impl<T> Vector<T, 3> {
    pub fn new(x: T, y: T, z: T) -> (r: Self)
        ensures
            r.0@ == seq![x, y, z],
    {
        let r = Self([x, y, z]);
        proof {
            assert(r.0@ =~= seq![x, y, z]);
        }
        r
    }
}

impl<T> Vector<T, 4> {
    pub fn new(x: T, y: T, z: T, w: T) -> (r: Self)
        ensures
            r.0@ == seq![x, y, z, w],
    {
        let r = Self([x, y, z, w]);
        proof {
            assert(r.0@ =~= seq![x, y, z, w]);
        }
        r
    }
}

impl<T, const N: usize> From<[T; N]> for Vector<T, N> {
    fn from(array: [T; N]) -> (r: Self)
        ensures
            r.0 == array,
    {
        Self(array)
    }
}

impl<T, const N: usize> FromSpecImpl<[T; N]> for Vector<T, N> {
    open spec fn obeys_from_spec() -> bool {
        true
    }

    open spec fn from_spec(array: [T; N]) -> Self {
        Vector(array)
    }
}

impl<T, const N: usize> From<Vector<T, N>> for [T; N] {
    fn from(v: Vector<T, N>) -> (r: Self)
        ensures
            r == v.0,
    {
        v.0
    }
}

impl<T, const N: usize> FromSpecImpl<Vector<T, N>> for [T; N] {
    open spec fn obeys_from_spec() -> bool {
        true
    }

    open spec fn from_spec(v: Vector<T, N>) -> Self {
        v.0
    }
}

impl<T> From<(T, T)> for Vector<T, 2> {
    fn from(p: (T, T)) -> (r: Self)
        ensures
            r.0@ == seq![p.0, p.1],
    {
        let (x, y) = p;
        Self::new(x, y)
    }
}

impl<T> FromSpecImpl<(T, T)> for Vector<T, 2> {
    open spec fn obeys_from_spec() -> bool {
        false
    }

    open spec fn from_spec(p: (T, T)) -> Self {
        arbitrary()
    }
}

impl<T: Copy> From<Vector<T, 2>> for (T, T) {
    fn from(v: Vector<T, 2>) -> (r: Self)
        ensures
            r == (v.0@[0], v.0@[1]),
    {
        (v.0[0], v.0[1])
    }
}

impl<T: Copy> FromSpecImpl<Vector<T, 2>> for (T, T) {
    open spec fn obeys_from_spec() -> bool {
        true
    }

    open spec fn from_spec(v: Vector<T, 2>) -> Self {
        (v.0@[0], v.0@[1])
    }
}

impl<T> From<(T, T, T)> for Vector<T, 3> {
    fn from(p: (T, T, T)) -> (r: Self)
        ensures
            r.0@ == seq![p.0, p.1, p.2],
    {
        let (x, y, z) = p;
        Self::new(x, y, z)
    }
}

impl<T> FromSpecImpl<(T, T, T)> for Vector<T, 3> {
    open spec fn obeys_from_spec() -> bool {
        false
    }

    open spec fn from_spec(p: (T, T, T)) -> Self {
        arbitrary()
    }
}

impl<T: Copy> From<Vector<T, 3>> for (T, T, T) {
    fn from(v: Vector<T, 3>) -> (r: Self)
        ensures
            r == (v.0@[0], v.0@[1], v.0@[2]),
    {
        (v.0[0], v.0[1], v.0[2])
    }
}

impl<T: Copy> FromSpecImpl<Vector<T, 3>> for (T, T, T) {
    open spec fn obeys_from_spec() -> bool {
        true
    }

    open spec fn from_spec(v: Vector<T, 3>) -> Self {
        (v.0@[0], v.0@[1], v.0@[2])
    }
}

/// The zero vector: every coordinate the default value of `T`.
impl<T: Default + Copy, const N: usize> Default for Vector<T, N> {
    fn default() -> (r: Self)
        ensures
            forall|i: int| 0 <= i < N ==> #[trigger] r.0@[i] == r.0@[0],
    {
        let z = T::default();
        Self([z; N])
    }
}

impl<T: Mul<Output = T> + Sub<Output = T> + Copy> Vector<T, 2> {
    /// The cross product `ax * by - ay * bx`.
    pub fn cross(self, rhs: Self) -> (r: T)
        requires
            self.0@[0].mul_req(rhs.0@[1]),
            self.0@[1].mul_req(rhs.0@[0]),
            self.0@[0].mul_spec(rhs.0@[1]).sub_req(self.0@[1].mul_spec(rhs.0@[0])),
            T::obeys_mul_spec(),
        ensures
            T::obeys_sub_spec() ==> r == self.0@[0].mul_spec(rhs.0@[1]).sub_spec(self.0@[1].mul_spec(rhs.0@[0])),
    {
        let ax = self.0[0];
        let ay = self.0[1];
        let bx = rhs.0[0];
        let by = rhs.0[1];
        ax * by - ay * bx
    }
}

impl<T: Mul<Output = T> + Sub<Output = T> + Copy> Vector<T, 3> {
    /// The cross product: coordinate `i` is `a[i+1] b[i+2] - a[i+2] b[i+1]` (indices mod 3).
    pub fn cross(self, rhs: Self) -> (r: Self)
        requires
            T::obeys_mul_spec(),
            forall|i: int, j: int| 0 <= i < 3 && 0 <= j < 3 ==> (#[trigger] self.0@[i]).mul_req(#[trigger] rhs.0@[j]),
            forall|i: int| 0 <= i < 3 ==> self.0@[(i + 1) % 3].mul_spec(rhs.0@[(i + 2) % 3]).sub_req(
                #[trigger] self.0@[(i + 2) % 3].mul_spec(rhs.0@[(i + 1) % 3]),
            ),
        ensures
            T::obeys_sub_spec() ==> forall|i: int|
                0 <= i < 3 ==> #[trigger] r.0@[i] == self.0@[(i + 1) % 3].mul_spec(rhs.0@[(i + 2) % 3]).sub_spec(
                    self.0@[(i + 2) % 3].mul_spec(rhs.0@[(i + 1) % 3]),
                ),
    {
        let a = self.0;
        let b = rhs.0;
        let g = |i: usize| -> (c: T)
            requires
                i < 3,
                T::obeys_mul_spec(),
                forall|p: int, q: int| 0 <= p < 3 && 0 <= q < 3 ==> (#[trigger] a@[p]).mul_req(#[trigger] b@[q]),
                forall|k: int| 0 <= k < 3 ==> a@[(k + 1) % 3].mul_spec(b@[(k + 2) % 3]).sub_req(
                    #[trigger] a@[(k + 2) % 3].mul_spec(b@[(k + 1) % 3]),
                ),
            ensures
                T::obeys_sub_spec() ==> c == a@[(i + 1) % 3].mul_spec(b@[(i + 2) % 3]).sub_spec(
                    a@[(i + 2) % 3].mul_spec(b@[(i + 1) % 3]),
                ),
            {
                let x = (i + 1) % 3;
                let y = (i + 2) % 3;
                proof {
                    assert(a@[(i + 2) % 3].mul_spec(b@[(i + 1) % 3]) == a@[y as int].mul_spec(b@[x as int]));
                }
                a[x] * b[y] - a[y] * b[x]
            };
        Self(array_from_fn(g))
    }
}

/// Coordinate `i` of `a × b` as `cross` gives it for `i64` vectors.
pub open spec fn cross_coord(a: Vector<i64, 3>, b: Vector<i64, 3>, i: int) -> i64 {
    a.0@[(i + 1) % 3].mul_spec(b.0@[(i + 2) % 3]).sub_spec(a.0@[(i + 2) % 3].mul_spec(b.0@[(i + 1) % 3]))
}

/// The cross product is orthogonal to both factors: for `i64` vectors with coordinates below
/// `2^31` in size, `c = a × b` has `c · a == 0` and `c · b == 0`.
pub proof fn lemma_cross_orthogonal(a: Vector<i64, 3>, b: Vector<i64, 3>, c: Vector<i64, 3>)
    requires
        forall|i: int| 0 <= i < 3 ==> -0x8000_0000 < #[trigger] a.0@[i] < 0x8000_0000,
        forall|i: int| 0 <= i < 3 ==> -0x8000_0000 < #[trigger] b.0@[i] < 0x8000_0000,
        forall|i: int| 0 <= i < 3 ==> #[trigger] c.0@[i] == cross_coord(a, b, i),
    ensures
        c.0@[0] * a.0@[0] + c.0@[1] * a.0@[1] + c.0@[2] * a.0@[2] == 0,
        c.0@[0] * b.0@[0] + c.0@[1] * b.0@[1] + c.0@[2] * b.0@[2] == 0,
{
    let (a0, a1, a2) = (a.0@[0], a.0@[1], a.0@[2]);
    let (b0, b1, b2) = (b.0@[0], b.0@[1], b.0@[2]);
    assert forall|p: i64, q: i64|
        -0x8000_0000 < p < 0x8000_0000 && -0x8000_0000 < q < 0x8000_0000 implies -0x4000_0000_0000_0000 < #[trigger] (p
        * q) < 0x4000_0000_0000_0000 by {
        assert(-0x4000_0000_0000_0000 < p * q < 0x4000_0000_0000_0000) by (nonlinear_arith)
            requires
                -0x8000_0000 < p < 0x8000_0000,
                -0x8000_0000 < q < 0x8000_0000,
        ;
    }
    assert(c.0@[0] == a1 * b2 - a2 * b1) by {
        assert(cross_coord(a, b, 0) == a1.mul_spec(b2).sub_spec(a2.mul_spec(b1)));
        assert(-0x4000_0000_0000_0000 < a1 * b2 < 0x4000_0000_0000_0000);
        assert(-0x4000_0000_0000_0000 < a2 * b1 < 0x4000_0000_0000_0000);
    }
    assert(c.0@[1] == a2 * b0 - a0 * b2) by {
        assert(cross_coord(a, b, 1) == a2.mul_spec(b0).sub_spec(a0.mul_spec(b2)));
        assert(-0x4000_0000_0000_0000 < a2 * b0 < 0x4000_0000_0000_0000);
        assert(-0x4000_0000_0000_0000 < a0 * b2 < 0x4000_0000_0000_0000);
    }
    assert(c.0@[2] == a0 * b1 - a1 * b0) by {
        assert(cross_coord(a, b, 2) == a0.mul_spec(b1).sub_spec(a1.mul_spec(b0)));
        assert(-0x4000_0000_0000_0000 < a0 * b1 < 0x4000_0000_0000_0000);
        assert(-0x4000_0000_0000_0000 < a1 * b0 < 0x4000_0000_0000_0000);
    }
    assert((a1 * b2 - a2 * b1) * a0 + (a2 * b0 - a0 * b2) * a1 + (a0 * b1 - a1 * b0) * a2 == 0) by (nonlinear_arith);
    assert((a1 * b2 - a2 * b1) * b0 + (a2 * b0 - a0 * b2) * b1 + (a0 * b1 - a1 * b0) * b2 == 0) by (nonlinear_arith);
}

/// Why a vector could not be parsed.
#[derive(Debug, Clone, PartialEq, Eq)]
pub enum ParseVectorError<E> {
    /// The number of whitespace-separated elements is not `N`.
    Arity { expected: usize, found: usize },
    /// An element did not parse.
    Element(E),
}

impl<T, const N: usize> Vector<T, N> {
    /// The vector of parsed elements: the first element that failed, else an arity error when
    /// there are not exactly `N` elements.
    pub fn from_parsed<E>(elements: Vec<Result<T, E>>) -> (r: Result<Self, ParseVectorError<E>>)
        ensures
            forall|k: int|
                0 <= k < elements@.len() && elements@[k] is Err && (forall|j: int| 0 <= j < k ==> #[trigger] elements@[j] is Ok)
                    ==> r == Err::<Self, ParseVectorError<E>>(ParseVectorError::Element(elements@[k]->Err_0)),
            (forall|j: int| 0 <= j < elements@.len() ==> #[trigger] elements@[j] is Ok) && elements@.len() != N ==> r
                == Err::<Self, ParseVectorError<E>>(
                ParseVectorError::Arity { expected: N, found: elements@.len() as usize },
            ),
            (forall|j: int| 0 <= j < elements@.len() ==> #[trigger] elements@[j] is Ok) && elements@.len() == N ==> (r matches Ok(v)
                && forall|j: int| 0 <= j < N ==> #[trigger] v.0@[j] == elements@[j]->Ok_0),
    {
        let ghost all = elements@;
        let mut values: Vec<T> = Vec::new();
        for e in it: elements
            invariant
                it.seq() == all,
                values@.len() == it.index(),
                forall|j: int| 0 <= j < it.index() ==> #[trigger] all[j] is Ok && values@[j] == all[j]->Ok_0,
        {
            match e {
                Ok(v) => values.push(v),
                Err(err) => {
                    proof {
                        assert forall|k: int|
                            0 <= k < all.len() && all[k] is Err && (forall|j: int| 0 <= j < k ==> #[trigger] all[j] is Ok) implies k
                                == it.index() by {
                            if k < it.index() {
                                assert(all[k] is Ok);
                            } else if k > it.index() {
                                assert(all[it.index() as int] is Ok);
                            }
                        }
                    }
                    return Err(ParseVectorError::Element(err));
                },
            }
        }
        let found = values.len();
        if found != N {
            return Err(ParseVectorError::Arity { expected: N, found });
        }
        Ok(Self(vec_into_array(values)))
    }
}


impl<T: Copy, const N: usize> IntN<N> for Vector<T, N> where [T; N]: IntN<N> {
    open spec fn coords(&self) -> Seq<isize> {
        self.0.coords()
    }

    fn to_ints(self) -> (r: [isize; N]) {
        self.0.to_ints()
    }

    fn to_index(self) -> (r: [usize; N]) {
        self.0.to_index()
    }
}

} // verus!

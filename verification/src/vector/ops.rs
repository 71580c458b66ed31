//! Arithmetic on vectors: coordinate by coordinate with another vector, or with a scalar
//! broadcast to every coordinate, on values and references.
use vstd::prelude::*;
use vstd::std_specs::ops::{AddSpec, SubSpec, MulSpec, DivSpec, NegSpec};
use vstd::std_specs::ops::{AddSpecImpl, SubSpecImpl, MulSpecImpl, DivSpecImpl, NegSpecImpl};
use core::ops::{Add, Sub, Mul, Div, Neg};
use crate::array::array_from_fn;
use crate::vector::{Vector, Scalar};

verus! {

impl<T: Add<S> + Copy, S: Copy, const N: usize> Add<Vector<S, N>> for Vector<T, N> {
    type Output = Vector<<T as Add<S>>::Output, N>;

    /// `+` coordinate by coordinate.
    fn add(self, rhs: Vector<S, N>) -> (r: Vector<<T as Add<S>>::Output, N>)
        ensures
            T::obeys_add_spec() ==> forall|i: int| 0 <= i < N ==> #[trigger] r.0@[i] == self.0@[i].add_spec(rhs.0@[i]),
    {
        let a = self.0;
        let b = rhs.0;
        let g = |i: usize| -> (c: <T as Add<S>>::Output)
            requires
                i < N,
                a@[i as int].add_req(b@[i as int]),
            ensures
                T::obeys_add_spec() ==> c == a@[i as int].add_spec(b@[i as int]),
            { a[i] + b[i] };
        Vector(array_from_fn(g))
    }
}

/// `+` has no spec function of its own: the `ensures` of `add` say what it gives.
impl<T: Add<S> + Copy, S: Copy, const N: usize> AddSpecImpl<Vector<S, N>> for Vector<T, N> {
    open spec fn obeys_add_spec() -> bool {
        false
    }

    open spec fn add_req(self, rhs: Vector<S, N>) -> bool {
        forall|i: int| 0 <= i < N ==> (#[trigger] self.0@[i]).add_req(rhs.0@[i])
    }

    open spec fn add_spec(self, rhs: Vector<S, N>) -> Vector<<T as Add<S>>::Output, N> {
        arbitrary()
    }
}

impl<T: Add<S> + Copy, S: Copy, const N: usize> Add<&Vector<S, N>> for Vector<T, N> {
    type Output = Vector<<T as Add<S>>::Output, N>;

    /// `+` coordinate by coordinate.
    fn add(self, rhs: &Vector<S, N>) -> (r: Vector<<T as Add<S>>::Output, N>)
        ensures
            T::obeys_add_spec() ==> forall|i: int| 0 <= i < N ==> #[trigger] r.0@[i] == self.0@[i].add_spec(rhs.0@[i]),
    {
        let a = self.0;
        let b = (*rhs).0;
        let g = |i: usize| -> (c: <T as Add<S>>::Output)
            requires
                i < N,
                a@[i as int].add_req(b@[i as int]),
            ensures
                T::obeys_add_spec() ==> c == a@[i as int].add_spec(b@[i as int]),
            { a[i] + b[i] };
        Vector(array_from_fn(g))
    }
}

/// `+` has no spec function of its own: the `ensures` of `add` say what it gives.
impl<T: Add<S> + Copy, S: Copy, const N: usize> AddSpecImpl<&Vector<S, N>> for Vector<T, N> {
    open spec fn obeys_add_spec() -> bool {
        false
    }

    open spec fn add_req(self, rhs: &Vector<S, N>) -> bool {
        forall|i: int| 0 <= i < N ==> (#[trigger] self.0@[i]).add_req((*rhs).0@[i])
    }

    open spec fn add_spec(self, rhs: &Vector<S, N>) -> Vector<<T as Add<S>>::Output, N> {
        arbitrary()
    }
}

impl<T: Add<S> + Copy, S: Copy, const N: usize> Add<Vector<S, N>> for &Vector<T, N> {
    type Output = Vector<<T as Add<S>>::Output, N>;

    /// `+` coordinate by coordinate.
    fn add(self, rhs: Vector<S, N>) -> (r: Vector<<T as Add<S>>::Output, N>)
        ensures
            T::obeys_add_spec() ==> forall|i: int| 0 <= i < N ==> #[trigger] r.0@[i] == self.0@[i].add_spec(rhs.0@[i]),
    {
        let a = (*self).0;
        let b = rhs.0;
        let g = |i: usize| -> (c: <T as Add<S>>::Output)
            requires
                i < N,
                a@[i as int].add_req(b@[i as int]),
            ensures
                T::obeys_add_spec() ==> c == a@[i as int].add_spec(b@[i as int]),
            { a[i] + b[i] };
        Vector(array_from_fn(g))
    }
}

/// `+` has no spec function of its own: the `ensures` of `add` say what it gives.
impl<T: Add<S> + Copy, S: Copy, const N: usize> AddSpecImpl<Vector<S, N>> for &Vector<T, N> {
    open spec fn obeys_add_spec() -> bool {
        false
    }

    open spec fn add_req(self, rhs: Vector<S, N>) -> bool {
        forall|i: int| 0 <= i < N ==> (#[trigger] (*self).0@[i]).add_req(rhs.0@[i])
    }

    open spec fn add_spec(self, rhs: Vector<S, N>) -> Vector<<T as Add<S>>::Output, N> {
        arbitrary()
    }
}

impl<T: Add<S> + Copy, S: Copy, const N: usize> Add<&Vector<S, N>> for &Vector<T, N> {
    type Output = Vector<<T as Add<S>>::Output, N>;

    /// `+` coordinate by coordinate.
    fn add(self, rhs: &Vector<S, N>) -> (r: Vector<<T as Add<S>>::Output, N>)
        ensures
            T::obeys_add_spec() ==> forall|i: int| 0 <= i < N ==> #[trigger] r.0@[i] == self.0@[i].add_spec(rhs.0@[i]),
    {
        let a = (*self).0;
        let b = (*rhs).0;
        let g = |i: usize| -> (c: <T as Add<S>>::Output)
            requires
                i < N,
                a@[i as int].add_req(b@[i as int]),
            ensures
                T::obeys_add_spec() ==> c == a@[i as int].add_spec(b@[i as int]),
            { a[i] + b[i] };
        Vector(array_from_fn(g))
    }
}

/// `+` has no spec function of its own: the `ensures` of `add` say what it gives.
impl<T: Add<S> + Copy, S: Copy, const N: usize> AddSpecImpl<&Vector<S, N>> for &Vector<T, N> {
    open spec fn obeys_add_spec() -> bool {
        false
    }

    open spec fn add_req(self, rhs: &Vector<S, N>) -> bool {
        forall|i: int| 0 <= i < N ==> (#[trigger] (*self).0@[i]).add_req((*rhs).0@[i])
    }

    open spec fn add_spec(self, rhs: &Vector<S, N>) -> Vector<<T as Add<S>>::Output, N> {
        arbitrary()
    }
}

impl<T: Add<S> + Copy, S: Copy, const N: usize> Add<Scalar<S>> for Vector<T, N> {
    type Output = Vector<<T as Add<S>>::Output, N>;

    /// `+` with `rhs` on every coordinate.
    fn add(self, rhs: Scalar<S>) -> (r: Vector<<T as Add<S>>::Output, N>)
        ensures
            T::obeys_add_spec() ==> forall|i: int| 0 <= i < N ==> #[trigger] r.0@[i] == self.0@[i].add_spec(rhs.0),
    {
        let a = self.0;
        let b = rhs.0;
        let g = |i: usize| -> (c: <T as Add<S>>::Output)
            requires
                i < N,
                a@[i as int].add_req(b),
            ensures
                T::obeys_add_spec() ==> c == a@[i as int].add_spec(b),
            { a[i] + b };
        Vector(array_from_fn(g))
    }
}

/// `+` has no spec function of its own: the `ensures` of `add` say what it gives.
impl<T: Add<S> + Copy, S: Copy, const N: usize> AddSpecImpl<Scalar<S>> for Vector<T, N> {
    open spec fn obeys_add_spec() -> bool {
        false
    }

    open spec fn add_req(self, rhs: Scalar<S>) -> bool {
        forall|i: int| 0 <= i < N ==> (#[trigger] self.0@[i]).add_req(rhs.0)
    }

    open spec fn add_spec(self, rhs: Scalar<S>) -> Vector<<T as Add<S>>::Output, N> {
        arbitrary()
    }
}

impl<T: Add<S> + Copy, S: Copy, const N: usize> Add<Scalar<S>> for &Vector<T, N> {
    type Output = Vector<<T as Add<S>>::Output, N>;

    /// `+` with `rhs` on every coordinate.
    fn add(self, rhs: Scalar<S>) -> (r: Vector<<T as Add<S>>::Output, N>)
        ensures
            T::obeys_add_spec() ==> forall|i: int| 0 <= i < N ==> #[trigger] r.0@[i] == self.0@[i].add_spec(rhs.0),
    {
        let a = (*self).0;
        let b = rhs.0;
        let g = |i: usize| -> (c: <T as Add<S>>::Output)
            requires
                i < N,
                a@[i as int].add_req(b),
            ensures
                T::obeys_add_spec() ==> c == a@[i as int].add_spec(b),
            { a[i] + b };
        Vector(array_from_fn(g))
    }
}

/// `+` has no spec function of its own: the `ensures` of `add` say what it gives.
impl<T: Add<S> + Copy, S: Copy, const N: usize> AddSpecImpl<Scalar<S>> for &Vector<T, N> {
    open spec fn obeys_add_spec() -> bool {
        false
    }

    open spec fn add_req(self, rhs: Scalar<S>) -> bool {
        forall|i: int| 0 <= i < N ==> (#[trigger] (*self).0@[i]).add_req(rhs.0)
    }

    open spec fn add_spec(self, rhs: Scalar<S>) -> Vector<<T as Add<S>>::Output, N> {
        arbitrary()
    }
}

impl<T: Sub<S> + Copy, S: Copy, const N: usize> Sub<Vector<S, N>> for Vector<T, N> {
    type Output = Vector<<T as Sub<S>>::Output, N>;

    /// `-` coordinate by coordinate.
    fn sub(self, rhs: Vector<S, N>) -> (r: Vector<<T as Sub<S>>::Output, N>)
        ensures
            T::obeys_sub_spec() ==> forall|i: int| 0 <= i < N ==> #[trigger] r.0@[i] == self.0@[i].sub_spec(rhs.0@[i]),
    {
        let a = self.0;
        let b = rhs.0;
        let g = |i: usize| -> (c: <T as Sub<S>>::Output)
            requires
                i < N,
                a@[i as int].sub_req(b@[i as int]),
            ensures
                T::obeys_sub_spec() ==> c == a@[i as int].sub_spec(b@[i as int]),
            { a[i] - b[i] };
        Vector(array_from_fn(g))
    }
}

/// `-` has no spec function of its own: the `ensures` of `sub` say what it gives.
impl<T: Sub<S> + Copy, S: Copy, const N: usize> SubSpecImpl<Vector<S, N>> for Vector<T, N> {
    open spec fn obeys_sub_spec() -> bool {
        false
    }

    open spec fn sub_req(self, rhs: Vector<S, N>) -> bool {
        forall|i: int| 0 <= i < N ==> (#[trigger] self.0@[i]).sub_req(rhs.0@[i])
    }

    open spec fn sub_spec(self, rhs: Vector<S, N>) -> Vector<<T as Sub<S>>::Output, N> {
        arbitrary()
    }
}

impl<T: Sub<S> + Copy, S: Copy, const N: usize> Sub<&Vector<S, N>> for Vector<T, N> {
    type Output = Vector<<T as Sub<S>>::Output, N>;

    /// `-` coordinate by coordinate.
    fn sub(self, rhs: &Vector<S, N>) -> (r: Vector<<T as Sub<S>>::Output, N>)
        ensures
            T::obeys_sub_spec() ==> forall|i: int| 0 <= i < N ==> #[trigger] r.0@[i] == self.0@[i].sub_spec(rhs.0@[i]),
    {
        let a = self.0;
        let b = (*rhs).0;
        let g = |i: usize| -> (c: <T as Sub<S>>::Output)
            requires
                i < N,
                a@[i as int].sub_req(b@[i as int]),
            ensures
                T::obeys_sub_spec() ==> c == a@[i as int].sub_spec(b@[i as int]),
            { a[i] - b[i] };
        Vector(array_from_fn(g))
    }
}

/// `-` has no spec function of its own: the `ensures` of `sub` say what it gives.
impl<T: Sub<S> + Copy, S: Copy, const N: usize> SubSpecImpl<&Vector<S, N>> for Vector<T, N> {
    open spec fn obeys_sub_spec() -> bool {
        false
    }

    open spec fn sub_req(self, rhs: &Vector<S, N>) -> bool {
        forall|i: int| 0 <= i < N ==> (#[trigger] self.0@[i]).sub_req((*rhs).0@[i])
    }

    open spec fn sub_spec(self, rhs: &Vector<S, N>) -> Vector<<T as Sub<S>>::Output, N> {
        arbitrary()
    }
}

impl<T: Sub<S> + Copy, S: Copy, const N: usize> Sub<Vector<S, N>> for &Vector<T, N> {
    type Output = Vector<<T as Sub<S>>::Output, N>;

    /// `-` coordinate by coordinate.
    fn sub(self, rhs: Vector<S, N>) -> (r: Vector<<T as Sub<S>>::Output, N>)
        ensures
            T::obeys_sub_spec() ==> forall|i: int| 0 <= i < N ==> #[trigger] r.0@[i] == self.0@[i].sub_spec(rhs.0@[i]),
    {
        let a = (*self).0;
        let b = rhs.0;
        let g = |i: usize| -> (c: <T as Sub<S>>::Output)
            requires
                i < N,
                a@[i as int].sub_req(b@[i as int]),
            ensures
                T::obeys_sub_spec() ==> c == a@[i as int].sub_spec(b@[i as int]),
            { a[i] - b[i] };
        Vector(array_from_fn(g))
    }
}

/// `-` has no spec function of its own: the `ensures` of `sub` say what it gives.
impl<T: Sub<S> + Copy, S: Copy, const N: usize> SubSpecImpl<Vector<S, N>> for &Vector<T, N> {
    open spec fn obeys_sub_spec() -> bool {
        false
    }

    open spec fn sub_req(self, rhs: Vector<S, N>) -> bool {
        forall|i: int| 0 <= i < N ==> (#[trigger] (*self).0@[i]).sub_req(rhs.0@[i])
    }

    open spec fn sub_spec(self, rhs: Vector<S, N>) -> Vector<<T as Sub<S>>::Output, N> {
        arbitrary()
    }
}

impl<T: Sub<S> + Copy, S: Copy, const N: usize> Sub<&Vector<S, N>> for &Vector<T, N> {
    type Output = Vector<<T as Sub<S>>::Output, N>;

    /// `-` coordinate by coordinate.
    fn sub(self, rhs: &Vector<S, N>) -> (r: Vector<<T as Sub<S>>::Output, N>)
        ensures
            T::obeys_sub_spec() ==> forall|i: int| 0 <= i < N ==> #[trigger] r.0@[i] == self.0@[i].sub_spec(rhs.0@[i]),
    {
        let a = (*self).0;
        let b = (*rhs).0;
        let g = |i: usize| -> (c: <T as Sub<S>>::Output)
            requires
                i < N,
                a@[i as int].sub_req(b@[i as int]),
            ensures
                T::obeys_sub_spec() ==> c == a@[i as int].sub_spec(b@[i as int]),
            { a[i] - b[i] };
        Vector(array_from_fn(g))
    }
}

/// `-` has no spec function of its own: the `ensures` of `sub` say what it gives.
impl<T: Sub<S> + Copy, S: Copy, const N: usize> SubSpecImpl<&Vector<S, N>> for &Vector<T, N> {
    open spec fn obeys_sub_spec() -> bool {
        false
    }

    open spec fn sub_req(self, rhs: &Vector<S, N>) -> bool {
        forall|i: int| 0 <= i < N ==> (#[trigger] (*self).0@[i]).sub_req((*rhs).0@[i])
    }

    open spec fn sub_spec(self, rhs: &Vector<S, N>) -> Vector<<T as Sub<S>>::Output, N> {
        arbitrary()
    }
}

impl<T: Sub<S> + Copy, S: Copy, const N: usize> Sub<Scalar<S>> for Vector<T, N> {
    type Output = Vector<<T as Sub<S>>::Output, N>;

    /// `-` with `rhs` on every coordinate.
    fn sub(self, rhs: Scalar<S>) -> (r: Vector<<T as Sub<S>>::Output, N>)
        ensures
            T::obeys_sub_spec() ==> forall|i: int| 0 <= i < N ==> #[trigger] r.0@[i] == self.0@[i].sub_spec(rhs.0),
    {
        let a = self.0;
        let b = rhs.0;
        let g = |i: usize| -> (c: <T as Sub<S>>::Output)
            requires
                i < N,
                a@[i as int].sub_req(b),
            ensures
                T::obeys_sub_spec() ==> c == a@[i as int].sub_spec(b),
            { a[i] - b };
        Vector(array_from_fn(g))
    }
}

/// `-` has no spec function of its own: the `ensures` of `sub` say what it gives.
impl<T: Sub<S> + Copy, S: Copy, const N: usize> SubSpecImpl<Scalar<S>> for Vector<T, N> {
    open spec fn obeys_sub_spec() -> bool {
        false
    }

    open spec fn sub_req(self, rhs: Scalar<S>) -> bool {
        forall|i: int| 0 <= i < N ==> (#[trigger] self.0@[i]).sub_req(rhs.0)
    }

    open spec fn sub_spec(self, rhs: Scalar<S>) -> Vector<<T as Sub<S>>::Output, N> {
        arbitrary()
    }
}

impl<T: Sub<S> + Copy, S: Copy, const N: usize> Sub<Scalar<S>> for &Vector<T, N> {
    type Output = Vector<<T as Sub<S>>::Output, N>;

    /// `-` with `rhs` on every coordinate.
    fn sub(self, rhs: Scalar<S>) -> (r: Vector<<T as Sub<S>>::Output, N>)
        ensures
            T::obeys_sub_spec() ==> forall|i: int| 0 <= i < N ==> #[trigger] r.0@[i] == self.0@[i].sub_spec(rhs.0),
    {
        let a = (*self).0;
        let b = rhs.0;
        let g = |i: usize| -> (c: <T as Sub<S>>::Output)
            requires
                i < N,
                a@[i as int].sub_req(b),
            ensures
                T::obeys_sub_spec() ==> c == a@[i as int].sub_spec(b),
            { a[i] - b };
        Vector(array_from_fn(g))
    }
}

/// `-` has no spec function of its own: the `ensures` of `sub` say what it gives.
impl<T: Sub<S> + Copy, S: Copy, const N: usize> SubSpecImpl<Scalar<S>> for &Vector<T, N> {
    open spec fn obeys_sub_spec() -> bool {
        false
    }

    open spec fn sub_req(self, rhs: Scalar<S>) -> bool {
        forall|i: int| 0 <= i < N ==> (#[trigger] (*self).0@[i]).sub_req(rhs.0)
    }

    open spec fn sub_spec(self, rhs: Scalar<S>) -> Vector<<T as Sub<S>>::Output, N> {
        arbitrary()
    }
}

impl<T: Mul<S> + Copy, S: Copy, const N: usize> Mul<Vector<S, N>> for Vector<T, N> {
    type Output = Vector<<T as Mul<S>>::Output, N>;

    /// `*` coordinate by coordinate.
    fn mul(self, rhs: Vector<S, N>) -> (r: Vector<<T as Mul<S>>::Output, N>)
        ensures
            T::obeys_mul_spec() ==> forall|i: int| 0 <= i < N ==> #[trigger] r.0@[i] == self.0@[i].mul_spec(rhs.0@[i]),
    {
        let a = self.0;
        let b = rhs.0;
        let g = |i: usize| -> (c: <T as Mul<S>>::Output)
            requires
                i < N,
                a@[i as int].mul_req(b@[i as int]),
            ensures
                T::obeys_mul_spec() ==> c == a@[i as int].mul_spec(b@[i as int]),
            { a[i] * b[i] };
        Vector(array_from_fn(g))
    }
}

/// `*` has no spec function of its own: the `ensures` of `mul` say what it gives.
impl<T: Mul<S> + Copy, S: Copy, const N: usize> MulSpecImpl<Vector<S, N>> for Vector<T, N> {
    open spec fn obeys_mul_spec() -> bool {
        false
    }

    open spec fn mul_req(self, rhs: Vector<S, N>) -> bool {
        forall|i: int| 0 <= i < N ==> (#[trigger] self.0@[i]).mul_req(rhs.0@[i])
    }

    open spec fn mul_spec(self, rhs: Vector<S, N>) -> Vector<<T as Mul<S>>::Output, N> {
        arbitrary()
    }
}

impl<T: Mul<S> + Copy, S: Copy, const N: usize> Mul<&Vector<S, N>> for Vector<T, N> {
    type Output = Vector<<T as Mul<S>>::Output, N>;

    /// `*` coordinate by coordinate.
    fn mul(self, rhs: &Vector<S, N>) -> (r: Vector<<T as Mul<S>>::Output, N>)
        ensures
            T::obeys_mul_spec() ==> forall|i: int| 0 <= i < N ==> #[trigger] r.0@[i] == self.0@[i].mul_spec(rhs.0@[i]),
    {
        let a = self.0;
        let b = (*rhs).0;
        let g = |i: usize| -> (c: <T as Mul<S>>::Output)
            requires
                i < N,
                a@[i as int].mul_req(b@[i as int]),
            ensures
                T::obeys_mul_spec() ==> c == a@[i as int].mul_spec(b@[i as int]),
            { a[i] * b[i] };
        Vector(array_from_fn(g))
    }
}

/// `*` has no spec function of its own: the `ensures` of `mul` say what it gives.
impl<T: Mul<S> + Copy, S: Copy, const N: usize> MulSpecImpl<&Vector<S, N>> for Vector<T, N> {
    open spec fn obeys_mul_spec() -> bool {
        false
    }

    open spec fn mul_req(self, rhs: &Vector<S, N>) -> bool {
        forall|i: int| 0 <= i < N ==> (#[trigger] self.0@[i]).mul_req((*rhs).0@[i])
    }

    open spec fn mul_spec(self, rhs: &Vector<S, N>) -> Vector<<T as Mul<S>>::Output, N> {
        arbitrary()
    }
}

impl<T: Mul<S> + Copy, S: Copy, const N: usize> Mul<Vector<S, N>> for &Vector<T, N> {
    type Output = Vector<<T as Mul<S>>::Output, N>;

    /// `*` coordinate by coordinate.
    fn mul(self, rhs: Vector<S, N>) -> (r: Vector<<T as Mul<S>>::Output, N>)
        ensures
            T::obeys_mul_spec() ==> forall|i: int| 0 <= i < N ==> #[trigger] r.0@[i] == self.0@[i].mul_spec(rhs.0@[i]),
    {
        let a = (*self).0;
        let b = rhs.0;
        let g = |i: usize| -> (c: <T as Mul<S>>::Output)
            requires
                i < N,
                a@[i as int].mul_req(b@[i as int]),
            ensures
                T::obeys_mul_spec() ==> c == a@[i as int].mul_spec(b@[i as int]),
            { a[i] * b[i] };
        Vector(array_from_fn(g))
    }
}

/// `*` has no spec function of its own: the `ensures` of `mul` say what it gives.
impl<T: Mul<S> + Copy, S: Copy, const N: usize> MulSpecImpl<Vector<S, N>> for &Vector<T, N> {
    open spec fn obeys_mul_spec() -> bool {
        false
    }

    open spec fn mul_req(self, rhs: Vector<S, N>) -> bool {
        forall|i: int| 0 <= i < N ==> (#[trigger] (*self).0@[i]).mul_req(rhs.0@[i])
    }

    open spec fn mul_spec(self, rhs: Vector<S, N>) -> Vector<<T as Mul<S>>::Output, N> {
        arbitrary()
    }
}

impl<T: Mul<S> + Copy, S: Copy, const N: usize> Mul<&Vector<S, N>> for &Vector<T, N> {
    type Output = Vector<<T as Mul<S>>::Output, N>;

    /// `*` coordinate by coordinate.
    fn mul(self, rhs: &Vector<S, N>) -> (r: Vector<<T as Mul<S>>::Output, N>)
        ensures
            T::obeys_mul_spec() ==> forall|i: int| 0 <= i < N ==> #[trigger] r.0@[i] == self.0@[i].mul_spec(rhs.0@[i]),
    {
        let a = (*self).0;
        let b = (*rhs).0;
        let g = |i: usize| -> (c: <T as Mul<S>>::Output)
            requires
                i < N,
                a@[i as int].mul_req(b@[i as int]),
            ensures
                T::obeys_mul_spec() ==> c == a@[i as int].mul_spec(b@[i as int]),
            { a[i] * b[i] };
        Vector(array_from_fn(g))
    }
}

/// `*` has no spec function of its own: the `ensures` of `mul` say what it gives.
impl<T: Mul<S> + Copy, S: Copy, const N: usize> MulSpecImpl<&Vector<S, N>> for &Vector<T, N> {
    open spec fn obeys_mul_spec() -> bool {
        false
    }

    open spec fn mul_req(self, rhs: &Vector<S, N>) -> bool {
        forall|i: int| 0 <= i < N ==> (#[trigger] (*self).0@[i]).mul_req((*rhs).0@[i])
    }

    open spec fn mul_spec(self, rhs: &Vector<S, N>) -> Vector<<T as Mul<S>>::Output, N> {
        arbitrary()
    }
}

impl<T: Mul<S> + Copy, S: Copy, const N: usize> Mul<Scalar<S>> for Vector<T, N> {
    type Output = Vector<<T as Mul<S>>::Output, N>;

    /// `*` with `rhs` on every coordinate.
    fn mul(self, rhs: Scalar<S>) -> (r: Vector<<T as Mul<S>>::Output, N>)
        ensures
            T::obeys_mul_spec() ==> forall|i: int| 0 <= i < N ==> #[trigger] r.0@[i] == self.0@[i].mul_spec(rhs.0),
    {
        let a = self.0;
        let b = rhs.0;
        let g = |i: usize| -> (c: <T as Mul<S>>::Output)
            requires
                i < N,
                a@[i as int].mul_req(b),
            ensures
                T::obeys_mul_spec() ==> c == a@[i as int].mul_spec(b),
            { a[i] * b };
        Vector(array_from_fn(g))
    }
}

/// `*` has no spec function of its own: the `ensures` of `mul` say what it gives.
impl<T: Mul<S> + Copy, S: Copy, const N: usize> MulSpecImpl<Scalar<S>> for Vector<T, N> {
    open spec fn obeys_mul_spec() -> bool {
        false
    }

    open spec fn mul_req(self, rhs: Scalar<S>) -> bool {
        forall|i: int| 0 <= i < N ==> (#[trigger] self.0@[i]).mul_req(rhs.0)
    }

    open spec fn mul_spec(self, rhs: Scalar<S>) -> Vector<<T as Mul<S>>::Output, N> {
        arbitrary()
    }
}

impl<T: Mul<S> + Copy, S: Copy, const N: usize> Mul<Scalar<S>> for &Vector<T, N> {
    type Output = Vector<<T as Mul<S>>::Output, N>;

    /// `*` with `rhs` on every coordinate.
    fn mul(self, rhs: Scalar<S>) -> (r: Vector<<T as Mul<S>>::Output, N>)
        ensures
            T::obeys_mul_spec() ==> forall|i: int| 0 <= i < N ==> #[trigger] r.0@[i] == self.0@[i].mul_spec(rhs.0),
    {
        let a = (*self).0;
        let b = rhs.0;
        let g = |i: usize| -> (c: <T as Mul<S>>::Output)
            requires
                i < N,
                a@[i as int].mul_req(b),
            ensures
                T::obeys_mul_spec() ==> c == a@[i as int].mul_spec(b),
            { a[i] * b };
        Vector(array_from_fn(g))
    }
}

/// `*` has no spec function of its own: the `ensures` of `mul` say what it gives.
impl<T: Mul<S> + Copy, S: Copy, const N: usize> MulSpecImpl<Scalar<S>> for &Vector<T, N> {
    open spec fn obeys_mul_spec() -> bool {
        false
    }

    open spec fn mul_req(self, rhs: Scalar<S>) -> bool {
        forall|i: int| 0 <= i < N ==> (#[trigger] (*self).0@[i]).mul_req(rhs.0)
    }

    open spec fn mul_spec(self, rhs: Scalar<S>) -> Vector<<T as Mul<S>>::Output, N> {
        arbitrary()
    }
}

impl<T: Div<S> + Copy, S: Copy, const N: usize> Div<Vector<S, N>> for Vector<T, N> {
    type Output = Vector<<T as Div<S>>::Output, N>;

    /// `/` coordinate by coordinate.
    fn div(self, rhs: Vector<S, N>) -> (r: Vector<<T as Div<S>>::Output, N>)
        ensures
            T::obeys_div_spec() ==> forall|i: int| 0 <= i < N ==> #[trigger] r.0@[i] == self.0@[i].div_spec(rhs.0@[i]),
    {
        let a = self.0;
        let b = rhs.0;
        let g = |i: usize| -> (c: <T as Div<S>>::Output)
            requires
                i < N,
                a@[i as int].div_req(b@[i as int]),
            ensures
                T::obeys_div_spec() ==> c == a@[i as int].div_spec(b@[i as int]),
            { a[i] / b[i] };
        Vector(array_from_fn(g))
    }
}

/// `/` has no spec function of its own: the `ensures` of `div` say what it gives.
impl<T: Div<S> + Copy, S: Copy, const N: usize> DivSpecImpl<Vector<S, N>> for Vector<T, N> {
    open spec fn obeys_div_spec() -> bool {
        false
    }

    open spec fn div_req(self, rhs: Vector<S, N>) -> bool {
        forall|i: int| 0 <= i < N ==> (#[trigger] self.0@[i]).div_req(rhs.0@[i])
    }

    open spec fn div_spec(self, rhs: Vector<S, N>) -> Vector<<T as Div<S>>::Output, N> {
        arbitrary()
    }
}

impl<T: Div<S> + Copy, S: Copy, const N: usize> Div<&Vector<S, N>> for Vector<T, N> {
    type Output = Vector<<T as Div<S>>::Output, N>;

    /// `/` coordinate by coordinate.
    fn div(self, rhs: &Vector<S, N>) -> (r: Vector<<T as Div<S>>::Output, N>)
        ensures
            T::obeys_div_spec() ==> forall|i: int| 0 <= i < N ==> #[trigger] r.0@[i] == self.0@[i].div_spec(rhs.0@[i]),
    {
        let a = self.0;
        let b = (*rhs).0;
        let g = |i: usize| -> (c: <T as Div<S>>::Output)
            requires
                i < N,
                a@[i as int].div_req(b@[i as int]),
            ensures
                T::obeys_div_spec() ==> c == a@[i as int].div_spec(b@[i as int]),
            { a[i] / b[i] };
        Vector(array_from_fn(g))
    }
}

/// `/` has no spec function of its own: the `ensures` of `div` say what it gives.
impl<T: Div<S> + Copy, S: Copy, const N: usize> DivSpecImpl<&Vector<S, N>> for Vector<T, N> {
    open spec fn obeys_div_spec() -> bool {
        false
    }

    open spec fn div_req(self, rhs: &Vector<S, N>) -> bool {
        forall|i: int| 0 <= i < N ==> (#[trigger] self.0@[i]).div_req((*rhs).0@[i])
    }

    open spec fn div_spec(self, rhs: &Vector<S, N>) -> Vector<<T as Div<S>>::Output, N> {
        arbitrary()
    }
}

impl<T: Div<S> + Copy, S: Copy, const N: usize> Div<Vector<S, N>> for &Vector<T, N> {
    type Output = Vector<<T as Div<S>>::Output, N>;

    /// `/` coordinate by coordinate.
    fn div(self, rhs: Vector<S, N>) -> (r: Vector<<T as Div<S>>::Output, N>)
        ensures
            T::obeys_div_spec() ==> forall|i: int| 0 <= i < N ==> #[trigger] r.0@[i] == self.0@[i].div_spec(rhs.0@[i]),
    {
        let a = (*self).0;
        let b = rhs.0;
        let g = |i: usize| -> (c: <T as Div<S>>::Output)
            requires
                i < N,
                a@[i as int].div_req(b@[i as int]),
            ensures
                T::obeys_div_spec() ==> c == a@[i as int].div_spec(b@[i as int]),
            { a[i] / b[i] };
        Vector(array_from_fn(g))
    }
}

/// `/` has no spec function of its own: the `ensures` of `div` say what it gives.
impl<T: Div<S> + Copy, S: Copy, const N: usize> DivSpecImpl<Vector<S, N>> for &Vector<T, N> {
    open spec fn obeys_div_spec() -> bool {
        false
    }

    open spec fn div_req(self, rhs: Vector<S, N>) -> bool {
        forall|i: int| 0 <= i < N ==> (#[trigger] (*self).0@[i]).div_req(rhs.0@[i])
    }

    open spec fn div_spec(self, rhs: Vector<S, N>) -> Vector<<T as Div<S>>::Output, N> {
        arbitrary()
    }
}

impl<T: Div<S> + Copy, S: Copy, const N: usize> Div<&Vector<S, N>> for &Vector<T, N> {
    type Output = Vector<<T as Div<S>>::Output, N>;

    /// `/` coordinate by coordinate.
    fn div(self, rhs: &Vector<S, N>) -> (r: Vector<<T as Div<S>>::Output, N>)
        ensures
            T::obeys_div_spec() ==> forall|i: int| 0 <= i < N ==> #[trigger] r.0@[i] == self.0@[i].div_spec(rhs.0@[i]),
    {
        let a = (*self).0;
        let b = (*rhs).0;
        let g = |i: usize| -> (c: <T as Div<S>>::Output)
            requires
                i < N,
                a@[i as int].div_req(b@[i as int]),
            ensures
                T::obeys_div_spec() ==> c == a@[i as int].div_spec(b@[i as int]),
            { a[i] / b[i] };
        Vector(array_from_fn(g))
    }
}

/// `/` has no spec function of its own: the `ensures` of `div` say what it gives.
impl<T: Div<S> + Copy, S: Copy, const N: usize> DivSpecImpl<&Vector<S, N>> for &Vector<T, N> {
    open spec fn obeys_div_spec() -> bool {
        false
    }

    open spec fn div_req(self, rhs: &Vector<S, N>) -> bool {
        forall|i: int| 0 <= i < N ==> (#[trigger] (*self).0@[i]).div_req((*rhs).0@[i])
    }

    open spec fn div_spec(self, rhs: &Vector<S, N>) -> Vector<<T as Div<S>>::Output, N> {
        arbitrary()
    }
}

impl<T: Div<S> + Copy, S: Copy, const N: usize> Div<Scalar<S>> for Vector<T, N> {
    type Output = Vector<<T as Div<S>>::Output, N>;

    /// `/` with `rhs` on every coordinate.
    fn div(self, rhs: Scalar<S>) -> (r: Vector<<T as Div<S>>::Output, N>)
        ensures
            T::obeys_div_spec() ==> forall|i: int| 0 <= i < N ==> #[trigger] r.0@[i] == self.0@[i].div_spec(rhs.0),
    {
        let a = self.0;
        let b = rhs.0;
        let g = |i: usize| -> (c: <T as Div<S>>::Output)
            requires
                i < N,
                a@[i as int].div_req(b),
            ensures
                T::obeys_div_spec() ==> c == a@[i as int].div_spec(b),
            { a[i] / b };
        Vector(array_from_fn(g))
    }
}

/// `/` has no spec function of its own: the `ensures` of `div` say what it gives.
impl<T: Div<S> + Copy, S: Copy, const N: usize> DivSpecImpl<Scalar<S>> for Vector<T, N> {
    open spec fn obeys_div_spec() -> bool {
        false
    }

    open spec fn div_req(self, rhs: Scalar<S>) -> bool {
        forall|i: int| 0 <= i < N ==> (#[trigger] self.0@[i]).div_req(rhs.0)
    }

    open spec fn div_spec(self, rhs: Scalar<S>) -> Vector<<T as Div<S>>::Output, N> {
        arbitrary()
    }
}

impl<T: Div<S> + Copy, S: Copy, const N: usize> Div<Scalar<S>> for &Vector<T, N> {
    type Output = Vector<<T as Div<S>>::Output, N>;

    /// `/` with `rhs` on every coordinate.
    fn div(self, rhs: Scalar<S>) -> (r: Vector<<T as Div<S>>::Output, N>)
        ensures
            T::obeys_div_spec() ==> forall|i: int| 0 <= i < N ==> #[trigger] r.0@[i] == self.0@[i].div_spec(rhs.0),
    {
        let a = (*self).0;
        let b = rhs.0;
        let g = |i: usize| -> (c: <T as Div<S>>::Output)
            requires
                i < N,
                a@[i as int].div_req(b),
            ensures
                T::obeys_div_spec() ==> c == a@[i as int].div_spec(b),
            { a[i] / b };
        Vector(array_from_fn(g))
    }
}

/// `/` has no spec function of its own: the `ensures` of `div` say what it gives.
impl<T: Div<S> + Copy, S: Copy, const N: usize> DivSpecImpl<Scalar<S>> for &Vector<T, N> {
    open spec fn obeys_div_spec() -> bool {
        false
    }

    open spec fn div_req(self, rhs: Scalar<S>) -> bool {
        forall|i: int| 0 <= i < N ==> (#[trigger] (*self).0@[i]).div_req(rhs.0)
    }

    open spec fn div_spec(self, rhs: Scalar<S>) -> Vector<<T as Div<S>>::Output, N> {
        arbitrary()
    }
}

impl<T: Neg<Output = T> + Copy, const N: usize> Neg for Vector<T, N> {
    type Output = Vector<T, N>;

    /// Negates every coordinate.
    fn neg(self) -> (r: Vector<T, N>)
        ensures
            T::obeys_neg_spec() ==> forall|i: int| 0 <= i < N ==> #[trigger] r.0@[i] == self.0@[i].neg_spec(),
    {
        let a = self.0;
        let g = |i: usize| -> (c: T)
            requires
                i < N,
                a@[i as int].neg_req(),
            ensures
                T::obeys_neg_spec() ==> c == a@[i as int].neg_spec(),
            { a[i].neg() };
        Vector(array_from_fn(g))
    }
}

/// Unary `-` has no spec function of its own: the `ensures` of `neg` say what it gives.
impl<T: Neg<Output = T> + Copy, const N: usize> NegSpecImpl for Vector<T, N> {
    open spec fn obeys_neg_spec() -> bool {
        false
    }

    open spec fn neg_req(self) -> bool {
        forall|i: int| 0 <= i < N ==> (#[trigger] self.0@[i]).neg_req()
    }

    open spec fn neg_spec(self) -> Vector<T, N> {
        arbitrary()
    }
}

impl<T: Neg<Output = T> + Copy, const N: usize> Neg for &Vector<T, N> {
    type Output = Vector<T, N>;

    /// Negates every coordinate.
    fn neg(self) -> (r: Vector<T, N>)
        ensures
            T::obeys_neg_spec() ==> forall|i: int| 0 <= i < N ==> #[trigger] r.0@[i] == (*self).0@[i].neg_spec(),
    {
        (*self).neg()
    }
}

/// Unary `-` has no spec function of its own: the `ensures` of `neg` say what it gives.
impl<T: Neg<Output = T> + Copy, const N: usize> NegSpecImpl for &Vector<T, N> {
    open spec fn obeys_neg_spec() -> bool {
        false
    }

    open spec fn neg_req(self) -> bool {
        forall|i: int| 0 <= i < N ==> (#[trigger] (*self).0@[i]).neg_req()
    }

    open spec fn neg_spec(self) -> Vector<T, N> {
        arbitrary()
    }
}

} // verus!

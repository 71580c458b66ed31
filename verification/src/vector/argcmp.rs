//! Comparison of plane vectors by their angle.
use vstd::prelude::*;
use vstd::std_specs::cmp::{OrdSpec, PartialEqSpec};
use vstd::std_specs::ops::MulSpec;
use core::ops::{Mul, Sub};
use std::cmp::Ordering;
use crate::order::{lawful_order, less, lemma_less_laws};
use crate::vector::Vector;

verus! {

/// `v` lies in the lower half-plane measured from `z`: `[y, x] < [z, z]`, comparing `y` first
/// (equality as `T`'s `==` answers it).
pub open spec fn in_lower_half<T: Ord>(v: Vector<T, 2>, z: T) -> bool {
    less(v.0@[1], z) || (v.0@[1].eq_spec(&z) && less(v.0@[0], z))
}

/// The order by angle: the upper half-plane before the lower, and within a half-plane by the
/// sign of the cross product, with `z` as zero.
pub open spec fn angle_order<T: Ord + Mul<Output = T>>(a: Vector<T, 2>, b: Vector<T, 2>, z: T) -> Ordering {
    if in_lower_half(a, z) != in_lower_half(b, z) {
        if in_lower_half(a, z) {
            Ordering::Greater
        } else {
            Ordering::Less
        }
    } else {
        b.0@[0].mul_spec(a.0@[1]).cmp_spec(&a.0@[0].mul_spec(b.0@[1]))
    }
}

impl<T: Mul<Output = T> + Sub<Output = T> + Ord + Default + Copy> Vector<T, 2> {
    /// Compares by angle from the positive x axis, counter-clockwise, in `[0, 2π)`: vectors of one
    /// direction compare equal whatever their lengths; the zero vector compares equal to every
    /// vector of the upper half-plane.  `T::default()` is the zero.
    pub fn argcmp(&self, rhs: &Self) -> (r: Ordering)
        requires
            lawful_order::<T>(),
            T::obeys_mul_spec(),
            rhs.0@[0].mul_req(self.0@[1]),
            self.0@[0].mul_req(rhs.0@[1]),
        ensures
            exists|z: T| call_ensures(T::default, (), z) && r == angle_order(*self, *rhs, z),
    {
        proof {
            lemma_less_laws::<T>();
            reveal(vstd::laws_cmp::obeys_cmp_ord);
            assert(T::obeys_eq_spec());
            assert(T::obeys_cmp_spec());
        }
        let ax = self.0[0];
        let ay = self.0[1];
        let bx = rhs.0[0];
        let by = rhs.0[1];
        let make_zero = T::default;
        let z = make_zero();
        proof {
            assert(call_ensures(T::default, (), z));
        }
        let a_low = ay < z || (ay == z && ax < z);
        let b_low = by < z || (by == z && bx < z);
        proof {
            assert(a_low == in_lower_half(*self, z));
            assert(b_low == in_lower_half(*rhs, z));
        }
        let r = if a_low != b_low {
            if a_low {
                Ordering::Greater
            } else {
                Ordering::Less
            }
        } else {
            let p = bx * ay;
            let q = ax * by;
            proof {
                assert(p == bx.mul_spec(ay));
                assert(q == ax.mul_spec(by));
            }
            p.cmp(&q)
        };
        proof {
            assert(r == angle_order(*self, *rhs, z));
        }
        r
    }
}

/// Within a half-plane, "before by angle" is transitive: for non-zero vectors of the open
/// upper half-plane together with the positive x axis, `a × b > 0` and `b × c > 0` give
/// `a × c > 0`.
pub proof fn lemma_cross_order_transitive(ax: int, ay: int, bx: int, by: int, cx: int, cy: int)
    requires
        ay > 0 || (ay == 0 && ax > 0),
        by > 0 || (by == 0 && bx > 0),
        cy > 0 || (cy == 0 && cx > 0),
        bx * ay < ax * by,
        cx * by < bx * cy,
    ensures
        cx * ay < ax * cy,
{
    // a (b × c) + b (c × a) + c (a × b) == 0, read on the y coordinate
    assert(ay * (bx * cy - by * cx) + by * (cx * ay - cy * ax) + cy * (ax * by - ay * bx) == 0) by (nonlinear_arith);
    if by > 0 {
        assert(by * (cx * ay - cy * ax) <= 0) by (nonlinear_arith)
            requires
                ay >= 0,
                cy >= 0,
                bx * cy - by * cx > 0,
                ax * by - ay * bx > 0,
                ay * (bx * cy - by * cx) + by * (cx * ay - cy * ax) + cy * (ax * by - ay * bx) == 0,
        ;
        if cx * ay - cy * ax == 0 {
            assert(ay == 0 && cy == 0) by (nonlinear_arith)
                requires
                    ay >= 0,
                    cy >= 0,
                    bx * cy - by * cx > 0,
                    ax * by - ay * bx > 0,
                    ay * (bx * cy - by * cx) + cy * (ax * by - ay * bx) == 0,
            ;
            assert(false) by (nonlinear_arith)
                requires
                    ay == 0,
                    cy == 0,
                    ax > 0,
                    cx > 0,
                    by > 0,
                    bx * cy - by * cx > 0,
            ;
        }
        assert(cx * ay - cy * ax < 0) by (nonlinear_arith)
            requires
                by > 0,
                by * (cx * ay - cy * ax) <= 0,
                cx * ay - cy * ax != 0,
        ;
    } else {
        // b on the positive x axis: a and c lie strictly above it
        assert(ay > 0 && cy > 0) by (nonlinear_arith)
            requires
                by == 0,
                bx > 0,
                ay >= 0,
                cy >= 0,
                bx * ay < ax * by,
                cx * by < bx * cy,
        ;
        assert(false) by (nonlinear_arith)
            requires
                by == 0,
                bx > 0,
                ay > 0,
                bx * ay < ax * by,
        ;
    }
}

/// The same for vectors of `i64` that lie all in the upper half-plane (with the positive x
/// axis) or all in the lower one (with the negative x axis): turning the lower half by a half
/// turn keeps every cross product.
proof fn lemma_cross_order_transitive_i64(ax: i64, ay: i64, bx: i64, by: i64, cx: i64, cy: i64, lower: bool)
    requires
        lower ==> (ay < 0 || (ay == 0 && ax < 0)) && (by < 0 || (by == 0 && bx < 0)) && (cy < 0 || (cy == 0 && cx < 0)),
        !lower ==> (ay > 0 || (ay == 0 && ax > 0)) && (by > 0 || (by == 0 && bx > 0)) && (cy > 0 || (cy == 0 && cx > 0)),
        bx * ay < ax * by,
        cx * by < bx * cy,
    ensures
        cx * ay < ax * cy,
{
    if lower {
        assert((-bx) * (-ay) == bx * ay && (-ax) * (-by) == ax * by && (-cx) * (-by) == cx * by && (-bx) * (-cy) == bx
            * cy && (-cx) * (-ay) == cx * ay && (-ax) * (-cy) == ax * cy) by (nonlinear_arith);
        lemma_cross_order_transitive(-ax, -ay, -bx, -by, -cx, -cy);
    } else {
        lemma_cross_order_transitive(ax as int, ay as int, bx as int, by as int, cx as int, cy as int);
    }
}

/// Coordinates small enough that the cross product of two such vectors fits in `i64`.
pub open spec fn small_coords(v: Vector<i64, 2>) -> bool {
    -0x8000_0000 < v.0@[0] < 0x8000_0000 && -0x8000_0000 < v.0@[1] < 0x8000_0000
}

/// The products that `angle_order` compares, for small coordinates, are exact.
proof fn lemma_small_product(p: i64, q: i64)
    requires
        -0x8000_0000 < p < 0x8000_0000,
        -0x8000_0000 < q < 0x8000_0000,
    ensures
        p.mul_spec(q) == p * q,
{
    assert(-0x4000_0000_0000_0000 < p * q < 0x4000_0000_0000_0000) by (nonlinear_arith)
        requires
            -0x8000_0000 < p < 0x8000_0000,
            -0x8000_0000 < q < 0x8000_0000,
    ;
}

/// Sorting by angle is consistent: on non-zero vectors with coordinates below `2^31` in size,
/// the order by angle from the positive x axis (the one `argcmp` computes, with `0` as zero) is
/// transitive: `a` before `b` and `b` before `c` put `a` before `c`.
pub proof fn lemma_angle_order_transitive(a: Vector<i64, 2>, b: Vector<i64, 2>, c: Vector<i64, 2>)
    requires
        small_coords(a),
        small_coords(b),
        small_coords(c),
        a.0@[0] != 0 || a.0@[1] != 0,
        b.0@[0] != 0 || b.0@[1] != 0,
        c.0@[0] != 0 || c.0@[1] != 0,
        angle_order(a, b, 0i64) == Ordering::Less,
        angle_order(b, c, 0i64) == Ordering::Less,
    ensures
        angle_order(a, c, 0i64) == Ordering::Less,
{
    let (ax, ay) = (a.0@[0], a.0@[1]);
    let (bx, by) = (b.0@[0], b.0@[1]);
    let (cx, cy) = (c.0@[0], c.0@[1]);
    lemma_small_product(bx, ay);
    lemma_small_product(ax, by);
    lemma_small_product(cx, by);
    lemma_small_product(bx, cy);
    lemma_small_product(cx, ay);
    lemma_small_product(ax, cy);
    let la = in_lower_half(a, 0i64);
    let lb = in_lower_half(b, 0i64);
    let lc = in_lower_half(c, 0i64);
    assert(la == (ay < 0 || (ay == 0 && ax < 0)));
    assert(lb == (by < 0 || (by == 0 && bx < 0)));
    assert(lc == (cy < 0 || (cy == 0 && cx < 0)));
    if la == lb && lb == lc {
        assert(bx * ay < ax * by);
        assert(cx * by < bx * cy);
        lemma_cross_order_transitive_i64(ax, ay, bx, by, cx, cy, la);
    }
}

/// `v` lies below the x axis, or on its negative half.
pub open spec fn below_axis(v: Vector<i64, 2>) -> bool {
    v.0@[1] < 0 || (v.0@[1] == 0 && v.0@[0] < 0)
}

/// What the order by angle means on `i64` vectors with coordinates below `2^31` in size: every
/// vector on or above the positive x axis (the angles in `[0, π)`, the zero vector with them)
/// comes before every vector below it (the angles in `[π, 2π)`); within one of the two halves,
/// `a` comes before `b` when `a × b = ax by - ay bx` is positive, and they tie when it is zero.
pub proof fn lemma_angle_order_meaning(a: Vector<i64, 2>, b: Vector<i64, 2>)
    requires
        small_coords(a),
        small_coords(b),
    ensures
        !below_axis(a) && below_axis(b) ==> angle_order(a, b, 0i64) == Ordering::Less,
        below_axis(a) && !below_axis(b) ==> angle_order(a, b, 0i64) == Ordering::Greater,
        below_axis(a) == below_axis(b) ==> {
            &&& (angle_order(a, b, 0i64) == Ordering::Less <==> a.0@[0] * b.0@[1] - a.0@[1] * b.0@[0] > 0)
            &&& (angle_order(a, b, 0i64) == Ordering::Equal <==> a.0@[0] * b.0@[1] - a.0@[1] * b.0@[0] == 0)
            &&& (angle_order(a, b, 0i64) == Ordering::Greater <==> a.0@[0] * b.0@[1] - a.0@[1] * b.0@[0] < 0)
        },
{
    lemma_small_product(b.0@[0], a.0@[1]);
    lemma_small_product(a.0@[0], b.0@[1]);
    assert(in_lower_half(a, 0i64) == below_axis(a));
    assert(in_lower_half(b, 0i64) == below_axis(b));
}

} // verus!

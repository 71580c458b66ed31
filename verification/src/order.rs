//! Strict order of a type whose `Ord` implementation follows the laws of a total order.
use vstd::prelude::*;
use vstd::laws_cmp::obeys_cmp;
use vstd::laws_cmp::obeys_cmp_partial_ord;
use vstd::laws_cmp::obeys_cmp_ord;
use vstd::laws_cmp::obeys_partial_cmp_spec_properties;
use vstd::laws_eq::obeys_eq_spec_properties;
use vstd::std_specs::cmp::PartialOrdSpec;
use vstd::std_specs::cmp::OrdSpec;
use vstd::std_specs::cmp::PartialEqSpec;
use std::cmp::Ordering;

verus! {

/// The comparison operators of `T` behave as a total order.
pub open spec fn lawful_order<T: Ord>() -> bool {
    obeys_cmp::<T>()
}

/// `x < y` as the `PartialOrd` implementation of `T` answers it.
pub open spec fn less<T: PartialOrd>(x: T, y: T) -> bool {
    x.partial_cmp_spec(&y) == Some(Ordering::Less)
}

/// `x < y` in executable code computes `less(x, y)`.
pub open spec fn less_is_computed<T: PartialOrd>() -> bool {
    T::obeys_partial_cmp_spec()
}

/// What the laws of a total order give for `less`: `<` on values of `T` computes `less`, which
/// is irreflexive and transitive, and `!(p < q)` with `p < r` gives `q < r`.
pub proof fn lemma_less_laws<T: Ord>()
    requires
        lawful_order::<T>(),
    ensures
        less_is_computed::<T>(),
        forall|x: T| !#[trigger] less(x, x),
        forall|x: T, y: T, z: T| #[trigger] less(x, y) && #[trigger] less(y, z) ==> less(x, z),
        forall|p: T, q: T, r: T|
            !#[trigger] less(p, q) && #[trigger] less(p, r) ==> #[trigger] less(q, r),
{
    reveal(obeys_cmp_partial_ord);
    reveal(obeys_cmp_ord);
    reveal(obeys_partial_cmp_spec_properties);
    reveal(obeys_eq_spec_properties);
    assert forall|x: T| !#[trigger] less(x, x) by {
        assert(x.partial_cmp_spec(&x) == Some(x.cmp_spec(&x)));
        if less(x, x) {
            assert(x.partial_cmp_spec(&x) == Some(Ordering::Less));
            assert(x.partial_cmp_spec(&x) == Some(Ordering::Greater));
        }
    }
    assert forall|p: T, q: T, r: T|
        !#[trigger] less(p, q) && #[trigger] less(p, r) implies #[trigger] less(q, r) by {
        assert(p.partial_cmp_spec(&q) == Some(p.cmp_spec(&q)));
        assert(q.partial_cmp_spec(&r) == Some(q.cmp_spec(&r)));
        assert(p.partial_cmp_spec(&r) == Some(p.cmp_spec(&r)));
        assert(r.partial_cmp_spec(&q) == Some(r.cmp_spec(&q)));
        if p.cmp_spec(&q) == Ordering::Greater {
            assert(q.partial_cmp_spec(&p) == Some(Ordering::Less));
        } else {
            assert(p.eq_spec(&q));
            assert(q.eq_spec(&p));
            if q.cmp_spec(&r) == Ordering::Equal {
                assert(q.eq_spec(&r));
                assert(p.eq_spec(&r));
            } else if q.cmp_spec(&r) == Ordering::Greater {
                assert(r.partial_cmp_spec(&q) == Some(Ordering::Less));
                assert(p.partial_cmp_spec(&q) == Some(Ordering::Less));
            }
        }
    }
}

} // verus!

//! The arithmetic operators of `ModInt` on references and on primitive integers, on either
//! side, and the compound assignments.  An integer operand is first reduced modulo `M`.
use vstd::prelude::*;
use vstd::std_specs::ops::{AddSpecImpl, SubSpecImpl, MulSpecImpl, DivSpecImpl};
use core::ops::{Add, Sub, Mul, Div, AddAssign, SubAssign, MulAssign, DivAssign};
use crate::modint::{ModInt, quotient};
use crate::numtheory::{gcd, inv_gcd};

verus! {

impl<const M: u32> Add<&ModInt<M>> for ModInt<M> {
    type Output = ModInt<M>;

    fn add(self, rhs: &ModInt<M>) -> (r: ModInt<M>) {
        self + *rhs
    }
}

impl<const M: u32> AddSpecImpl<&ModInt<M>> for ModInt<M> {
    open spec fn obeys_add_spec() -> bool {
        true
    }

    open spec fn add_req(self, rhs: &ModInt<M>) -> bool {
        self.wf() && (*rhs).wf()
    }

    open spec fn add_spec(self, rhs: &ModInt<M>) -> ModInt<M> {
        ModInt::<M>::from_view(((self@) + ((*rhs)@)) % (M as int))
    }
}

impl<const M: u32> Add<ModInt<M>> for &ModInt<M> {
    type Output = ModInt<M>;

    fn add(self, rhs: ModInt<M>) -> (r: ModInt<M>) {
        *self + rhs
    }
}

impl<const M: u32> AddSpecImpl<ModInt<M>> for &ModInt<M> {
    open spec fn obeys_add_spec() -> bool {
        true
    }

    open spec fn add_req(self, rhs: ModInt<M>) -> bool {
        (*self).wf() && rhs.wf()
    }

    open spec fn add_spec(self, rhs: ModInt<M>) -> ModInt<M> {
        ModInt::<M>::from_view((((*self)@) + (rhs@)) % (M as int))
    }
}

impl<const M: u32> Add<&ModInt<M>> for &ModInt<M> {
    type Output = ModInt<M>;

    fn add(self, rhs: &ModInt<M>) -> (r: ModInt<M>) {
        *self + *rhs
    }
}

impl<const M: u32> AddSpecImpl<&ModInt<M>> for &ModInt<M> {
    open spec fn obeys_add_spec() -> bool {
        true
    }

    open spec fn add_req(self, rhs: &ModInt<M>) -> bool {
        (*self).wf() && (*rhs).wf()
    }

    open spec fn add_spec(self, rhs: &ModInt<M>) -> ModInt<M> {
        ModInt::<M>::from_view((((*self)@) + ((*rhs)@)) % (M as int))
    }
}

impl<const M: u32> Sub<&ModInt<M>> for ModInt<M> {
    type Output = ModInt<M>;

    fn sub(self, rhs: &ModInt<M>) -> (r: ModInt<M>) {
        self - *rhs
    }
}

impl<const M: u32> SubSpecImpl<&ModInt<M>> for ModInt<M> {
    open spec fn obeys_sub_spec() -> bool {
        true
    }

    open spec fn sub_req(self, rhs: &ModInt<M>) -> bool {
        self.wf() && (*rhs).wf()
    }

    open spec fn sub_spec(self, rhs: &ModInt<M>) -> ModInt<M> {
        ModInt::<M>::from_view(((self@) - ((*rhs)@)) % (M as int))
    }
}

impl<const M: u32> Sub<ModInt<M>> for &ModInt<M> {
    type Output = ModInt<M>;

    fn sub(self, rhs: ModInt<M>) -> (r: ModInt<M>) {
        *self - rhs
    }
}

impl<const M: u32> SubSpecImpl<ModInt<M>> for &ModInt<M> {
    open spec fn obeys_sub_spec() -> bool {
        true
    }

    open spec fn sub_req(self, rhs: ModInt<M>) -> bool {
        (*self).wf() && rhs.wf()
    }

    open spec fn sub_spec(self, rhs: ModInt<M>) -> ModInt<M> {
        ModInt::<M>::from_view((((*self)@) - (rhs@)) % (M as int))
    }
}

impl<const M: u32> Sub<&ModInt<M>> for &ModInt<M> {
    type Output = ModInt<M>;

    fn sub(self, rhs: &ModInt<M>) -> (r: ModInt<M>) {
        *self - *rhs
    }
}

impl<const M: u32> SubSpecImpl<&ModInt<M>> for &ModInt<M> {
    open spec fn obeys_sub_spec() -> bool {
        true
    }

    open spec fn sub_req(self, rhs: &ModInt<M>) -> bool {
        (*self).wf() && (*rhs).wf()
    }

    open spec fn sub_spec(self, rhs: &ModInt<M>) -> ModInt<M> {
        ModInt::<M>::from_view((((*self)@) - ((*rhs)@)) % (M as int))
    }
}

impl<const M: u32> Mul<&ModInt<M>> for ModInt<M> {
    type Output = ModInt<M>;

    fn mul(self, rhs: &ModInt<M>) -> (r: ModInt<M>) {
        self * *rhs
    }
}

impl<const M: u32> MulSpecImpl<&ModInt<M>> for ModInt<M> {
    open spec fn obeys_mul_spec() -> bool {
        true
    }

    open spec fn mul_req(self, rhs: &ModInt<M>) -> bool {
        self.wf() && (*rhs).wf()
    }

    open spec fn mul_spec(self, rhs: &ModInt<M>) -> ModInt<M> {
        ModInt::<M>::from_view(((self@) * ((*rhs)@)) % (M as int))
    }
}

impl<const M: u32> Mul<ModInt<M>> for &ModInt<M> {
    type Output = ModInt<M>;

    fn mul(self, rhs: ModInt<M>) -> (r: ModInt<M>) {
        *self * rhs
    }
}

impl<const M: u32> MulSpecImpl<ModInt<M>> for &ModInt<M> {
    open spec fn obeys_mul_spec() -> bool {
        true
    }

    open spec fn mul_req(self, rhs: ModInt<M>) -> bool {
        (*self).wf() && rhs.wf()
    }

    open spec fn mul_spec(self, rhs: ModInt<M>) -> ModInt<M> {
        ModInt::<M>::from_view((((*self)@) * (rhs@)) % (M as int))
    }
}

impl<const M: u32> Mul<&ModInt<M>> for &ModInt<M> {
    type Output = ModInt<M>;

    fn mul(self, rhs: &ModInt<M>) -> (r: ModInt<M>) {
        *self * *rhs
    }
}

impl<const M: u32> MulSpecImpl<&ModInt<M>> for &ModInt<M> {
    open spec fn obeys_mul_spec() -> bool {
        true
    }

    open spec fn mul_req(self, rhs: &ModInt<M>) -> bool {
        (*self).wf() && (*rhs).wf()
    }

    open spec fn mul_spec(self, rhs: &ModInt<M>) -> ModInt<M> {
        ModInt::<M>::from_view((((*self)@) * ((*rhs)@)) % (M as int))
    }
}

impl<const M: u32> Div<&ModInt<M>> for ModInt<M> {
    type Output = ModInt<M>;

    fn div(self, rhs: &ModInt<M>) -> (r: ModInt<M>) {
        self / *rhs
    }
}

impl<const M: u32> DivSpecImpl<&ModInt<M>> for ModInt<M> {
    open spec fn obeys_div_spec() -> bool {
        true
    }

    open spec fn div_req(self, rhs: &ModInt<M>) -> bool {
        self.wf() && (*rhs).wf() && gcd(((*rhs)@) as nat, M as nat) == 1
    }

    open spec fn div_spec(self, rhs: &ModInt<M>) -> ModInt<M> {
        ModInt::<M>::from_view(quotient::<M>(self@, (*rhs)@))
    }
}

impl<const M: u32> Div<ModInt<M>> for &ModInt<M> {
    type Output = ModInt<M>;

    fn div(self, rhs: ModInt<M>) -> (r: ModInt<M>) {
        *self / rhs
    }
}

impl<const M: u32> DivSpecImpl<ModInt<M>> for &ModInt<M> {
    open spec fn obeys_div_spec() -> bool {
        true
    }

    open spec fn div_req(self, rhs: ModInt<M>) -> bool {
        (*self).wf() && rhs.wf() && gcd((rhs@) as nat, M as nat) == 1
    }

    open spec fn div_spec(self, rhs: ModInt<M>) -> ModInt<M> {
        ModInt::<M>::from_view(quotient::<M>((*self)@, rhs@))
    }
}

impl<const M: u32> Div<&ModInt<M>> for &ModInt<M> {
    type Output = ModInt<M>;

    fn div(self, rhs: &ModInt<M>) -> (r: ModInt<M>) {
        *self / *rhs
    }
}

impl<const M: u32> DivSpecImpl<&ModInt<M>> for &ModInt<M> {
    open spec fn obeys_div_spec() -> bool {
        true
    }

    open spec fn div_req(self, rhs: &ModInt<M>) -> bool {
        (*self).wf() && (*rhs).wf() && gcd(((*rhs)@) as nat, M as nat) == 1
    }

    open spec fn div_spec(self, rhs: &ModInt<M>) -> ModInt<M> {
        ModInt::<M>::from_view(quotient::<M>((*self)@, (*rhs)@))
    }
}

impl<const M: u32> AddAssign for ModInt<M> {
    fn add_assign(&mut self, rhs: Self)
        ensures
            old(self).wf() && rhs.wf() ==> *final(self) == ModInt::<M>::from_view(((old(self)@) + (rhs@)) % (M as int)),
    {
        if self.val() < M && rhs.val() < M && M < 0x8000_0000 {
            *self = *self + rhs;
        }
    }
}

impl<const M: u32> SubAssign for ModInt<M> {
    fn sub_assign(&mut self, rhs: Self)
        ensures
            old(self).wf() && rhs.wf() ==> *final(self) == ModInt::<M>::from_view(((old(self)@) - (rhs@)) % (M as int)),
    {
        if self.val() < M && rhs.val() < M && M < 0x8000_0000 {
            *self = *self - rhs;
        }
    }
}

impl<const M: u32> MulAssign for ModInt<M> {
    fn mul_assign(&mut self, rhs: Self)
        ensures
            old(self).wf() && rhs.wf() ==> *final(self) == ModInt::<M>::from_view(((old(self)@) * (rhs@)) % (M as int)),
    {
        if self.val() < M && rhs.val() < M && M < 0x8000_0000 {
            *self = *self * rhs;
        }
    }
}

impl<const M: u32> DivAssign for ModInt<M> {
    /// Leaves the value unchanged when `rhs` is not a unit.
    fn div_assign(&mut self, rhs: Self)
        ensures
            old(self).wf() && rhs.wf() && gcd(rhs@ as nat, M as nat) == 1 ==> *final(self) == ModInt::<M>::from_view(quotient::<M>(old(self)@, rhs@)),
    {
        if self.val() < M && rhs.val() < M && M < 0x8000_0000 {
            let (g, _) = inv_gcd(rhs.val() as i64, M as i64);
            proof {
                vstd::arithmetic::div_mod::lemma_small_mod(rhs@ as nat, M as nat);
            }
            if g == 1 {
                *self = *self / rhs;
            }
        }
    }
}

impl<const M: u32> Add<u8> for ModInt<M> {
    type Output = ModInt<M>;

    fn add(self, rhs: u8) -> (r: ModInt<M>) {
        let n = ModInt::<M>::new(rhs);
        proof {
            assert(n@ == (rhs as int) % (M as int));
        }
        self + n
    }
}

impl<const M: u32> AddSpecImpl<u8> for ModInt<M> {
    open spec fn obeys_add_spec() -> bool {
        true
    }

    open spec fn add_req(self, rhs: u8) -> bool {
        self.wf()
    }

    open spec fn add_spec(self, rhs: u8) -> ModInt<M> {
        ModInt::<M>::from_view(((self@) + ((rhs as int) % (M as int))) % (M as int))
    }
}

impl<const M: u32> Add<u8> for &ModInt<M> {
    type Output = ModInt<M>;

    fn add(self, rhs: u8) -> (r: ModInt<M>) {
        let n = ModInt::<M>::new(rhs);
        proof {
            assert(n@ == (rhs as int) % (M as int));
        }
        *self + n
    }
}

impl<const M: u32> AddSpecImpl<u8> for &ModInt<M> {
    open spec fn obeys_add_spec() -> bool {
        true
    }

    open spec fn add_req(self, rhs: u8) -> bool {
        (*self).wf()
    }

    open spec fn add_spec(self, rhs: u8) -> ModInt<M> {
        ModInt::<M>::from_view((((*self)@) + ((rhs as int) % (M as int))) % (M as int))
    }
}

impl<const M: u32> Add<ModInt<M>> for u8 {
    type Output = ModInt<M>;

    fn add(self, rhs: ModInt<M>) -> (r: ModInt<M>) {
        let n = ModInt::<M>::new(self);
        proof {
            assert(n@ == (self as int) % (M as int));
        }
        n + rhs
    }
}

impl<const M: u32> AddSpecImpl<ModInt<M>> for u8 {
    open spec fn obeys_add_spec() -> bool {
        true
    }

    open spec fn add_req(self, rhs: ModInt<M>) -> bool {
        rhs.wf()
    }

    open spec fn add_spec(self, rhs: ModInt<M>) -> ModInt<M> {
        ModInt::<M>::from_view((((self as int) % (M as int)) + (rhs@)) % (M as int))
    }
}

impl<const M: u32> Add<&ModInt<M>> for u8 {
    type Output = ModInt<M>;

    fn add(self, rhs: &ModInt<M>) -> (r: ModInt<M>) {
        let n = ModInt::<M>::new(self);
        proof {
            assert(n@ == (self as int) % (M as int));
        }
        n + *rhs
    }
}

impl<const M: u32> AddSpecImpl<&ModInt<M>> for u8 {
    open spec fn obeys_add_spec() -> bool {
        true
    }

    open spec fn add_req(self, rhs: &ModInt<M>) -> bool {
        (*rhs).wf()
    }

    open spec fn add_spec(self, rhs: &ModInt<M>) -> ModInt<M> {
        ModInt::<M>::from_view((((self as int) % (M as int)) + ((*rhs)@)) % (M as int))
    }
}

impl<const M: u32> AddAssign<u8> for ModInt<M> {
    fn add_assign(&mut self, rhs: u8)
        ensures
            old(self).wf() ==> *final(self) == ModInt::<M>::from_view(((old(self)@) + ((rhs as int) % (M as int))) % (M as int)),
    {
        if self.val() < M && M < 0x8000_0000 {
            let d = ModInt::<M>::new(rhs);
            *self = *self + d;
        }
    }
}

impl<const M: u32> Sub<u8> for ModInt<M> {
    type Output = ModInt<M>;

    fn sub(self, rhs: u8) -> (r: ModInt<M>) {
        let n = ModInt::<M>::new(rhs);
        proof {
            assert(n@ == (rhs as int) % (M as int));
        }
        self - n
    }
}

impl<const M: u32> SubSpecImpl<u8> for ModInt<M> {
    open spec fn obeys_sub_spec() -> bool {
        true
    }

    open spec fn sub_req(self, rhs: u8) -> bool {
        self.wf()
    }

    open spec fn sub_spec(self, rhs: u8) -> ModInt<M> {
        ModInt::<M>::from_view(((self@) - ((rhs as int) % (M as int))) % (M as int))
    }
}

impl<const M: u32> Sub<u8> for &ModInt<M> {
    type Output = ModInt<M>;

    fn sub(self, rhs: u8) -> (r: ModInt<M>) {
        let n = ModInt::<M>::new(rhs);
        proof {
            assert(n@ == (rhs as int) % (M as int));
        }
        *self - n
    }
}

impl<const M: u32> SubSpecImpl<u8> for &ModInt<M> {
    open spec fn obeys_sub_spec() -> bool {
        true
    }

    open spec fn sub_req(self, rhs: u8) -> bool {
        (*self).wf()
    }

    open spec fn sub_spec(self, rhs: u8) -> ModInt<M> {
        ModInt::<M>::from_view((((*self)@) - ((rhs as int) % (M as int))) % (M as int))
    }
}

impl<const M: u32> Sub<ModInt<M>> for u8 {
    type Output = ModInt<M>;

    fn sub(self, rhs: ModInt<M>) -> (r: ModInt<M>) {
        let n = ModInt::<M>::new(self);
        proof {
            assert(n@ == (self as int) % (M as int));
        }
        n - rhs
    }
}

impl<const M: u32> SubSpecImpl<ModInt<M>> for u8 {
    open spec fn obeys_sub_spec() -> bool {
        true
    }

    open spec fn sub_req(self, rhs: ModInt<M>) -> bool {
        rhs.wf()
    }

    open spec fn sub_spec(self, rhs: ModInt<M>) -> ModInt<M> {
        ModInt::<M>::from_view((((self as int) % (M as int)) - (rhs@)) % (M as int))
    }
}

impl<const M: u32> Sub<&ModInt<M>> for u8 {
    type Output = ModInt<M>;

    fn sub(self, rhs: &ModInt<M>) -> (r: ModInt<M>) {
        let n = ModInt::<M>::new(self);
        proof {
            assert(n@ == (self as int) % (M as int));
        }
        n - *rhs
    }
}

impl<const M: u32> SubSpecImpl<&ModInt<M>> for u8 {
    open spec fn obeys_sub_spec() -> bool {
        true
    }

    open spec fn sub_req(self, rhs: &ModInt<M>) -> bool {
        (*rhs).wf()
    }

    open spec fn sub_spec(self, rhs: &ModInt<M>) -> ModInt<M> {
        ModInt::<M>::from_view((((self as int) % (M as int)) - ((*rhs)@)) % (M as int))
    }
}

impl<const M: u32> SubAssign<u8> for ModInt<M> {
    fn sub_assign(&mut self, rhs: u8)
        ensures
            old(self).wf() ==> *final(self) == ModInt::<M>::from_view(((old(self)@) - ((rhs as int) % (M as int))) % (M as int)),
    {
        if self.val() < M && M < 0x8000_0000 {
            let d = ModInt::<M>::new(rhs);
            *self = *self - d;
        }
    }
}

impl<const M: u32> Mul<u8> for ModInt<M> {
    type Output = ModInt<M>;

    fn mul(self, rhs: u8) -> (r: ModInt<M>) {
        let n = ModInt::<M>::new(rhs);
        proof {
            assert(n@ == (rhs as int) % (M as int));
            assert(self@ * n@ == self@ * ((rhs as int) % (M as int)));
        }
        self * n
    }
}

impl<const M: u32> MulSpecImpl<u8> for ModInt<M> {
    open spec fn obeys_mul_spec() -> bool {
        true
    }

    open spec fn mul_req(self, rhs: u8) -> bool {
        self.wf()
    }

    open spec fn mul_spec(self, rhs: u8) -> ModInt<M> {
        ModInt::<M>::from_view(((self@) * ((rhs as int) % (M as int))) % (M as int))
    }
}

impl<const M: u32> Mul<u8> for &ModInt<M> {
    type Output = ModInt<M>;

    fn mul(self, rhs: u8) -> (r: ModInt<M>) {
        let n = ModInt::<M>::new(rhs);
        proof {
            assert(n@ == (rhs as int) % (M as int));
            assert((*self)@ * n@ == (*self)@ * ((rhs as int) % (M as int)));
        }
        *self * n
    }
}

impl<const M: u32> MulSpecImpl<u8> for &ModInt<M> {
    open spec fn obeys_mul_spec() -> bool {
        true
    }

    open spec fn mul_req(self, rhs: u8) -> bool {
        (*self).wf()
    }

    open spec fn mul_spec(self, rhs: u8) -> ModInt<M> {
        ModInt::<M>::from_view((((*self)@) * ((rhs as int) % (M as int))) % (M as int))
    }
}

impl<const M: u32> Mul<ModInt<M>> for u8 {
    type Output = ModInt<M>;

    fn mul(self, rhs: ModInt<M>) -> (r: ModInt<M>) {
        let n = ModInt::<M>::new(self);
        proof {
            assert(n@ == (self as int) % (M as int));
            assert(n@ * rhs@ == ((self as int) % (M as int)) * rhs@);
        }
        n * rhs
    }
}

impl<const M: u32> MulSpecImpl<ModInt<M>> for u8 {
    open spec fn obeys_mul_spec() -> bool {
        true
    }

    open spec fn mul_req(self, rhs: ModInt<M>) -> bool {
        rhs.wf()
    }

    open spec fn mul_spec(self, rhs: ModInt<M>) -> ModInt<M> {
        ModInt::<M>::from_view((((self as int) % (M as int)) * (rhs@)) % (M as int))
    }
}

impl<const M: u32> Mul<&ModInt<M>> for u8 {
    type Output = ModInt<M>;

    fn mul(self, rhs: &ModInt<M>) -> (r: ModInt<M>) {
        let n = ModInt::<M>::new(self);
        proof {
            assert(n@ == (self as int) % (M as int));
            assert(n@ * (*rhs)@ == ((self as int) % (M as int)) * (*rhs)@);
        }
        n * *rhs
    }
}

impl<const M: u32> MulSpecImpl<&ModInt<M>> for u8 {
    open spec fn obeys_mul_spec() -> bool {
        true
    }

    open spec fn mul_req(self, rhs: &ModInt<M>) -> bool {
        (*rhs).wf()
    }

    open spec fn mul_spec(self, rhs: &ModInt<M>) -> ModInt<M> {
        ModInt::<M>::from_view((((self as int) % (M as int)) * ((*rhs)@)) % (M as int))
    }
}

impl<const M: u32> MulAssign<u8> for ModInt<M> {
    fn mul_assign(&mut self, rhs: u8)
        ensures
            old(self).wf() ==> *final(self) == ModInt::<M>::from_view(((old(self)@) * ((rhs as int) % (M as int))) % (M as int)),
    {
        if self.val() < M && M < 0x8000_0000 {
            let d = ModInt::<M>::new(rhs);
            *self = *self * d;
        }
    }
}

impl<const M: u32> Div<u8> for ModInt<M> {
    type Output = ModInt<M>;

    fn div(self, rhs: u8) -> (r: ModInt<M>) {
        let n = ModInt::<M>::new(rhs);
        proof {
            assert(n@ == (rhs as int) % (M as int));
        }
        self / n
    }
}

impl<const M: u32> DivSpecImpl<u8> for ModInt<M> {
    open spec fn obeys_div_spec() -> bool {
        true
    }

    open spec fn div_req(self, rhs: u8) -> bool {
        self.wf() && gcd(((rhs as int) % (M as int)) as nat, M as nat) == 1
    }

    open spec fn div_spec(self, rhs: u8) -> ModInt<M> {
        ModInt::<M>::from_view(quotient::<M>(self@, (rhs as int) % (M as int)))
    }
}

impl<const M: u32> Div<u8> for &ModInt<M> {
    type Output = ModInt<M>;

    fn div(self, rhs: u8) -> (r: ModInt<M>) {
        let n = ModInt::<M>::new(rhs);
        proof {
            assert(n@ == (rhs as int) % (M as int));
        }
        *self / n
    }
}

impl<const M: u32> DivSpecImpl<u8> for &ModInt<M> {
    open spec fn obeys_div_spec() -> bool {
        true
    }

    open spec fn div_req(self, rhs: u8) -> bool {
        (*self).wf() && gcd(((rhs as int) % (M as int)) as nat, M as nat) == 1
    }

    open spec fn div_spec(self, rhs: u8) -> ModInt<M> {
        ModInt::<M>::from_view(quotient::<M>((*self)@, (rhs as int) % (M as int)))
    }
}

impl<const M: u32> Div<ModInt<M>> for u8 {
    type Output = ModInt<M>;

    fn div(self, rhs: ModInt<M>) -> (r: ModInt<M>) {
        let n = ModInt::<M>::new(self);
        proof {
            assert(n@ == (self as int) % (M as int));
        }
        n / rhs
    }
}

impl<const M: u32> DivSpecImpl<ModInt<M>> for u8 {
    open spec fn obeys_div_spec() -> bool {
        true
    }

    open spec fn div_req(self, rhs: ModInt<M>) -> bool {
        rhs.wf() && gcd((rhs@) as nat, M as nat) == 1
    }

    open spec fn div_spec(self, rhs: ModInt<M>) -> ModInt<M> {
        ModInt::<M>::from_view(quotient::<M>((self as int) % (M as int), rhs@))
    }
}

impl<const M: u32> Div<&ModInt<M>> for u8 {
    type Output = ModInt<M>;

    fn div(self, rhs: &ModInt<M>) -> (r: ModInt<M>) {
        let n = ModInt::<M>::new(self);
        proof {
            assert(n@ == (self as int) % (M as int));
        }
        n / *rhs
    }
}

impl<const M: u32> DivSpecImpl<&ModInt<M>> for u8 {
    open spec fn obeys_div_spec() -> bool {
        true
    }

    open spec fn div_req(self, rhs: &ModInt<M>) -> bool {
        (*rhs).wf() && gcd(((*rhs)@) as nat, M as nat) == 1
    }

    open spec fn div_spec(self, rhs: &ModInt<M>) -> ModInt<M> {
        ModInt::<M>::from_view(quotient::<M>((self as int) % (M as int), (*rhs)@))
    }
}

impl<const M: u32> DivAssign<u8> for ModInt<M> {
    /// Leaves the value unchanged when `rhs` is not a unit.
    fn div_assign(&mut self, rhs: u8)
        ensures
            old(self).wf() && gcd(((rhs as int) % (M as int)) as nat, M as nat) == 1 ==> *final(self) == ModInt::<M>::from_view(quotient::<M>(old(self)@, (rhs as int) % (M as int))),
    {
        if self.val() < M && M < 0x8000_0000 {
            let d = ModInt::<M>::new(rhs);
            let (g, _) = inv_gcd(d.val() as i64, M as i64);
            proof {
                vstd::arithmetic::div_mod::lemma_small_mod(d@ as nat, M as nat);
            }
            if g == 1 {
                *self = *self / d;
            }
        }
    }
}

impl<const M: u32> Add<u16> for ModInt<M> {
    type Output = ModInt<M>;

    fn add(self, rhs: u16) -> (r: ModInt<M>) {
        let n = ModInt::<M>::new(rhs);
        proof {
            assert(n@ == (rhs as int) % (M as int));
        }
        self + n
    }
}

impl<const M: u32> AddSpecImpl<u16> for ModInt<M> {
    open spec fn obeys_add_spec() -> bool {
        true
    }

    open spec fn add_req(self, rhs: u16) -> bool {
        self.wf()
    }

    open spec fn add_spec(self, rhs: u16) -> ModInt<M> {
        ModInt::<M>::from_view(((self@) + ((rhs as int) % (M as int))) % (M as int))
    }
}

impl<const M: u32> Add<u16> for &ModInt<M> {
    type Output = ModInt<M>;

    fn add(self, rhs: u16) -> (r: ModInt<M>) {
        let n = ModInt::<M>::new(rhs);
        proof {
            assert(n@ == (rhs as int) % (M as int));
        }
        *self + n
    }
}

impl<const M: u32> AddSpecImpl<u16> for &ModInt<M> {
    open spec fn obeys_add_spec() -> bool {
        true
    }

    open spec fn add_req(self, rhs: u16) -> bool {
        (*self).wf()
    }

    open spec fn add_spec(self, rhs: u16) -> ModInt<M> {
        ModInt::<M>::from_view((((*self)@) + ((rhs as int) % (M as int))) % (M as int))
    }
}

impl<const M: u32> Add<ModInt<M>> for u16 {
    type Output = ModInt<M>;

    fn add(self, rhs: ModInt<M>) -> (r: ModInt<M>) {
        let n = ModInt::<M>::new(self);
        proof {
            assert(n@ == (self as int) % (M as int));
        }
        n + rhs
    }
}

impl<const M: u32> AddSpecImpl<ModInt<M>> for u16 {
    open spec fn obeys_add_spec() -> bool {
        true
    }

    open spec fn add_req(self, rhs: ModInt<M>) -> bool {
        rhs.wf()
    }

    open spec fn add_spec(self, rhs: ModInt<M>) -> ModInt<M> {
        ModInt::<M>::from_view((((self as int) % (M as int)) + (rhs@)) % (M as int))
    }
}

impl<const M: u32> Add<&ModInt<M>> for u16 {
    type Output = ModInt<M>;

    fn add(self, rhs: &ModInt<M>) -> (r: ModInt<M>) {
        let n = ModInt::<M>::new(self);
        proof {
            assert(n@ == (self as int) % (M as int));
        }
        n + *rhs
    }
}

impl<const M: u32> AddSpecImpl<&ModInt<M>> for u16 {
    open spec fn obeys_add_spec() -> bool {
        true
    }

    open spec fn add_req(self, rhs: &ModInt<M>) -> bool {
        (*rhs).wf()
    }

    open spec fn add_spec(self, rhs: &ModInt<M>) -> ModInt<M> {
        ModInt::<M>::from_view((((self as int) % (M as int)) + ((*rhs)@)) % (M as int))
    }
}

impl<const M: u32> AddAssign<u16> for ModInt<M> {
    fn add_assign(&mut self, rhs: u16)
        ensures
            old(self).wf() ==> *final(self) == ModInt::<M>::from_view(((old(self)@) + ((rhs as int) % (M as int))) % (M as int)),
    {
        if self.val() < M && M < 0x8000_0000 {
            let d = ModInt::<M>::new(rhs);
            *self = *self + d;
        }
    }
}

impl<const M: u32> Sub<u16> for ModInt<M> {
    type Output = ModInt<M>;

    fn sub(self, rhs: u16) -> (r: ModInt<M>) {
        let n = ModInt::<M>::new(rhs);
        proof {
            assert(n@ == (rhs as int) % (M as int));
        }
        self - n
    }
}

impl<const M: u32> SubSpecImpl<u16> for ModInt<M> {
    open spec fn obeys_sub_spec() -> bool {
        true
    }

    open spec fn sub_req(self, rhs: u16) -> bool {
        self.wf()
    }

    open spec fn sub_spec(self, rhs: u16) -> ModInt<M> {
        ModInt::<M>::from_view(((self@) - ((rhs as int) % (M as int))) % (M as int))
    }
}

impl<const M: u32> Sub<u16> for &ModInt<M> {
    type Output = ModInt<M>;

    fn sub(self, rhs: u16) -> (r: ModInt<M>) {
        let n = ModInt::<M>::new(rhs);
        proof {
            assert(n@ == (rhs as int) % (M as int));
        }
        *self - n
    }
}

impl<const M: u32> SubSpecImpl<u16> for &ModInt<M> {
    open spec fn obeys_sub_spec() -> bool {
        true
    }

    open spec fn sub_req(self, rhs: u16) -> bool {
        (*self).wf()
    }

    open spec fn sub_spec(self, rhs: u16) -> ModInt<M> {
        ModInt::<M>::from_view((((*self)@) - ((rhs as int) % (M as int))) % (M as int))
    }
}

impl<const M: u32> Sub<ModInt<M>> for u16 {
    type Output = ModInt<M>;

    fn sub(self, rhs: ModInt<M>) -> (r: ModInt<M>) {
        let n = ModInt::<M>::new(self);
        proof {
            assert(n@ == (self as int) % (M as int));
        }
        n - rhs
    }
}

impl<const M: u32> SubSpecImpl<ModInt<M>> for u16 {
    open spec fn obeys_sub_spec() -> bool {
        true
    }

    open spec fn sub_req(self, rhs: ModInt<M>) -> bool {
        rhs.wf()
    }

    open spec fn sub_spec(self, rhs: ModInt<M>) -> ModInt<M> {
        ModInt::<M>::from_view((((self as int) % (M as int)) - (rhs@)) % (M as int))
    }
}

impl<const M: u32> Sub<&ModInt<M>> for u16 {
    type Output = ModInt<M>;

    fn sub(self, rhs: &ModInt<M>) -> (r: ModInt<M>) {
        let n = ModInt::<M>::new(self);
        proof {
            assert(n@ == (self as int) % (M as int));
        }
        n - *rhs
    }
}

impl<const M: u32> SubSpecImpl<&ModInt<M>> for u16 {
    open spec fn obeys_sub_spec() -> bool {
        true
    }

    open spec fn sub_req(self, rhs: &ModInt<M>) -> bool {
        (*rhs).wf()
    }

    open spec fn sub_spec(self, rhs: &ModInt<M>) -> ModInt<M> {
        ModInt::<M>::from_view((((self as int) % (M as int)) - ((*rhs)@)) % (M as int))
    }
}

impl<const M: u32> SubAssign<u16> for ModInt<M> {
    fn sub_assign(&mut self, rhs: u16)
        ensures
            old(self).wf() ==> *final(self) == ModInt::<M>::from_view(((old(self)@) - ((rhs as int) % (M as int))) % (M as int)),
    {
        if self.val() < M && M < 0x8000_0000 {
            let d = ModInt::<M>::new(rhs);
            *self = *self - d;
        }
    }
}

impl<const M: u32> Mul<u16> for ModInt<M> {
    type Output = ModInt<M>;

    fn mul(self, rhs: u16) -> (r: ModInt<M>) {
        let n = ModInt::<M>::new(rhs);
        proof {
            assert(n@ == (rhs as int) % (M as int));
            assert(self@ * n@ == self@ * ((rhs as int) % (M as int)));
        }
        self * n
    }
}

impl<const M: u32> MulSpecImpl<u16> for ModInt<M> {
    open spec fn obeys_mul_spec() -> bool {
        true
    }

    open spec fn mul_req(self, rhs: u16) -> bool {
        self.wf()
    }

    open spec fn mul_spec(self, rhs: u16) -> ModInt<M> {
        ModInt::<M>::from_view(((self@) * ((rhs as int) % (M as int))) % (M as int))
    }
}

impl<const M: u32> Mul<u16> for &ModInt<M> {
    type Output = ModInt<M>;

    fn mul(self, rhs: u16) -> (r: ModInt<M>) {
        let n = ModInt::<M>::new(rhs);
        proof {
            assert(n@ == (rhs as int) % (M as int));
            assert((*self)@ * n@ == (*self)@ * ((rhs as int) % (M as int)));
        }
        *self * n
    }
}

impl<const M: u32> MulSpecImpl<u16> for &ModInt<M> {
    open spec fn obeys_mul_spec() -> bool {
        true
    }

    open spec fn mul_req(self, rhs: u16) -> bool {
        (*self).wf()
    }

    open spec fn mul_spec(self, rhs: u16) -> ModInt<M> {
        ModInt::<M>::from_view((((*self)@) * ((rhs as int) % (M as int))) % (M as int))
    }
}

impl<const M: u32> Mul<ModInt<M>> for u16 {
    type Output = ModInt<M>;

    fn mul(self, rhs: ModInt<M>) -> (r: ModInt<M>) {
        let n = ModInt::<M>::new(self);
        proof {
            assert(n@ == (self as int) % (M as int));
            assert(n@ * rhs@ == ((self as int) % (M as int)) * rhs@);
        }
        n * rhs
    }
}

impl<const M: u32> MulSpecImpl<ModInt<M>> for u16 {
    open spec fn obeys_mul_spec() -> bool {
        true
    }

    open spec fn mul_req(self, rhs: ModInt<M>) -> bool {
        rhs.wf()
    }

    open spec fn mul_spec(self, rhs: ModInt<M>) -> ModInt<M> {
        ModInt::<M>::from_view((((self as int) % (M as int)) * (rhs@)) % (M as int))
    }
}

impl<const M: u32> Mul<&ModInt<M>> for u16 {
    type Output = ModInt<M>;

    fn mul(self, rhs: &ModInt<M>) -> (r: ModInt<M>) {
        let n = ModInt::<M>::new(self);
        proof {
            assert(n@ == (self as int) % (M as int));
            assert(n@ * (*rhs)@ == ((self as int) % (M as int)) * (*rhs)@);
        }
        n * *rhs
    }
}

impl<const M: u32> MulSpecImpl<&ModInt<M>> for u16 {
    open spec fn obeys_mul_spec() -> bool {
        true
    }

    open spec fn mul_req(self, rhs: &ModInt<M>) -> bool {
        (*rhs).wf()
    }

    open spec fn mul_spec(self, rhs: &ModInt<M>) -> ModInt<M> {
        ModInt::<M>::from_view((((self as int) % (M as int)) * ((*rhs)@)) % (M as int))
    }
}

impl<const M: u32> MulAssign<u16> for ModInt<M> {
    fn mul_assign(&mut self, rhs: u16)
        ensures
            old(self).wf() ==> *final(self) == ModInt::<M>::from_view(((old(self)@) * ((rhs as int) % (M as int))) % (M as int)),
    {
        if self.val() < M && M < 0x8000_0000 {
            let d = ModInt::<M>::new(rhs);
            *self = *self * d;
        }
    }
}

impl<const M: u32> Div<u16> for ModInt<M> {
    type Output = ModInt<M>;

    fn div(self, rhs: u16) -> (r: ModInt<M>) {
        let n = ModInt::<M>::new(rhs);
        proof {
            assert(n@ == (rhs as int) % (M as int));
        }
        self / n
    }
}

impl<const M: u32> DivSpecImpl<u16> for ModInt<M> {
    open spec fn obeys_div_spec() -> bool {
        true
    }

    open spec fn div_req(self, rhs: u16) -> bool {
        self.wf() && gcd(((rhs as int) % (M as int)) as nat, M as nat) == 1
    }

    open spec fn div_spec(self, rhs: u16) -> ModInt<M> {
        ModInt::<M>::from_view(quotient::<M>(self@, (rhs as int) % (M as int)))
    }
}

impl<const M: u32> Div<u16> for &ModInt<M> {
    type Output = ModInt<M>;

    fn div(self, rhs: u16) -> (r: ModInt<M>) {
        let n = ModInt::<M>::new(rhs);
        proof {
            assert(n@ == (rhs as int) % (M as int));
        }
        *self / n
    }
}

impl<const M: u32> DivSpecImpl<u16> for &ModInt<M> {
    open spec fn obeys_div_spec() -> bool {
        true
    }

    open spec fn div_req(self, rhs: u16) -> bool {
        (*self).wf() && gcd(((rhs as int) % (M as int)) as nat, M as nat) == 1
    }

    open spec fn div_spec(self, rhs: u16) -> ModInt<M> {
        ModInt::<M>::from_view(quotient::<M>((*self)@, (rhs as int) % (M as int)))
    }
}

impl<const M: u32> Div<ModInt<M>> for u16 {
    type Output = ModInt<M>;

    fn div(self, rhs: ModInt<M>) -> (r: ModInt<M>) {
        let n = ModInt::<M>::new(self);
        proof {
            assert(n@ == (self as int) % (M as int));
        }
        n / rhs
    }
}

impl<const M: u32> DivSpecImpl<ModInt<M>> for u16 {
    open spec fn obeys_div_spec() -> bool {
        true
    }

    open spec fn div_req(self, rhs: ModInt<M>) -> bool {
        rhs.wf() && gcd((rhs@) as nat, M as nat) == 1
    }

    open spec fn div_spec(self, rhs: ModInt<M>) -> ModInt<M> {
        ModInt::<M>::from_view(quotient::<M>((self as int) % (M as int), rhs@))
    }
}

impl<const M: u32> Div<&ModInt<M>> for u16 {
    type Output = ModInt<M>;

    fn div(self, rhs: &ModInt<M>) -> (r: ModInt<M>) {
        let n = ModInt::<M>::new(self);
        proof {
            assert(n@ == (self as int) % (M as int));
        }
        n / *rhs
    }
}

impl<const M: u32> DivSpecImpl<&ModInt<M>> for u16 {
    open spec fn obeys_div_spec() -> bool {
        true
    }

    open spec fn div_req(self, rhs: &ModInt<M>) -> bool {
        (*rhs).wf() && gcd(((*rhs)@) as nat, M as nat) == 1
    }

    open spec fn div_spec(self, rhs: &ModInt<M>) -> ModInt<M> {
        ModInt::<M>::from_view(quotient::<M>((self as int) % (M as int), (*rhs)@))
    }
}

impl<const M: u32> DivAssign<u16> for ModInt<M> {
    /// Leaves the value unchanged when `rhs` is not a unit.
    fn div_assign(&mut self, rhs: u16)
        ensures
            old(self).wf() && gcd(((rhs as int) % (M as int)) as nat, M as nat) == 1 ==> *final(self) == ModInt::<M>::from_view(quotient::<M>(old(self)@, (rhs as int) % (M as int))),
    {
        if self.val() < M && M < 0x8000_0000 {
            let d = ModInt::<M>::new(rhs);
            let (g, _) = inv_gcd(d.val() as i64, M as i64);
            proof {
                vstd::arithmetic::div_mod::lemma_small_mod(d@ as nat, M as nat);
            }
            if g == 1 {
                *self = *self / d;
            }
        }
    }
}

impl<const M: u32> Add<u32> for ModInt<M> {
    type Output = ModInt<M>;

    fn add(self, rhs: u32) -> (r: ModInt<M>) {
        let n = ModInt::<M>::new(rhs);
        proof {
            assert(n@ == (rhs as int) % (M as int));
        }
        self + n
    }
}

impl<const M: u32> AddSpecImpl<u32> for ModInt<M> {
    open spec fn obeys_add_spec() -> bool {
        true
    }

    open spec fn add_req(self, rhs: u32) -> bool {
        self.wf()
    }

    open spec fn add_spec(self, rhs: u32) -> ModInt<M> {
        ModInt::<M>::from_view(((self@) + ((rhs as int) % (M as int))) % (M as int))
    }
}

impl<const M: u32> Add<u32> for &ModInt<M> {
    type Output = ModInt<M>;

    fn add(self, rhs: u32) -> (r: ModInt<M>) {
        let n = ModInt::<M>::new(rhs);
        proof {
            assert(n@ == (rhs as int) % (M as int));
        }
        *self + n
    }
}

impl<const M: u32> AddSpecImpl<u32> for &ModInt<M> {
    open spec fn obeys_add_spec() -> bool {
        true
    }

    open spec fn add_req(self, rhs: u32) -> bool {
        (*self).wf()
    }

    open spec fn add_spec(self, rhs: u32) -> ModInt<M> {
        ModInt::<M>::from_view((((*self)@) + ((rhs as int) % (M as int))) % (M as int))
    }
}

impl<const M: u32> Add<ModInt<M>> for u32 {
    type Output = ModInt<M>;

    fn add(self, rhs: ModInt<M>) -> (r: ModInt<M>) {
        let n = ModInt::<M>::new(self);
        proof {
            assert(n@ == (self as int) % (M as int));
        }
        n + rhs
    }
}

impl<const M: u32> AddSpecImpl<ModInt<M>> for u32 {
    open spec fn obeys_add_spec() -> bool {
        true
    }

    open spec fn add_req(self, rhs: ModInt<M>) -> bool {
        rhs.wf()
    }

    open spec fn add_spec(self, rhs: ModInt<M>) -> ModInt<M> {
        ModInt::<M>::from_view((((self as int) % (M as int)) + (rhs@)) % (M as int))
    }
}

impl<const M: u32> Add<&ModInt<M>> for u32 {
    type Output = ModInt<M>;

    fn add(self, rhs: &ModInt<M>) -> (r: ModInt<M>) {
        let n = ModInt::<M>::new(self);
        proof {
            assert(n@ == (self as int) % (M as int));
        }
        n + *rhs
    }
}

impl<const M: u32> AddSpecImpl<&ModInt<M>> for u32 {
    open spec fn obeys_add_spec() -> bool {
        true
    }

    open spec fn add_req(self, rhs: &ModInt<M>) -> bool {
        (*rhs).wf()
    }

    open spec fn add_spec(self, rhs: &ModInt<M>) -> ModInt<M> {
        ModInt::<M>::from_view((((self as int) % (M as int)) + ((*rhs)@)) % (M as int))
    }
}

impl<const M: u32> AddAssign<u32> for ModInt<M> {
    fn add_assign(&mut self, rhs: u32)
        ensures
            old(self).wf() ==> *final(self) == ModInt::<M>::from_view(((old(self)@) + ((rhs as int) % (M as int))) % (M as int)),
    {
        if self.val() < M && M < 0x8000_0000 {
            let d = ModInt::<M>::new(rhs);
            *self = *self + d;
        }
    }
}

impl<const M: u32> Sub<u32> for ModInt<M> {
    type Output = ModInt<M>;

    fn sub(self, rhs: u32) -> (r: ModInt<M>) {
        let n = ModInt::<M>::new(rhs);
        proof {
            assert(n@ == (rhs as int) % (M as int));
        }
        self - n
    }
}

impl<const M: u32> SubSpecImpl<u32> for ModInt<M> {
    open spec fn obeys_sub_spec() -> bool {
        true
    }

    open spec fn sub_req(self, rhs: u32) -> bool {
        self.wf()
    }

    open spec fn sub_spec(self, rhs: u32) -> ModInt<M> {
        ModInt::<M>::from_view(((self@) - ((rhs as int) % (M as int))) % (M as int))
    }
}

impl<const M: u32> Sub<u32> for &ModInt<M> {
    type Output = ModInt<M>;

    fn sub(self, rhs: u32) -> (r: ModInt<M>) {
        let n = ModInt::<M>::new(rhs);
        proof {
            assert(n@ == (rhs as int) % (M as int));
        }
        *self - n
    }
}

impl<const M: u32> SubSpecImpl<u32> for &ModInt<M> {
    open spec fn obeys_sub_spec() -> bool {
        true
    }

    open spec fn sub_req(self, rhs: u32) -> bool {
        (*self).wf()
    }

    open spec fn sub_spec(self, rhs: u32) -> ModInt<M> {
        ModInt::<M>::from_view((((*self)@) - ((rhs as int) % (M as int))) % (M as int))
    }
}

impl<const M: u32> Sub<ModInt<M>> for u32 {
    type Output = ModInt<M>;

    fn sub(self, rhs: ModInt<M>) -> (r: ModInt<M>) {
        let n = ModInt::<M>::new(self);
        proof {
            assert(n@ == (self as int) % (M as int));
        }
        n - rhs
    }
}

impl<const M: u32> SubSpecImpl<ModInt<M>> for u32 {
    open spec fn obeys_sub_spec() -> bool {
        true
    }

    open spec fn sub_req(self, rhs: ModInt<M>) -> bool {
        rhs.wf()
    }

    open spec fn sub_spec(self, rhs: ModInt<M>) -> ModInt<M> {
        ModInt::<M>::from_view((((self as int) % (M as int)) - (rhs@)) % (M as int))
    }
}

impl<const M: u32> Sub<&ModInt<M>> for u32 {
    type Output = ModInt<M>;

    fn sub(self, rhs: &ModInt<M>) -> (r: ModInt<M>) {
        let n = ModInt::<M>::new(self);
        proof {
            assert(n@ == (self as int) % (M as int));
        }
        n - *rhs
    }
}

impl<const M: u32> SubSpecImpl<&ModInt<M>> for u32 {
    open spec fn obeys_sub_spec() -> bool {
        true
    }

    open spec fn sub_req(self, rhs: &ModInt<M>) -> bool {
        (*rhs).wf()
    }

    open spec fn sub_spec(self, rhs: &ModInt<M>) -> ModInt<M> {
        ModInt::<M>::from_view((((self as int) % (M as int)) - ((*rhs)@)) % (M as int))
    }
}

impl<const M: u32> SubAssign<u32> for ModInt<M> {
    fn sub_assign(&mut self, rhs: u32)
        ensures
            old(self).wf() ==> *final(self) == ModInt::<M>::from_view(((old(self)@) - ((rhs as int) % (M as int))) % (M as int)),
    {
        if self.val() < M && M < 0x8000_0000 {
            let d = ModInt::<M>::new(rhs);
            *self = *self - d;
        }
    }
}

impl<const M: u32> Mul<u32> for ModInt<M> {
    type Output = ModInt<M>;

    fn mul(self, rhs: u32) -> (r: ModInt<M>) {
        let n = ModInt::<M>::new(rhs);
        proof {
            assert(n@ == (rhs as int) % (M as int));
            assert(self@ * n@ == self@ * ((rhs as int) % (M as int)));
        }
        self * n
    }
}

impl<const M: u32> MulSpecImpl<u32> for ModInt<M> {
    open spec fn obeys_mul_spec() -> bool {
        true
    }

    open spec fn mul_req(self, rhs: u32) -> bool {
        self.wf()
    }

    open spec fn mul_spec(self, rhs: u32) -> ModInt<M> {
        ModInt::<M>::from_view(((self@) * ((rhs as int) % (M as int))) % (M as int))
    }
}

impl<const M: u32> Mul<u32> for &ModInt<M> {
    type Output = ModInt<M>;

    fn mul(self, rhs: u32) -> (r: ModInt<M>) {
        let n = ModInt::<M>::new(rhs);
        proof {
            assert(n@ == (rhs as int) % (M as int));
            assert((*self)@ * n@ == (*self)@ * ((rhs as int) % (M as int)));
        }
        *self * n
    }
}

impl<const M: u32> MulSpecImpl<u32> for &ModInt<M> {
    open spec fn obeys_mul_spec() -> bool {
        true
    }

    open spec fn mul_req(self, rhs: u32) -> bool {
        (*self).wf()
    }

    open spec fn mul_spec(self, rhs: u32) -> ModInt<M> {
        ModInt::<M>::from_view((((*self)@) * ((rhs as int) % (M as int))) % (M as int))
    }
}

impl<const M: u32> Mul<ModInt<M>> for u32 {
    type Output = ModInt<M>;

    fn mul(self, rhs: ModInt<M>) -> (r: ModInt<M>) {
        let n = ModInt::<M>::new(self);
        proof {
            assert(n@ == (self as int) % (M as int));
            assert(n@ * rhs@ == ((self as int) % (M as int)) * rhs@);
        }
        n * rhs
    }
}

impl<const M: u32> MulSpecImpl<ModInt<M>> for u32 {
    open spec fn obeys_mul_spec() -> bool {
        true
    }

    open spec fn mul_req(self, rhs: ModInt<M>) -> bool {
        rhs.wf()
    }

    open spec fn mul_spec(self, rhs: ModInt<M>) -> ModInt<M> {
        ModInt::<M>::from_view((((self as int) % (M as int)) * (rhs@)) % (M as int))
    }
}

impl<const M: u32> Mul<&ModInt<M>> for u32 {
    type Output = ModInt<M>;

    fn mul(self, rhs: &ModInt<M>) -> (r: ModInt<M>) {
        let n = ModInt::<M>::new(self);
        proof {
            assert(n@ == (self as int) % (M as int));
            assert(n@ * (*rhs)@ == ((self as int) % (M as int)) * (*rhs)@);
        }
        n * *rhs
    }
}

impl<const M: u32> MulSpecImpl<&ModInt<M>> for u32 {
    open spec fn obeys_mul_spec() -> bool {
        true
    }

    open spec fn mul_req(self, rhs: &ModInt<M>) -> bool {
        (*rhs).wf()
    }

    open spec fn mul_spec(self, rhs: &ModInt<M>) -> ModInt<M> {
        ModInt::<M>::from_view((((self as int) % (M as int)) * ((*rhs)@)) % (M as int))
    }
}

impl<const M: u32> MulAssign<u32> for ModInt<M> {
    fn mul_assign(&mut self, rhs: u32)
        ensures
            old(self).wf() ==> *final(self) == ModInt::<M>::from_view(((old(self)@) * ((rhs as int) % (M as int))) % (M as int)),
    {
        if self.val() < M && M < 0x8000_0000 {
            let d = ModInt::<M>::new(rhs);
            *self = *self * d;
        }
    }
}

impl<const M: u32> Div<u32> for ModInt<M> {
    type Output = ModInt<M>;

    fn div(self, rhs: u32) -> (r: ModInt<M>) {
        let n = ModInt::<M>::new(rhs);
        proof {
            assert(n@ == (rhs as int) % (M as int));
        }
        self / n
    }
}

impl<const M: u32> DivSpecImpl<u32> for ModInt<M> {
    open spec fn obeys_div_spec() -> bool {
        true
    }

    open spec fn div_req(self, rhs: u32) -> bool {
        self.wf() && gcd(((rhs as int) % (M as int)) as nat, M as nat) == 1
    }

    open spec fn div_spec(self, rhs: u32) -> ModInt<M> {
        ModInt::<M>::from_view(quotient::<M>(self@, (rhs as int) % (M as int)))
    }
}

impl<const M: u32> Div<u32> for &ModInt<M> {
    type Output = ModInt<M>;

    fn div(self, rhs: u32) -> (r: ModInt<M>) {
        let n = ModInt::<M>::new(rhs);
        proof {
            assert(n@ == (rhs as int) % (M as int));
        }
        *self / n
    }
}

impl<const M: u32> DivSpecImpl<u32> for &ModInt<M> {
    open spec fn obeys_div_spec() -> bool {
        true
    }

    open spec fn div_req(self, rhs: u32) -> bool {
        (*self).wf() && gcd(((rhs as int) % (M as int)) as nat, M as nat) == 1
    }

    open spec fn div_spec(self, rhs: u32) -> ModInt<M> {
        ModInt::<M>::from_view(quotient::<M>((*self)@, (rhs as int) % (M as int)))
    }
}

impl<const M: u32> Div<ModInt<M>> for u32 {
    type Output = ModInt<M>;

    fn div(self, rhs: ModInt<M>) -> (r: ModInt<M>) {
        let n = ModInt::<M>::new(self);
        proof {
            assert(n@ == (self as int) % (M as int));
        }
        n / rhs
    }
}

impl<const M: u32> DivSpecImpl<ModInt<M>> for u32 {
    open spec fn obeys_div_spec() -> bool {
        true
    }

    open spec fn div_req(self, rhs: ModInt<M>) -> bool {
        rhs.wf() && gcd((rhs@) as nat, M as nat) == 1
    }

    open spec fn div_spec(self, rhs: ModInt<M>) -> ModInt<M> {
        ModInt::<M>::from_view(quotient::<M>((self as int) % (M as int), rhs@))
    }
}

impl<const M: u32> Div<&ModInt<M>> for u32 {
    type Output = ModInt<M>;

    fn div(self, rhs: &ModInt<M>) -> (r: ModInt<M>) {
        let n = ModInt::<M>::new(self);
        proof {
            assert(n@ == (self as int) % (M as int));
        }
        n / *rhs
    }
}

impl<const M: u32> DivSpecImpl<&ModInt<M>> for u32 {
    open spec fn obeys_div_spec() -> bool {
        true
    }

    open spec fn div_req(self, rhs: &ModInt<M>) -> bool {
        (*rhs).wf() && gcd(((*rhs)@) as nat, M as nat) == 1
    }

    open spec fn div_spec(self, rhs: &ModInt<M>) -> ModInt<M> {
        ModInt::<M>::from_view(quotient::<M>((self as int) % (M as int), (*rhs)@))
    }
}

impl<const M: u32> DivAssign<u32> for ModInt<M> {
    /// Leaves the value unchanged when `rhs` is not a unit.
    fn div_assign(&mut self, rhs: u32)
        ensures
            old(self).wf() && gcd(((rhs as int) % (M as int)) as nat, M as nat) == 1 ==> *final(self) == ModInt::<M>::from_view(quotient::<M>(old(self)@, (rhs as int) % (M as int))),
    {
        if self.val() < M && M < 0x8000_0000 {
            let d = ModInt::<M>::new(rhs);
            let (g, _) = inv_gcd(d.val() as i64, M as i64);
            proof {
                vstd::arithmetic::div_mod::lemma_small_mod(d@ as nat, M as nat);
            }
            if g == 1 {
                *self = *self / d;
            }
        }
    }
}

impl<const M: u32> Add<u64> for ModInt<M> {
    type Output = ModInt<M>;

    fn add(self, rhs: u64) -> (r: ModInt<M>) {
        let n = ModInt::<M>::new(rhs);
        proof {
            assert(n@ == (rhs as int) % (M as int));
        }
        self + n
    }
}

impl<const M: u32> AddSpecImpl<u64> for ModInt<M> {
    open spec fn obeys_add_spec() -> bool {
        true
    }

    open spec fn add_req(self, rhs: u64) -> bool {
        self.wf()
    }

    open spec fn add_spec(self, rhs: u64) -> ModInt<M> {
        ModInt::<M>::from_view(((self@) + ((rhs as int) % (M as int))) % (M as int))
    }
}

impl<const M: u32> Add<u64> for &ModInt<M> {
    type Output = ModInt<M>;

    fn add(self, rhs: u64) -> (r: ModInt<M>) {
        let n = ModInt::<M>::new(rhs);
        proof {
            assert(n@ == (rhs as int) % (M as int));
        }
        *self + n
    }
}

impl<const M: u32> AddSpecImpl<u64> for &ModInt<M> {
    open spec fn obeys_add_spec() -> bool {
        true
    }

    open spec fn add_req(self, rhs: u64) -> bool {
        (*self).wf()
    }

    open spec fn add_spec(self, rhs: u64) -> ModInt<M> {
        ModInt::<M>::from_view((((*self)@) + ((rhs as int) % (M as int))) % (M as int))
    }
}

impl<const M: u32> Add<ModInt<M>> for u64 {
    type Output = ModInt<M>;

    fn add(self, rhs: ModInt<M>) -> (r: ModInt<M>) {
        let n = ModInt::<M>::new(self);
        proof {
            assert(n@ == (self as int) % (M as int));
        }
        n + rhs
    }
}

impl<const M: u32> AddSpecImpl<ModInt<M>> for u64 {
    open spec fn obeys_add_spec() -> bool {
        true
    }

    open spec fn add_req(self, rhs: ModInt<M>) -> bool {
        rhs.wf()
    }

    open spec fn add_spec(self, rhs: ModInt<M>) -> ModInt<M> {
        ModInt::<M>::from_view((((self as int) % (M as int)) + (rhs@)) % (M as int))
    }
}

impl<const M: u32> Add<&ModInt<M>> for u64 {
    type Output = ModInt<M>;

    fn add(self, rhs: &ModInt<M>) -> (r: ModInt<M>) {
        let n = ModInt::<M>::new(self);
        proof {
            assert(n@ == (self as int) % (M as int));
        }
        n + *rhs
    }
}

impl<const M: u32> AddSpecImpl<&ModInt<M>> for u64 {
    open spec fn obeys_add_spec() -> bool {
        true
    }

    open spec fn add_req(self, rhs: &ModInt<M>) -> bool {
        (*rhs).wf()
    }

    open spec fn add_spec(self, rhs: &ModInt<M>) -> ModInt<M> {
        ModInt::<M>::from_view((((self as int) % (M as int)) + ((*rhs)@)) % (M as int))
    }
}

impl<const M: u32> AddAssign<u64> for ModInt<M> {
    fn add_assign(&mut self, rhs: u64)
        ensures
            old(self).wf() ==> *final(self) == ModInt::<M>::from_view(((old(self)@) + ((rhs as int) % (M as int))) % (M as int)),
    {
        if self.val() < M && M < 0x8000_0000 {
            let d = ModInt::<M>::new(rhs);
            *self = *self + d;
        }
    }
}

impl<const M: u32> Sub<u64> for ModInt<M> {
    type Output = ModInt<M>;

    fn sub(self, rhs: u64) -> (r: ModInt<M>) {
        let n = ModInt::<M>::new(rhs);
        proof {
            assert(n@ == (rhs as int) % (M as int));
        }
        self - n
    }
}

impl<const M: u32> SubSpecImpl<u64> for ModInt<M> {
    open spec fn obeys_sub_spec() -> bool {
        true
    }

    open spec fn sub_req(self, rhs: u64) -> bool {
        self.wf()
    }

    open spec fn sub_spec(self, rhs: u64) -> ModInt<M> {
        ModInt::<M>::from_view(((self@) - ((rhs as int) % (M as int))) % (M as int))
    }
}

impl<const M: u32> Sub<u64> for &ModInt<M> {
    type Output = ModInt<M>;

    fn sub(self, rhs: u64) -> (r: ModInt<M>) {
        let n = ModInt::<M>::new(rhs);
        proof {
            assert(n@ == (rhs as int) % (M as int));
        }
        *self - n
    }
}

impl<const M: u32> SubSpecImpl<u64> for &ModInt<M> {
    open spec fn obeys_sub_spec() -> bool {
        true
    }

    open spec fn sub_req(self, rhs: u64) -> bool {
        (*self).wf()
    }

    open spec fn sub_spec(self, rhs: u64) -> ModInt<M> {
        ModInt::<M>::from_view((((*self)@) - ((rhs as int) % (M as int))) % (M as int))
    }
}

impl<const M: u32> Sub<ModInt<M>> for u64 {
    type Output = ModInt<M>;

    fn sub(self, rhs: ModInt<M>) -> (r: ModInt<M>) {
        let n = ModInt::<M>::new(self);
        proof {
            assert(n@ == (self as int) % (M as int));
        }
        n - rhs
    }
}

impl<const M: u32> SubSpecImpl<ModInt<M>> for u64 {
    open spec fn obeys_sub_spec() -> bool {
        true
    }

    open spec fn sub_req(self, rhs: ModInt<M>) -> bool {
        rhs.wf()
    }

    open spec fn sub_spec(self, rhs: ModInt<M>) -> ModInt<M> {
        ModInt::<M>::from_view((((self as int) % (M as int)) - (rhs@)) % (M as int))
    }
}

impl<const M: u32> Sub<&ModInt<M>> for u64 {
    type Output = ModInt<M>;

    fn sub(self, rhs: &ModInt<M>) -> (r: ModInt<M>) {
        let n = ModInt::<M>::new(self);
        proof {
            assert(n@ == (self as int) % (M as int));
        }
        n - *rhs
    }
}

impl<const M: u32> SubSpecImpl<&ModInt<M>> for u64 {
    open spec fn obeys_sub_spec() -> bool {
        true
    }

    open spec fn sub_req(self, rhs: &ModInt<M>) -> bool {
        (*rhs).wf()
    }

    open spec fn sub_spec(self, rhs: &ModInt<M>) -> ModInt<M> {
        ModInt::<M>::from_view((((self as int) % (M as int)) - ((*rhs)@)) % (M as int))
    }
}

impl<const M: u32> SubAssign<u64> for ModInt<M> {
    fn sub_assign(&mut self, rhs: u64)
        ensures
            old(self).wf() ==> *final(self) == ModInt::<M>::from_view(((old(self)@) - ((rhs as int) % (M as int))) % (M as int)),
    {
        if self.val() < M && M < 0x8000_0000 {
            let d = ModInt::<M>::new(rhs);
            *self = *self - d;
        }
    }
}

impl<const M: u32> Mul<u64> for ModInt<M> {
    type Output = ModInt<M>;

    fn mul(self, rhs: u64) -> (r: ModInt<M>) {
        let n = ModInt::<M>::new(rhs);
        proof {
            assert(n@ == (rhs as int) % (M as int));
            assert(self@ * n@ == self@ * ((rhs as int) % (M as int)));
        }
        self * n
    }
}

impl<const M: u32> MulSpecImpl<u64> for ModInt<M> {
    open spec fn obeys_mul_spec() -> bool {
        true
    }

    open spec fn mul_req(self, rhs: u64) -> bool {
        self.wf()
    }

    open spec fn mul_spec(self, rhs: u64) -> ModInt<M> {
        ModInt::<M>::from_view(((self@) * ((rhs as int) % (M as int))) % (M as int))
    }
}

impl<const M: u32> Mul<u64> for &ModInt<M> {
    type Output = ModInt<M>;

    fn mul(self, rhs: u64) -> (r: ModInt<M>) {
        let n = ModInt::<M>::new(rhs);
        proof {
            assert(n@ == (rhs as int) % (M as int));
            assert((*self)@ * n@ == (*self)@ * ((rhs as int) % (M as int)));
        }
        *self * n
    }
}

impl<const M: u32> MulSpecImpl<u64> for &ModInt<M> {
    open spec fn obeys_mul_spec() -> bool {
        true
    }

    open spec fn mul_req(self, rhs: u64) -> bool {
        (*self).wf()
    }

    open spec fn mul_spec(self, rhs: u64) -> ModInt<M> {
        ModInt::<M>::from_view((((*self)@) * ((rhs as int) % (M as int))) % (M as int))
    }
}

impl<const M: u32> Mul<ModInt<M>> for u64 {
    type Output = ModInt<M>;

    fn mul(self, rhs: ModInt<M>) -> (r: ModInt<M>) {
        let n = ModInt::<M>::new(self);
        proof {
            assert(n@ == (self as int) % (M as int));
            assert(n@ * rhs@ == ((self as int) % (M as int)) * rhs@);
        }
        n * rhs
    }
}

impl<const M: u32> MulSpecImpl<ModInt<M>> for u64 {
    open spec fn obeys_mul_spec() -> bool {
        true
    }

    open spec fn mul_req(self, rhs: ModInt<M>) -> bool {
        rhs.wf()
    }

    open spec fn mul_spec(self, rhs: ModInt<M>) -> ModInt<M> {
        ModInt::<M>::from_view((((self as int) % (M as int)) * (rhs@)) % (M as int))
    }
}

impl<const M: u32> Mul<&ModInt<M>> for u64 {
    type Output = ModInt<M>;

    fn mul(self, rhs: &ModInt<M>) -> (r: ModInt<M>) {
        let n = ModInt::<M>::new(self);
        proof {
            assert(n@ == (self as int) % (M as int));
            assert(n@ * (*rhs)@ == ((self as int) % (M as int)) * (*rhs)@);
        }
        n * *rhs
    }
}

impl<const M: u32> MulSpecImpl<&ModInt<M>> for u64 {
    open spec fn obeys_mul_spec() -> bool {
        true
    }

    open spec fn mul_req(self, rhs: &ModInt<M>) -> bool {
        (*rhs).wf()
    }

    open spec fn mul_spec(self, rhs: &ModInt<M>) -> ModInt<M> {
        ModInt::<M>::from_view((((self as int) % (M as int)) * ((*rhs)@)) % (M as int))
    }
}

impl<const M: u32> MulAssign<u64> for ModInt<M> {
    fn mul_assign(&mut self, rhs: u64)
        ensures
            old(self).wf() ==> *final(self) == ModInt::<M>::from_view(((old(self)@) * ((rhs as int) % (M as int))) % (M as int)),
    {
        if self.val() < M && M < 0x8000_0000 {
            let d = ModInt::<M>::new(rhs);
            *self = *self * d;
        }
    }
}

impl<const M: u32> Div<u64> for ModInt<M> {
    type Output = ModInt<M>;

    fn div(self, rhs: u64) -> (r: ModInt<M>) {
        let n = ModInt::<M>::new(rhs);
        proof {
            assert(n@ == (rhs as int) % (M as int));
        }
        self / n
    }
}

impl<const M: u32> DivSpecImpl<u64> for ModInt<M> {
    open spec fn obeys_div_spec() -> bool {
        true
    }

    open spec fn div_req(self, rhs: u64) -> bool {
        self.wf() && gcd(((rhs as int) % (M as int)) as nat, M as nat) == 1
    }

    open spec fn div_spec(self, rhs: u64) -> ModInt<M> {
        ModInt::<M>::from_view(quotient::<M>(self@, (rhs as int) % (M as int)))
    }
}

impl<const M: u32> Div<u64> for &ModInt<M> {
    type Output = ModInt<M>;

    fn div(self, rhs: u64) -> (r: ModInt<M>) {
        let n = ModInt::<M>::new(rhs);
        proof {
            assert(n@ == (rhs as int) % (M as int));
        }
        *self / n
    }
}

impl<const M: u32> DivSpecImpl<u64> for &ModInt<M> {
    open spec fn obeys_div_spec() -> bool {
        true
    }

    open spec fn div_req(self, rhs: u64) -> bool {
        (*self).wf() && gcd(((rhs as int) % (M as int)) as nat, M as nat) == 1
    }

    open spec fn div_spec(self, rhs: u64) -> ModInt<M> {
        ModInt::<M>::from_view(quotient::<M>((*self)@, (rhs as int) % (M as int)))
    }
}

impl<const M: u32> Div<ModInt<M>> for u64 {
    type Output = ModInt<M>;

    fn div(self, rhs: ModInt<M>) -> (r: ModInt<M>) {
        let n = ModInt::<M>::new(self);
        proof {
            assert(n@ == (self as int) % (M as int));
        }
        n / rhs
    }
}

impl<const M: u32> DivSpecImpl<ModInt<M>> for u64 {
    open spec fn obeys_div_spec() -> bool {
        true
    }

    open spec fn div_req(self, rhs: ModInt<M>) -> bool {
        rhs.wf() && gcd((rhs@) as nat, M as nat) == 1
    }

    open spec fn div_spec(self, rhs: ModInt<M>) -> ModInt<M> {
        ModInt::<M>::from_view(quotient::<M>((self as int) % (M as int), rhs@))
    }
}

impl<const M: u32> Div<&ModInt<M>> for u64 {
    type Output = ModInt<M>;

    fn div(self, rhs: &ModInt<M>) -> (r: ModInt<M>) {
        let n = ModInt::<M>::new(self);
        proof {
            assert(n@ == (self as int) % (M as int));
        }
        n / *rhs
    }
}

impl<const M: u32> DivSpecImpl<&ModInt<M>> for u64 {
    open spec fn obeys_div_spec() -> bool {
        true
    }

    open spec fn div_req(self, rhs: &ModInt<M>) -> bool {
        (*rhs).wf() && gcd(((*rhs)@) as nat, M as nat) == 1
    }

    open spec fn div_spec(self, rhs: &ModInt<M>) -> ModInt<M> {
        ModInt::<M>::from_view(quotient::<M>((self as int) % (M as int), (*rhs)@))
    }
}

impl<const M: u32> DivAssign<u64> for ModInt<M> {
    /// Leaves the value unchanged when `rhs` is not a unit.
    fn div_assign(&mut self, rhs: u64)
        ensures
            old(self).wf() && gcd(((rhs as int) % (M as int)) as nat, M as nat) == 1 ==> *final(self) == ModInt::<M>::from_view(quotient::<M>(old(self)@, (rhs as int) % (M as int))),
    {
        if self.val() < M && M < 0x8000_0000 {
            let d = ModInt::<M>::new(rhs);
            let (g, _) = inv_gcd(d.val() as i64, M as i64);
            proof {
                vstd::arithmetic::div_mod::lemma_small_mod(d@ as nat, M as nat);
            }
            if g == 1 {
                *self = *self / d;
            }
        }
    }
}

impl<const M: u32> Add<u128> for ModInt<M> {
    type Output = ModInt<M>;

    fn add(self, rhs: u128) -> (r: ModInt<M>) {
        let n = ModInt::<M>::new(rhs);
        proof {
            assert(n@ == (rhs as int) % (M as int));
        }
        self + n
    }
}

impl<const M: u32> AddSpecImpl<u128> for ModInt<M> {
    open spec fn obeys_add_spec() -> bool {
        true
    }

    open spec fn add_req(self, rhs: u128) -> bool {
        self.wf()
    }

    open spec fn add_spec(self, rhs: u128) -> ModInt<M> {
        ModInt::<M>::from_view(((self@) + ((rhs as int) % (M as int))) % (M as int))
    }
}

impl<const M: u32> Add<u128> for &ModInt<M> {
    type Output = ModInt<M>;

    fn add(self, rhs: u128) -> (r: ModInt<M>) {
        let n = ModInt::<M>::new(rhs);
        proof {
            assert(n@ == (rhs as int) % (M as int));
        }
        *self + n
    }
}

impl<const M: u32> AddSpecImpl<u128> for &ModInt<M> {
    open spec fn obeys_add_spec() -> bool {
        true
    }

    open spec fn add_req(self, rhs: u128) -> bool {
        (*self).wf()
    }

    open spec fn add_spec(self, rhs: u128) -> ModInt<M> {
        ModInt::<M>::from_view((((*self)@) + ((rhs as int) % (M as int))) % (M as int))
    }
}

impl<const M: u32> Add<ModInt<M>> for u128 {
    type Output = ModInt<M>;

    fn add(self, rhs: ModInt<M>) -> (r: ModInt<M>) {
        let n = ModInt::<M>::new(self);
        proof {
            assert(n@ == (self as int) % (M as int));
        }
        n + rhs
    }
}

impl<const M: u32> AddSpecImpl<ModInt<M>> for u128 {
    open spec fn obeys_add_spec() -> bool {
        true
    }

    open spec fn add_req(self, rhs: ModInt<M>) -> bool {
        rhs.wf()
    }

    open spec fn add_spec(self, rhs: ModInt<M>) -> ModInt<M> {
        ModInt::<M>::from_view((((self as int) % (M as int)) + (rhs@)) % (M as int))
    }
}

impl<const M: u32> Add<&ModInt<M>> for u128 {
    type Output = ModInt<M>;

    fn add(self, rhs: &ModInt<M>) -> (r: ModInt<M>) {
        let n = ModInt::<M>::new(self);
        proof {
            assert(n@ == (self as int) % (M as int));
        }
        n + *rhs
    }
}

impl<const M: u32> AddSpecImpl<&ModInt<M>> for u128 {
    open spec fn obeys_add_spec() -> bool {
        true
    }

    open spec fn add_req(self, rhs: &ModInt<M>) -> bool {
        (*rhs).wf()
    }

    open spec fn add_spec(self, rhs: &ModInt<M>) -> ModInt<M> {
        ModInt::<M>::from_view((((self as int) % (M as int)) + ((*rhs)@)) % (M as int))
    }
}

impl<const M: u32> AddAssign<u128> for ModInt<M> {
    fn add_assign(&mut self, rhs: u128)
        ensures
            old(self).wf() ==> *final(self) == ModInt::<M>::from_view(((old(self)@) + ((rhs as int) % (M as int))) % (M as int)),
    {
        if self.val() < M && M < 0x8000_0000 {
            let d = ModInt::<M>::new(rhs);
            *self = *self + d;
        }
    }
}

impl<const M: u32> Sub<u128> for ModInt<M> {
    type Output = ModInt<M>;

    fn sub(self, rhs: u128) -> (r: ModInt<M>) {
        let n = ModInt::<M>::new(rhs);
        proof {
            assert(n@ == (rhs as int) % (M as int));
        }
        self - n
    }
}

impl<const M: u32> SubSpecImpl<u128> for ModInt<M> {
    open spec fn obeys_sub_spec() -> bool {
        true
    }

    open spec fn sub_req(self, rhs: u128) -> bool {
        self.wf()
    }

    open spec fn sub_spec(self, rhs: u128) -> ModInt<M> {
        ModInt::<M>::from_view(((self@) - ((rhs as int) % (M as int))) % (M as int))
    }
}

impl<const M: u32> Sub<u128> for &ModInt<M> {
    type Output = ModInt<M>;

    fn sub(self, rhs: u128) -> (r: ModInt<M>) {
        let n = ModInt::<M>::new(rhs);
        proof {
            assert(n@ == (rhs as int) % (M as int));
        }
        *self - n
    }
}

impl<const M: u32> SubSpecImpl<u128> for &ModInt<M> {
    open spec fn obeys_sub_spec() -> bool {
        true
    }

    open spec fn sub_req(self, rhs: u128) -> bool {
        (*self).wf()
    }

    open spec fn sub_spec(self, rhs: u128) -> ModInt<M> {
        ModInt::<M>::from_view((((*self)@) - ((rhs as int) % (M as int))) % (M as int))
    }
}

impl<const M: u32> Sub<ModInt<M>> for u128 {
    type Output = ModInt<M>;

    fn sub(self, rhs: ModInt<M>) -> (r: ModInt<M>) {
        let n = ModInt::<M>::new(self);
        proof {
            assert(n@ == (self as int) % (M as int));
        }
        n - rhs
    }
}

impl<const M: u32> SubSpecImpl<ModInt<M>> for u128 {
    open spec fn obeys_sub_spec() -> bool {
        true
    }

    open spec fn sub_req(self, rhs: ModInt<M>) -> bool {
        rhs.wf()
    }

    open spec fn sub_spec(self, rhs: ModInt<M>) -> ModInt<M> {
        ModInt::<M>::from_view((((self as int) % (M as int)) - (rhs@)) % (M as int))
    }
}

impl<const M: u32> Sub<&ModInt<M>> for u128 {
    type Output = ModInt<M>;

    fn sub(self, rhs: &ModInt<M>) -> (r: ModInt<M>) {
        let n = ModInt::<M>::new(self);
        proof {
            assert(n@ == (self as int) % (M as int));
        }
        n - *rhs
    }
}

impl<const M: u32> SubSpecImpl<&ModInt<M>> for u128 {
    open spec fn obeys_sub_spec() -> bool {
        true
    }

    open spec fn sub_req(self, rhs: &ModInt<M>) -> bool {
        (*rhs).wf()
    }

    open spec fn sub_spec(self, rhs: &ModInt<M>) -> ModInt<M> {
        ModInt::<M>::from_view((((self as int) % (M as int)) - ((*rhs)@)) % (M as int))
    }
}

impl<const M: u32> SubAssign<u128> for ModInt<M> {
    fn sub_assign(&mut self, rhs: u128)
        ensures
            old(self).wf() ==> *final(self) == ModInt::<M>::from_view(((old(self)@) - ((rhs as int) % (M as int))) % (M as int)),
    {
        if self.val() < M && M < 0x8000_0000 {
            let d = ModInt::<M>::new(rhs);
            *self = *self - d;
        }
    }
}

impl<const M: u32> Mul<u128> for ModInt<M> {
    type Output = ModInt<M>;

    fn mul(self, rhs: u128) -> (r: ModInt<M>) {
        let n = ModInt::<M>::new(rhs);
        proof {
            assert(n@ == (rhs as int) % (M as int));
            assert(self@ * n@ == self@ * ((rhs as int) % (M as int)));
        }
        self * n
    }
}

impl<const M: u32> MulSpecImpl<u128> for ModInt<M> {
    open spec fn obeys_mul_spec() -> bool {
        true
    }

    open spec fn mul_req(self, rhs: u128) -> bool {
        self.wf()
    }

    open spec fn mul_spec(self, rhs: u128) -> ModInt<M> {
        ModInt::<M>::from_view(((self@) * ((rhs as int) % (M as int))) % (M as int))
    }
}

impl<const M: u32> Mul<u128> for &ModInt<M> {
    type Output = ModInt<M>;

    fn mul(self, rhs: u128) -> (r: ModInt<M>) {
        let n = ModInt::<M>::new(rhs);
        proof {
            assert(n@ == (rhs as int) % (M as int));
            assert((*self)@ * n@ == (*self)@ * ((rhs as int) % (M as int)));
        }
        *self * n
    }
}

impl<const M: u32> MulSpecImpl<u128> for &ModInt<M> {
    open spec fn obeys_mul_spec() -> bool {
        true
    }

    open spec fn mul_req(self, rhs: u128) -> bool {
        (*self).wf()
    }

    open spec fn mul_spec(self, rhs: u128) -> ModInt<M> {
        ModInt::<M>::from_view((((*self)@) * ((rhs as int) % (M as int))) % (M as int))
    }
}

impl<const M: u32> Mul<ModInt<M>> for u128 {
    type Output = ModInt<M>;

    fn mul(self, rhs: ModInt<M>) -> (r: ModInt<M>) {
        let n = ModInt::<M>::new(self);
        proof {
            assert(n@ == (self as int) % (M as int));
            assert(n@ * rhs@ == ((self as int) % (M as int)) * rhs@);
        }
        n * rhs
    }
}

impl<const M: u32> MulSpecImpl<ModInt<M>> for u128 {
    open spec fn obeys_mul_spec() -> bool {
        true
    }

    open spec fn mul_req(self, rhs: ModInt<M>) -> bool {
        rhs.wf()
    }

    open spec fn mul_spec(self, rhs: ModInt<M>) -> ModInt<M> {
        ModInt::<M>::from_view((((self as int) % (M as int)) * (rhs@)) % (M as int))
    }
}

impl<const M: u32> Mul<&ModInt<M>> for u128 {
    type Output = ModInt<M>;

    fn mul(self, rhs: &ModInt<M>) -> (r: ModInt<M>) {
        let n = ModInt::<M>::new(self);
        proof {
            assert(n@ == (self as int) % (M as int));
            assert(n@ * (*rhs)@ == ((self as int) % (M as int)) * (*rhs)@);
        }
        n * *rhs
    }
}

impl<const M: u32> MulSpecImpl<&ModInt<M>> for u128 {
    open spec fn obeys_mul_spec() -> bool {
        true
    }

    open spec fn mul_req(self, rhs: &ModInt<M>) -> bool {
        (*rhs).wf()
    }

    open spec fn mul_spec(self, rhs: &ModInt<M>) -> ModInt<M> {
        ModInt::<M>::from_view((((self as int) % (M as int)) * ((*rhs)@)) % (M as int))
    }
}

impl<const M: u32> MulAssign<u128> for ModInt<M> {
    fn mul_assign(&mut self, rhs: u128)
        ensures
            old(self).wf() ==> *final(self) == ModInt::<M>::from_view(((old(self)@) * ((rhs as int) % (M as int))) % (M as int)),
    {
        if self.val() < M && M < 0x8000_0000 {
            let d = ModInt::<M>::new(rhs);
            *self = *self * d;
        }
    }
}

impl<const M: u32> Div<u128> for ModInt<M> {
    type Output = ModInt<M>;

    fn div(self, rhs: u128) -> (r: ModInt<M>) {
        let n = ModInt::<M>::new(rhs);
        proof {
            assert(n@ == (rhs as int) % (M as int));
        }
        self / n
    }
}

impl<const M: u32> DivSpecImpl<u128> for ModInt<M> {
    open spec fn obeys_div_spec() -> bool {
        true
    }

    open spec fn div_req(self, rhs: u128) -> bool {
        self.wf() && gcd(((rhs as int) % (M as int)) as nat, M as nat) == 1
    }

    open spec fn div_spec(self, rhs: u128) -> ModInt<M> {
        ModInt::<M>::from_view(quotient::<M>(self@, (rhs as int) % (M as int)))
    }
}

impl<const M: u32> Div<u128> for &ModInt<M> {
    type Output = ModInt<M>;

    fn div(self, rhs: u128) -> (r: ModInt<M>) {
        let n = ModInt::<M>::new(rhs);
        proof {
            assert(n@ == (rhs as int) % (M as int));
        }
        *self / n
    }
}

impl<const M: u32> DivSpecImpl<u128> for &ModInt<M> {
    open spec fn obeys_div_spec() -> bool {
        true
    }

    open spec fn div_req(self, rhs: u128) -> bool {
        (*self).wf() && gcd(((rhs as int) % (M as int)) as nat, M as nat) == 1
    }

    open spec fn div_spec(self, rhs: u128) -> ModInt<M> {
        ModInt::<M>::from_view(quotient::<M>((*self)@, (rhs as int) % (M as int)))
    }
}

impl<const M: u32> Div<ModInt<M>> for u128 {
    type Output = ModInt<M>;

    fn div(self, rhs: ModInt<M>) -> (r: ModInt<M>) {
        let n = ModInt::<M>::new(self);
        proof {
            assert(n@ == (self as int) % (M as int));
        }
        n / rhs
    }
}

impl<const M: u32> DivSpecImpl<ModInt<M>> for u128 {
    open spec fn obeys_div_spec() -> bool {
        true
    }

    open spec fn div_req(self, rhs: ModInt<M>) -> bool {
        rhs.wf() && gcd((rhs@) as nat, M as nat) == 1
    }

    open spec fn div_spec(self, rhs: ModInt<M>) -> ModInt<M> {
        ModInt::<M>::from_view(quotient::<M>((self as int) % (M as int), rhs@))
    }
}

impl<const M: u32> Div<&ModInt<M>> for u128 {
    type Output = ModInt<M>;

    fn div(self, rhs: &ModInt<M>) -> (r: ModInt<M>) {
        let n = ModInt::<M>::new(self);
        proof {
            assert(n@ == (self as int) % (M as int));
        }
        n / *rhs
    }
}

impl<const M: u32> DivSpecImpl<&ModInt<M>> for u128 {
    open spec fn obeys_div_spec() -> bool {
        true
    }

    open spec fn div_req(self, rhs: &ModInt<M>) -> bool {
        (*rhs).wf() && gcd(((*rhs)@) as nat, M as nat) == 1
    }

    open spec fn div_spec(self, rhs: &ModInt<M>) -> ModInt<M> {
        ModInt::<M>::from_view(quotient::<M>((self as int) % (M as int), (*rhs)@))
    }
}

impl<const M: u32> DivAssign<u128> for ModInt<M> {
    /// Leaves the value unchanged when `rhs` is not a unit.
    fn div_assign(&mut self, rhs: u128)
        ensures
            old(self).wf() && gcd(((rhs as int) % (M as int)) as nat, M as nat) == 1 ==> *final(self) == ModInt::<M>::from_view(quotient::<M>(old(self)@, (rhs as int) % (M as int))),
    {
        if self.val() < M && M < 0x8000_0000 {
            let d = ModInt::<M>::new(rhs);
            let (g, _) = inv_gcd(d.val() as i64, M as i64);
            proof {
                vstd::arithmetic::div_mod::lemma_small_mod(d@ as nat, M as nat);
            }
            if g == 1 {
                *self = *self / d;
            }
        }
    }
}

impl<const M: u32> Add<usize> for ModInt<M> {
    type Output = ModInt<M>;

    fn add(self, rhs: usize) -> (r: ModInt<M>) {
        let n = ModInt::<M>::new(rhs);
        proof {
            assert(n@ == (rhs as int) % (M as int));
        }
        self + n
    }
}

impl<const M: u32> AddSpecImpl<usize> for ModInt<M> {
    open spec fn obeys_add_spec() -> bool {
        true
    }

    open spec fn add_req(self, rhs: usize) -> bool {
        self.wf()
    }

    open spec fn add_spec(self, rhs: usize) -> ModInt<M> {
        ModInt::<M>::from_view(((self@) + ((rhs as int) % (M as int))) % (M as int))
    }
}

impl<const M: u32> Add<usize> for &ModInt<M> {
    type Output = ModInt<M>;

    fn add(self, rhs: usize) -> (r: ModInt<M>) {
        let n = ModInt::<M>::new(rhs);
        proof {
            assert(n@ == (rhs as int) % (M as int));
        }
        *self + n
    }
}

impl<const M: u32> AddSpecImpl<usize> for &ModInt<M> {
    open spec fn obeys_add_spec() -> bool {
        true
    }

    open spec fn add_req(self, rhs: usize) -> bool {
        (*self).wf()
    }

    open spec fn add_spec(self, rhs: usize) -> ModInt<M> {
        ModInt::<M>::from_view((((*self)@) + ((rhs as int) % (M as int))) % (M as int))
    }
}

impl<const M: u32> Add<ModInt<M>> for usize {
    type Output = ModInt<M>;

    fn add(self, rhs: ModInt<M>) -> (r: ModInt<M>) {
        let n = ModInt::<M>::new(self);
        proof {
            assert(n@ == (self as int) % (M as int));
        }
        n + rhs
    }
}

impl<const M: u32> AddSpecImpl<ModInt<M>> for usize {
    open spec fn obeys_add_spec() -> bool {
        true
    }

    open spec fn add_req(self, rhs: ModInt<M>) -> bool {
        rhs.wf()
    }

    open spec fn add_spec(self, rhs: ModInt<M>) -> ModInt<M> {
        ModInt::<M>::from_view((((self as int) % (M as int)) + (rhs@)) % (M as int))
    }
}

impl<const M: u32> Add<&ModInt<M>> for usize {
    type Output = ModInt<M>;

    fn add(self, rhs: &ModInt<M>) -> (r: ModInt<M>) {
        let n = ModInt::<M>::new(self);
        proof {
            assert(n@ == (self as int) % (M as int));
        }
        n + *rhs
    }
}

impl<const M: u32> AddSpecImpl<&ModInt<M>> for usize {
    open spec fn obeys_add_spec() -> bool {
        true
    }

    open spec fn add_req(self, rhs: &ModInt<M>) -> bool {
        (*rhs).wf()
    }

    open spec fn add_spec(self, rhs: &ModInt<M>) -> ModInt<M> {
        ModInt::<M>::from_view((((self as int) % (M as int)) + ((*rhs)@)) % (M as int))
    }
}

impl<const M: u32> AddAssign<usize> for ModInt<M> {
    fn add_assign(&mut self, rhs: usize)
        ensures
            old(self).wf() ==> *final(self) == ModInt::<M>::from_view(((old(self)@) + ((rhs as int) % (M as int))) % (M as int)),
    {
        if self.val() < M && M < 0x8000_0000 {
            let d = ModInt::<M>::new(rhs);
            *self = *self + d;
        }
    }
}

impl<const M: u32> Sub<usize> for ModInt<M> {
    type Output = ModInt<M>;

    fn sub(self, rhs: usize) -> (r: ModInt<M>) {
        let n = ModInt::<M>::new(rhs);
        proof {
            assert(n@ == (rhs as int) % (M as int));
        }
        self - n
    }
}

impl<const M: u32> SubSpecImpl<usize> for ModInt<M> {
    open spec fn obeys_sub_spec() -> bool {
        true
    }

    open spec fn sub_req(self, rhs: usize) -> bool {
        self.wf()
    }

    open spec fn sub_spec(self, rhs: usize) -> ModInt<M> {
        ModInt::<M>::from_view(((self@) - ((rhs as int) % (M as int))) % (M as int))
    }
}

impl<const M: u32> Sub<usize> for &ModInt<M> {
    type Output = ModInt<M>;

    fn sub(self, rhs: usize) -> (r: ModInt<M>) {
        let n = ModInt::<M>::new(rhs);
        proof {
            assert(n@ == (rhs as int) % (M as int));
        }
        *self - n
    }
}

impl<const M: u32> SubSpecImpl<usize> for &ModInt<M> {
    open spec fn obeys_sub_spec() -> bool {
        true
    }

    open spec fn sub_req(self, rhs: usize) -> bool {
        (*self).wf()
    }

    open spec fn sub_spec(self, rhs: usize) -> ModInt<M> {
        ModInt::<M>::from_view((((*self)@) - ((rhs as int) % (M as int))) % (M as int))
    }
}

impl<const M: u32> Sub<ModInt<M>> for usize {
    type Output = ModInt<M>;

    fn sub(self, rhs: ModInt<M>) -> (r: ModInt<M>) {
        let n = ModInt::<M>::new(self);
        proof {
            assert(n@ == (self as int) % (M as int));
        }
        n - rhs
    }
}

impl<const M: u32> SubSpecImpl<ModInt<M>> for usize {
    open spec fn obeys_sub_spec() -> bool {
        true
    }

    open spec fn sub_req(self, rhs: ModInt<M>) -> bool {
        rhs.wf()
    }

    open spec fn sub_spec(self, rhs: ModInt<M>) -> ModInt<M> {
        ModInt::<M>::from_view((((self as int) % (M as int)) - (rhs@)) % (M as int))
    }
}

impl<const M: u32> Sub<&ModInt<M>> for usize {
    type Output = ModInt<M>;

    fn sub(self, rhs: &ModInt<M>) -> (r: ModInt<M>) {
        let n = ModInt::<M>::new(self);
        proof {
            assert(n@ == (self as int) % (M as int));
        }
        n - *rhs
    }
}

impl<const M: u32> SubSpecImpl<&ModInt<M>> for usize {
    open spec fn obeys_sub_spec() -> bool {
        true
    }

    open spec fn sub_req(self, rhs: &ModInt<M>) -> bool {
        (*rhs).wf()
    }

    open spec fn sub_spec(self, rhs: &ModInt<M>) -> ModInt<M> {
        ModInt::<M>::from_view((((self as int) % (M as int)) - ((*rhs)@)) % (M as int))
    }
}

impl<const M: u32> SubAssign<usize> for ModInt<M> {
    fn sub_assign(&mut self, rhs: usize)
        ensures
            old(self).wf() ==> *final(self) == ModInt::<M>::from_view(((old(self)@) - ((rhs as int) % (M as int))) % (M as int)),
    {
        if self.val() < M && M < 0x8000_0000 {
            let d = ModInt::<M>::new(rhs);
            *self = *self - d;
        }
    }
}

impl<const M: u32> Mul<usize> for ModInt<M> {
    type Output = ModInt<M>;

    fn mul(self, rhs: usize) -> (r: ModInt<M>) {
        let n = ModInt::<M>::new(rhs);
        proof {
            assert(n@ == (rhs as int) % (M as int));
            assert(self@ * n@ == self@ * ((rhs as int) % (M as int)));
        }
        self * n
    }
}

impl<const M: u32> MulSpecImpl<usize> for ModInt<M> {
    open spec fn obeys_mul_spec() -> bool {
        true
    }

    open spec fn mul_req(self, rhs: usize) -> bool {
        self.wf()
    }

    open spec fn mul_spec(self, rhs: usize) -> ModInt<M> {
        ModInt::<M>::from_view(((self@) * ((rhs as int) % (M as int))) % (M as int))
    }
}

impl<const M: u32> Mul<usize> for &ModInt<M> {
    type Output = ModInt<M>;

    fn mul(self, rhs: usize) -> (r: ModInt<M>) {
        let n = ModInt::<M>::new(rhs);
        proof {
            assert(n@ == (rhs as int) % (M as int));
            assert((*self)@ * n@ == (*self)@ * ((rhs as int) % (M as int)));
        }
        *self * n
    }
}

impl<const M: u32> MulSpecImpl<usize> for &ModInt<M> {
    open spec fn obeys_mul_spec() -> bool {
        true
    }

    open spec fn mul_req(self, rhs: usize) -> bool {
        (*self).wf()
    }

    open spec fn mul_spec(self, rhs: usize) -> ModInt<M> {
        ModInt::<M>::from_view((((*self)@) * ((rhs as int) % (M as int))) % (M as int))
    }
}

impl<const M: u32> Mul<ModInt<M>> for usize {
    type Output = ModInt<M>;

    fn mul(self, rhs: ModInt<M>) -> (r: ModInt<M>) {
        let n = ModInt::<M>::new(self);
        proof {
            assert(n@ == (self as int) % (M as int));
            assert(n@ * rhs@ == ((self as int) % (M as int)) * rhs@);
        }
        n * rhs
    }
}

impl<const M: u32> MulSpecImpl<ModInt<M>> for usize {
    open spec fn obeys_mul_spec() -> bool {
        true
    }

    open spec fn mul_req(self, rhs: ModInt<M>) -> bool {
        rhs.wf()
    }

    open spec fn mul_spec(self, rhs: ModInt<M>) -> ModInt<M> {
        ModInt::<M>::from_view((((self as int) % (M as int)) * (rhs@)) % (M as int))
    }
}

impl<const M: u32> Mul<&ModInt<M>> for usize {
    type Output = ModInt<M>;

    fn mul(self, rhs: &ModInt<M>) -> (r: ModInt<M>) {
        let n = ModInt::<M>::new(self);
        proof {
            assert(n@ == (self as int) % (M as int));
            assert(n@ * (*rhs)@ == ((self as int) % (M as int)) * (*rhs)@);
        }
        n * *rhs
    }
}

impl<const M: u32> MulSpecImpl<&ModInt<M>> for usize {
    open spec fn obeys_mul_spec() -> bool {
        true
    }

    open spec fn mul_req(self, rhs: &ModInt<M>) -> bool {
        (*rhs).wf()
    }

    open spec fn mul_spec(self, rhs: &ModInt<M>) -> ModInt<M> {
        ModInt::<M>::from_view((((self as int) % (M as int)) * ((*rhs)@)) % (M as int))
    }
}

impl<const M: u32> MulAssign<usize> for ModInt<M> {
    fn mul_assign(&mut self, rhs: usize)
        ensures
            old(self).wf() ==> *final(self) == ModInt::<M>::from_view(((old(self)@) * ((rhs as int) % (M as int))) % (M as int)),
    {
        if self.val() < M && M < 0x8000_0000 {
            let d = ModInt::<M>::new(rhs);
            *self = *self * d;
        }
    }
}

impl<const M: u32> Div<usize> for ModInt<M> {
    type Output = ModInt<M>;

    fn div(self, rhs: usize) -> (r: ModInt<M>) {
        let n = ModInt::<M>::new(rhs);
        proof {
            assert(n@ == (rhs as int) % (M as int));
        }
        self / n
    }
}

impl<const M: u32> DivSpecImpl<usize> for ModInt<M> {
    open spec fn obeys_div_spec() -> bool {
        true
    }

    open spec fn div_req(self, rhs: usize) -> bool {
        self.wf() && gcd(((rhs as int) % (M as int)) as nat, M as nat) == 1
    }

    open spec fn div_spec(self, rhs: usize) -> ModInt<M> {
        ModInt::<M>::from_view(quotient::<M>(self@, (rhs as int) % (M as int)))
    }
}

impl<const M: u32> Div<usize> for &ModInt<M> {
    type Output = ModInt<M>;

    fn div(self, rhs: usize) -> (r: ModInt<M>) {
        let n = ModInt::<M>::new(rhs);
        proof {
            assert(n@ == (rhs as int) % (M as int));
        }
        *self / n
    }
}

impl<const M: u32> DivSpecImpl<usize> for &ModInt<M> {
    open spec fn obeys_div_spec() -> bool {
        true
    }

    open spec fn div_req(self, rhs: usize) -> bool {
        (*self).wf() && gcd(((rhs as int) % (M as int)) as nat, M as nat) == 1
    }

    open spec fn div_spec(self, rhs: usize) -> ModInt<M> {
        ModInt::<M>::from_view(quotient::<M>((*self)@, (rhs as int) % (M as int)))
    }
}

impl<const M: u32> Div<ModInt<M>> for usize {
    type Output = ModInt<M>;

    fn div(self, rhs: ModInt<M>) -> (r: ModInt<M>) {
        let n = ModInt::<M>::new(self);
        proof {
            assert(n@ == (self as int) % (M as int));
        }
        n / rhs
    }
}

impl<const M: u32> DivSpecImpl<ModInt<M>> for usize {
    open spec fn obeys_div_spec() -> bool {
        true
    }

    open spec fn div_req(self, rhs: ModInt<M>) -> bool {
        rhs.wf() && gcd((rhs@) as nat, M as nat) == 1
    }

    open spec fn div_spec(self, rhs: ModInt<M>) -> ModInt<M> {
        ModInt::<M>::from_view(quotient::<M>((self as int) % (M as int), rhs@))
    }
}

impl<const M: u32> Div<&ModInt<M>> for usize {
    type Output = ModInt<M>;

    fn div(self, rhs: &ModInt<M>) -> (r: ModInt<M>) {
        let n = ModInt::<M>::new(self);
        proof {
            assert(n@ == (self as int) % (M as int));
        }
        n / *rhs
    }
}

impl<const M: u32> DivSpecImpl<&ModInt<M>> for usize {
    open spec fn obeys_div_spec() -> bool {
        true
    }

    open spec fn div_req(self, rhs: &ModInt<M>) -> bool {
        (*rhs).wf() && gcd(((*rhs)@) as nat, M as nat) == 1
    }

    open spec fn div_spec(self, rhs: &ModInt<M>) -> ModInt<M> {
        ModInt::<M>::from_view(quotient::<M>((self as int) % (M as int), (*rhs)@))
    }
}

impl<const M: u32> DivAssign<usize> for ModInt<M> {
    /// Leaves the value unchanged when `rhs` is not a unit.
    fn div_assign(&mut self, rhs: usize)
        ensures
            old(self).wf() && gcd(((rhs as int) % (M as int)) as nat, M as nat) == 1 ==> *final(self) == ModInt::<M>::from_view(quotient::<M>(old(self)@, (rhs as int) % (M as int))),
    {
        if self.val() < M && M < 0x8000_0000 {
            let d = ModInt::<M>::new(rhs);
            let (g, _) = inv_gcd(d.val() as i64, M as i64);
            proof {
                vstd::arithmetic::div_mod::lemma_small_mod(d@ as nat, M as nat);
            }
            if g == 1 {
                *self = *self / d;
            }
        }
    }
}

impl<const M: u32> Add<i8> for ModInt<M> {
    type Output = ModInt<M>;

    fn add(self, rhs: i8) -> (r: ModInt<M>) {
        let n = ModInt::<M>::new(rhs);
        proof {
            assert(n@ == (rhs as int) % (M as int));
        }
        self + n
    }
}

impl<const M: u32> AddSpecImpl<i8> for ModInt<M> {
    open spec fn obeys_add_spec() -> bool {
        true
    }

    open spec fn add_req(self, rhs: i8) -> bool {
        self.wf()
    }

    open spec fn add_spec(self, rhs: i8) -> ModInt<M> {
        ModInt::<M>::from_view(((self@) + ((rhs as int) % (M as int))) % (M as int))
    }
}

impl<const M: u32> Add<i8> for &ModInt<M> {
    type Output = ModInt<M>;

    fn add(self, rhs: i8) -> (r: ModInt<M>) {
        let n = ModInt::<M>::new(rhs);
        proof {
            assert(n@ == (rhs as int) % (M as int));
        }
        *self + n
    }
}

impl<const M: u32> AddSpecImpl<i8> for &ModInt<M> {
    open spec fn obeys_add_spec() -> bool {
        true
    }

    open spec fn add_req(self, rhs: i8) -> bool {
        (*self).wf()
    }

    open spec fn add_spec(self, rhs: i8) -> ModInt<M> {
        ModInt::<M>::from_view((((*self)@) + ((rhs as int) % (M as int))) % (M as int))
    }
}

impl<const M: u32> Add<ModInt<M>> for i8 {
    type Output = ModInt<M>;

    fn add(self, rhs: ModInt<M>) -> (r: ModInt<M>) {
        let n = ModInt::<M>::new(self);
        proof {
            assert(n@ == (self as int) % (M as int));
        }
        n + rhs
    }
}

impl<const M: u32> AddSpecImpl<ModInt<M>> for i8 {
    open spec fn obeys_add_spec() -> bool {
        true
    }

    open spec fn add_req(self, rhs: ModInt<M>) -> bool {
        rhs.wf()
    }

    open spec fn add_spec(self, rhs: ModInt<M>) -> ModInt<M> {
        ModInt::<M>::from_view((((self as int) % (M as int)) + (rhs@)) % (M as int))
    }
}

impl<const M: u32> Add<&ModInt<M>> for i8 {
    type Output = ModInt<M>;

    fn add(self, rhs: &ModInt<M>) -> (r: ModInt<M>) {
        let n = ModInt::<M>::new(self);
        proof {
            assert(n@ == (self as int) % (M as int));
        }
        n + *rhs
    }
}

impl<const M: u32> AddSpecImpl<&ModInt<M>> for i8 {
    open spec fn obeys_add_spec() -> bool {
        true
    }

    open spec fn add_req(self, rhs: &ModInt<M>) -> bool {
        (*rhs).wf()
    }

    open spec fn add_spec(self, rhs: &ModInt<M>) -> ModInt<M> {
        ModInt::<M>::from_view((((self as int) % (M as int)) + ((*rhs)@)) % (M as int))
    }
}

impl<const M: u32> AddAssign<i8> for ModInt<M> {
    fn add_assign(&mut self, rhs: i8)
        ensures
            old(self).wf() ==> *final(self) == ModInt::<M>::from_view(((old(self)@) + ((rhs as int) % (M as int))) % (M as int)),
    {
        if self.val() < M && M < 0x8000_0000 {
            let d = ModInt::<M>::new(rhs);
            *self = *self + d;
        }
    }
}

impl<const M: u32> Sub<i8> for ModInt<M> {
    type Output = ModInt<M>;

    fn sub(self, rhs: i8) -> (r: ModInt<M>) {
        let n = ModInt::<M>::new(rhs);
        proof {
            assert(n@ == (rhs as int) % (M as int));
        }
        self - n
    }
}

impl<const M: u32> SubSpecImpl<i8> for ModInt<M> {
    open spec fn obeys_sub_spec() -> bool {
        true
    }

    open spec fn sub_req(self, rhs: i8) -> bool {
        self.wf()
    }

    open spec fn sub_spec(self, rhs: i8) -> ModInt<M> {
        ModInt::<M>::from_view(((self@) - ((rhs as int) % (M as int))) % (M as int))
    }
}

impl<const M: u32> Sub<i8> for &ModInt<M> {
    type Output = ModInt<M>;

    fn sub(self, rhs: i8) -> (r: ModInt<M>) {
        let n = ModInt::<M>::new(rhs);
        proof {
            assert(n@ == (rhs as int) % (M as int));
        }
        *self - n
    }
}

impl<const M: u32> SubSpecImpl<i8> for &ModInt<M> {
    open spec fn obeys_sub_spec() -> bool {
        true
    }

    open spec fn sub_req(self, rhs: i8) -> bool {
        (*self).wf()
    }

    open spec fn sub_spec(self, rhs: i8) -> ModInt<M> {
        ModInt::<M>::from_view((((*self)@) - ((rhs as int) % (M as int))) % (M as int))
    }
}

impl<const M: u32> Sub<ModInt<M>> for i8 {
    type Output = ModInt<M>;

    fn sub(self, rhs: ModInt<M>) -> (r: ModInt<M>) {
        let n = ModInt::<M>::new(self);
        proof {
            assert(n@ == (self as int) % (M as int));
        }
        n - rhs
    }
}

impl<const M: u32> SubSpecImpl<ModInt<M>> for i8 {
    open spec fn obeys_sub_spec() -> bool {
        true
    }

    open spec fn sub_req(self, rhs: ModInt<M>) -> bool {
        rhs.wf()
    }

    open spec fn sub_spec(self, rhs: ModInt<M>) -> ModInt<M> {
        ModInt::<M>::from_view((((self as int) % (M as int)) - (rhs@)) % (M as int))
    }
}

impl<const M: u32> Sub<&ModInt<M>> for i8 {
    type Output = ModInt<M>;

    fn sub(self, rhs: &ModInt<M>) -> (r: ModInt<M>) {
        let n = ModInt::<M>::new(self);
        proof {
            assert(n@ == (self as int) % (M as int));
        }
        n - *rhs
    }
}

impl<const M: u32> SubSpecImpl<&ModInt<M>> for i8 {
    open spec fn obeys_sub_spec() -> bool {
        true
    }

    open spec fn sub_req(self, rhs: &ModInt<M>) -> bool {
        (*rhs).wf()
    }

    open spec fn sub_spec(self, rhs: &ModInt<M>) -> ModInt<M> {
        ModInt::<M>::from_view((((self as int) % (M as int)) - ((*rhs)@)) % (M as int))
    }
}

impl<const M: u32> SubAssign<i8> for ModInt<M> {
    fn sub_assign(&mut self, rhs: i8)
        ensures
            old(self).wf() ==> *final(self) == ModInt::<M>::from_view(((old(self)@) - ((rhs as int) % (M as int))) % (M as int)),
    {
        if self.val() < M && M < 0x8000_0000 {
            let d = ModInt::<M>::new(rhs);
            *self = *self - d;
        }
    }
}

impl<const M: u32> Mul<i8> for ModInt<M> {
    type Output = ModInt<M>;

    fn mul(self, rhs: i8) -> (r: ModInt<M>) {
        let n = ModInt::<M>::new(rhs);
        proof {
            assert(n@ == (rhs as int) % (M as int));
            assert(self@ * n@ == self@ * ((rhs as int) % (M as int)));
        }
        self * n
    }
}

impl<const M: u32> MulSpecImpl<i8> for ModInt<M> {
    open spec fn obeys_mul_spec() -> bool {
        true
    }

    open spec fn mul_req(self, rhs: i8) -> bool {
        self.wf()
    }

    open spec fn mul_spec(self, rhs: i8) -> ModInt<M> {
        ModInt::<M>::from_view(((self@) * ((rhs as int) % (M as int))) % (M as int))
    }
}

impl<const M: u32> Mul<i8> for &ModInt<M> {
    type Output = ModInt<M>;

    fn mul(self, rhs: i8) -> (r: ModInt<M>) {
        let n = ModInt::<M>::new(rhs);
        proof {
            assert(n@ == (rhs as int) % (M as int));
            assert((*self)@ * n@ == (*self)@ * ((rhs as int) % (M as int)));
        }
        *self * n
    }
}

impl<const M: u32> MulSpecImpl<i8> for &ModInt<M> {
    open spec fn obeys_mul_spec() -> bool {
        true
    }

    open spec fn mul_req(self, rhs: i8) -> bool {
        (*self).wf()
    }

    open spec fn mul_spec(self, rhs: i8) -> ModInt<M> {
        ModInt::<M>::from_view((((*self)@) * ((rhs as int) % (M as int))) % (M as int))
    }
}

impl<const M: u32> Mul<ModInt<M>> for i8 {
    type Output = ModInt<M>;

    fn mul(self, rhs: ModInt<M>) -> (r: ModInt<M>) {
        let n = ModInt::<M>::new(self);
        proof {
            assert(n@ == (self as int) % (M as int));
            assert(n@ * rhs@ == ((self as int) % (M as int)) * rhs@);
        }
        n * rhs
    }
}

impl<const M: u32> MulSpecImpl<ModInt<M>> for i8 {
    open spec fn obeys_mul_spec() -> bool {
        true
    }

    open spec fn mul_req(self, rhs: ModInt<M>) -> bool {
        rhs.wf()
    }

    open spec fn mul_spec(self, rhs: ModInt<M>) -> ModInt<M> {
        ModInt::<M>::from_view((((self as int) % (M as int)) * (rhs@)) % (M as int))
    }
}

impl<const M: u32> Mul<&ModInt<M>> for i8 {
    type Output = ModInt<M>;

    fn mul(self, rhs: &ModInt<M>) -> (r: ModInt<M>) {
        let n = ModInt::<M>::new(self);
        proof {
            assert(n@ == (self as int) % (M as int));
            assert(n@ * (*rhs)@ == ((self as int) % (M as int)) * (*rhs)@);
        }
        n * *rhs
    }
}

impl<const M: u32> MulSpecImpl<&ModInt<M>> for i8 {
    open spec fn obeys_mul_spec() -> bool {
        true
    }

    open spec fn mul_req(self, rhs: &ModInt<M>) -> bool {
        (*rhs).wf()
    }

    open spec fn mul_spec(self, rhs: &ModInt<M>) -> ModInt<M> {
        ModInt::<M>::from_view((((self as int) % (M as int)) * ((*rhs)@)) % (M as int))
    }
}

impl<const M: u32> MulAssign<i8> for ModInt<M> {
    fn mul_assign(&mut self, rhs: i8)
        ensures
            old(self).wf() ==> *final(self) == ModInt::<M>::from_view(((old(self)@) * ((rhs as int) % (M as int))) % (M as int)),
    {
        if self.val() < M && M < 0x8000_0000 {
            let d = ModInt::<M>::new(rhs);
            *self = *self * d;
        }
    }
}

impl<const M: u32> Div<i8> for ModInt<M> {
    type Output = ModInt<M>;

    fn div(self, rhs: i8) -> (r: ModInt<M>) {
        let n = ModInt::<M>::new(rhs);
        proof {
            assert(n@ == (rhs as int) % (M as int));
        }
        self / n
    }
}

impl<const M: u32> DivSpecImpl<i8> for ModInt<M> {
    open spec fn obeys_div_spec() -> bool {
        true
    }

    open spec fn div_req(self, rhs: i8) -> bool {
        self.wf() && gcd(((rhs as int) % (M as int)) as nat, M as nat) == 1
    }

    open spec fn div_spec(self, rhs: i8) -> ModInt<M> {
        ModInt::<M>::from_view(quotient::<M>(self@, (rhs as int) % (M as int)))
    }
}

impl<const M: u32> Div<i8> for &ModInt<M> {
    type Output = ModInt<M>;

    fn div(self, rhs: i8) -> (r: ModInt<M>) {
        let n = ModInt::<M>::new(rhs);
        proof {
            assert(n@ == (rhs as int) % (M as int));
        }
        *self / n
    }
}

impl<const M: u32> DivSpecImpl<i8> for &ModInt<M> {
    open spec fn obeys_div_spec() -> bool {
        true
    }

    open spec fn div_req(self, rhs: i8) -> bool {
        (*self).wf() && gcd(((rhs as int) % (M as int)) as nat, M as nat) == 1
    }

    open spec fn div_spec(self, rhs: i8) -> ModInt<M> {
        ModInt::<M>::from_view(quotient::<M>((*self)@, (rhs as int) % (M as int)))
    }
}

impl<const M: u32> Div<ModInt<M>> for i8 {
    type Output = ModInt<M>;

    fn div(self, rhs: ModInt<M>) -> (r: ModInt<M>) {
        let n = ModInt::<M>::new(self);
        proof {
            assert(n@ == (self as int) % (M as int));
        }
        n / rhs
    }
}

impl<const M: u32> DivSpecImpl<ModInt<M>> for i8 {
    open spec fn obeys_div_spec() -> bool {
        true
    }

    open spec fn div_req(self, rhs: ModInt<M>) -> bool {
        rhs.wf() && gcd((rhs@) as nat, M as nat) == 1
    }

    open spec fn div_spec(self, rhs: ModInt<M>) -> ModInt<M> {
        ModInt::<M>::from_view(quotient::<M>((self as int) % (M as int), rhs@))
    }
}

impl<const M: u32> Div<&ModInt<M>> for i8 {
    type Output = ModInt<M>;

    fn div(self, rhs: &ModInt<M>) -> (r: ModInt<M>) {
        let n = ModInt::<M>::new(self);
        proof {
            assert(n@ == (self as int) % (M as int));
        }
        n / *rhs
    }
}

impl<const M: u32> DivSpecImpl<&ModInt<M>> for i8 {
    open spec fn obeys_div_spec() -> bool {
        true
    }

    open spec fn div_req(self, rhs: &ModInt<M>) -> bool {
        (*rhs).wf() && gcd(((*rhs)@) as nat, M as nat) == 1
    }

    open spec fn div_spec(self, rhs: &ModInt<M>) -> ModInt<M> {
        ModInt::<M>::from_view(quotient::<M>((self as int) % (M as int), (*rhs)@))
    }
}

impl<const M: u32> DivAssign<i8> for ModInt<M> {
    /// Leaves the value unchanged when `rhs` is not a unit.
    fn div_assign(&mut self, rhs: i8)
        ensures
            old(self).wf() && gcd(((rhs as int) % (M as int)) as nat, M as nat) == 1 ==> *final(self) == ModInt::<M>::from_view(quotient::<M>(old(self)@, (rhs as int) % (M as int))),
    {
        if self.val() < M && M < 0x8000_0000 {
            let d = ModInt::<M>::new(rhs);
            let (g, _) = inv_gcd(d.val() as i64, M as i64);
            proof {
                vstd::arithmetic::div_mod::lemma_small_mod(d@ as nat, M as nat);
            }
            if g == 1 {
                *self = *self / d;
            }
        }
    }
}

impl<const M: u32> Add<i16> for ModInt<M> {
    type Output = ModInt<M>;

    fn add(self, rhs: i16) -> (r: ModInt<M>) {
        let n = ModInt::<M>::new(rhs);
        proof {
            assert(n@ == (rhs as int) % (M as int));
        }
        self + n
    }
}

impl<const M: u32> AddSpecImpl<i16> for ModInt<M> {
    open spec fn obeys_add_spec() -> bool {
        true
    }

    open spec fn add_req(self, rhs: i16) -> bool {
        self.wf()
    }

    open spec fn add_spec(self, rhs: i16) -> ModInt<M> {
        ModInt::<M>::from_view(((self@) + ((rhs as int) % (M as int))) % (M as int))
    }
}

impl<const M: u32> Add<i16> for &ModInt<M> {
    type Output = ModInt<M>;

    fn add(self, rhs: i16) -> (r: ModInt<M>) {
        let n = ModInt::<M>::new(rhs);
        proof {
            assert(n@ == (rhs as int) % (M as int));
        }
        *self + n
    }
}

impl<const M: u32> AddSpecImpl<i16> for &ModInt<M> {
    open spec fn obeys_add_spec() -> bool {
        true
    }

    open spec fn add_req(self, rhs: i16) -> bool {
        (*self).wf()
    }

    open spec fn add_spec(self, rhs: i16) -> ModInt<M> {
        ModInt::<M>::from_view((((*self)@) + ((rhs as int) % (M as int))) % (M as int))
    }
}

impl<const M: u32> Add<ModInt<M>> for i16 {
    type Output = ModInt<M>;

    fn add(self, rhs: ModInt<M>) -> (r: ModInt<M>) {
        let n = ModInt::<M>::new(self);
        proof {
            assert(n@ == (self as int) % (M as int));
        }
        n + rhs
    }
}

impl<const M: u32> AddSpecImpl<ModInt<M>> for i16 {
    open spec fn obeys_add_spec() -> bool {
        true
    }

    open spec fn add_req(self, rhs: ModInt<M>) -> bool {
        rhs.wf()
    }

    open spec fn add_spec(self, rhs: ModInt<M>) -> ModInt<M> {
        ModInt::<M>::from_view((((self as int) % (M as int)) + (rhs@)) % (M as int))
    }
}

impl<const M: u32> Add<&ModInt<M>> for i16 {
    type Output = ModInt<M>;

    fn add(self, rhs: &ModInt<M>) -> (r: ModInt<M>) {
        let n = ModInt::<M>::new(self);
        proof {
            assert(n@ == (self as int) % (M as int));
        }
        n + *rhs
    }
}

impl<const M: u32> AddSpecImpl<&ModInt<M>> for i16 {
    open spec fn obeys_add_spec() -> bool {
        true
    }

    open spec fn add_req(self, rhs: &ModInt<M>) -> bool {
        (*rhs).wf()
    }

    open spec fn add_spec(self, rhs: &ModInt<M>) -> ModInt<M> {
        ModInt::<M>::from_view((((self as int) % (M as int)) + ((*rhs)@)) % (M as int))
    }
}

impl<const M: u32> AddAssign<i16> for ModInt<M> {
    fn add_assign(&mut self, rhs: i16)
        ensures
            old(self).wf() ==> *final(self) == ModInt::<M>::from_view(((old(self)@) + ((rhs as int) % (M as int))) % (M as int)),
    {
        if self.val() < M && M < 0x8000_0000 {
            let d = ModInt::<M>::new(rhs);
            *self = *self + d;
        }
    }
}

impl<const M: u32> Sub<i16> for ModInt<M> {
    type Output = ModInt<M>;

    fn sub(self, rhs: i16) -> (r: ModInt<M>) {
        let n = ModInt::<M>::new(rhs);
        proof {
            assert(n@ == (rhs as int) % (M as int));
        }
        self - n
    }
}

impl<const M: u32> SubSpecImpl<i16> for ModInt<M> {
    open spec fn obeys_sub_spec() -> bool {
        true
    }

    open spec fn sub_req(self, rhs: i16) -> bool {
        self.wf()
    }

    open spec fn sub_spec(self, rhs: i16) -> ModInt<M> {
        ModInt::<M>::from_view(((self@) - ((rhs as int) % (M as int))) % (M as int))
    }
}

impl<const M: u32> Sub<i16> for &ModInt<M> {
    type Output = ModInt<M>;

    fn sub(self, rhs: i16) -> (r: ModInt<M>) {
        let n = ModInt::<M>::new(rhs);
        proof {
            assert(n@ == (rhs as int) % (M as int));
        }
        *self - n
    }
}

impl<const M: u32> SubSpecImpl<i16> for &ModInt<M> {
    open spec fn obeys_sub_spec() -> bool {
        true
    }

    open spec fn sub_req(self, rhs: i16) -> bool {
        (*self).wf()
    }

    open spec fn sub_spec(self, rhs: i16) -> ModInt<M> {
        ModInt::<M>::from_view((((*self)@) - ((rhs as int) % (M as int))) % (M as int))
    }
}

impl<const M: u32> Sub<ModInt<M>> for i16 {
    type Output = ModInt<M>;

    fn sub(self, rhs: ModInt<M>) -> (r: ModInt<M>) {
        let n = ModInt::<M>::new(self);
        proof {
            assert(n@ == (self as int) % (M as int));
        }
        n - rhs
    }
}

impl<const M: u32> SubSpecImpl<ModInt<M>> for i16 {
    open spec fn obeys_sub_spec() -> bool {
        true
    }

    open spec fn sub_req(self, rhs: ModInt<M>) -> bool {
        rhs.wf()
    }

    open spec fn sub_spec(self, rhs: ModInt<M>) -> ModInt<M> {
        ModInt::<M>::from_view((((self as int) % (M as int)) - (rhs@)) % (M as int))
    }
}

impl<const M: u32> Sub<&ModInt<M>> for i16 {
    type Output = ModInt<M>;

    fn sub(self, rhs: &ModInt<M>) -> (r: ModInt<M>) {
        let n = ModInt::<M>::new(self);
        proof {
            assert(n@ == (self as int) % (M as int));
        }
        n - *rhs
    }
}

impl<const M: u32> SubSpecImpl<&ModInt<M>> for i16 {
    open spec fn obeys_sub_spec() -> bool {
        true
    }

    open spec fn sub_req(self, rhs: &ModInt<M>) -> bool {
        (*rhs).wf()
    }

    open spec fn sub_spec(self, rhs: &ModInt<M>) -> ModInt<M> {
        ModInt::<M>::from_view((((self as int) % (M as int)) - ((*rhs)@)) % (M as int))
    }
}

impl<const M: u32> SubAssign<i16> for ModInt<M> {
    fn sub_assign(&mut self, rhs: i16)
        ensures
            old(self).wf() ==> *final(self) == ModInt::<M>::from_view(((old(self)@) - ((rhs as int) % (M as int))) % (M as int)),
    {
        if self.val() < M && M < 0x8000_0000 {
            let d = ModInt::<M>::new(rhs);
            *self = *self - d;
        }
    }
}

impl<const M: u32> Mul<i16> for ModInt<M> {
    type Output = ModInt<M>;

    fn mul(self, rhs: i16) -> (r: ModInt<M>) {
        let n = ModInt::<M>::new(rhs);
        proof {
            assert(n@ == (rhs as int) % (M as int));
            assert(self@ * n@ == self@ * ((rhs as int) % (M as int)));
        }
        self * n
    }
}

impl<const M: u32> MulSpecImpl<i16> for ModInt<M> {
    open spec fn obeys_mul_spec() -> bool {
        true
    }

    open spec fn mul_req(self, rhs: i16) -> bool {
        self.wf()
    }

    open spec fn mul_spec(self, rhs: i16) -> ModInt<M> {
        ModInt::<M>::from_view(((self@) * ((rhs as int) % (M as int))) % (M as int))
    }
}

impl<const M: u32> Mul<i16> for &ModInt<M> {
    type Output = ModInt<M>;

    fn mul(self, rhs: i16) -> (r: ModInt<M>) {
        let n = ModInt::<M>::new(rhs);
        proof {
            assert(n@ == (rhs as int) % (M as int));
            assert((*self)@ * n@ == (*self)@ * ((rhs as int) % (M as int)));
        }
        *self * n
    }
}

impl<const M: u32> MulSpecImpl<i16> for &ModInt<M> {
    open spec fn obeys_mul_spec() -> bool {
        true
    }

    open spec fn mul_req(self, rhs: i16) -> bool {
        (*self).wf()
    }

    open spec fn mul_spec(self, rhs: i16) -> ModInt<M> {
        ModInt::<M>::from_view((((*self)@) * ((rhs as int) % (M as int))) % (M as int))
    }
}

impl<const M: u32> Mul<ModInt<M>> for i16 {
    type Output = ModInt<M>;

    fn mul(self, rhs: ModInt<M>) -> (r: ModInt<M>) {
        let n = ModInt::<M>::new(self);
        proof {
            assert(n@ == (self as int) % (M as int));
            assert(n@ * rhs@ == ((self as int) % (M as int)) * rhs@);
        }
        n * rhs
    }
}

impl<const M: u32> MulSpecImpl<ModInt<M>> for i16 {
    open spec fn obeys_mul_spec() -> bool {
        true
    }

    open spec fn mul_req(self, rhs: ModInt<M>) -> bool {
        rhs.wf()
    }

    open spec fn mul_spec(self, rhs: ModInt<M>) -> ModInt<M> {
        ModInt::<M>::from_view((((self as int) % (M as int)) * (rhs@)) % (M as int))
    }
}

impl<const M: u32> Mul<&ModInt<M>> for i16 {
    type Output = ModInt<M>;

    fn mul(self, rhs: &ModInt<M>) -> (r: ModInt<M>) {
        let n = ModInt::<M>::new(self);
        proof {
            assert(n@ == (self as int) % (M as int));
            assert(n@ * (*rhs)@ == ((self as int) % (M as int)) * (*rhs)@);
        }
        n * *rhs
    }
}

impl<const M: u32> MulSpecImpl<&ModInt<M>> for i16 {
    open spec fn obeys_mul_spec() -> bool {
        true
    }

    open spec fn mul_req(self, rhs: &ModInt<M>) -> bool {
        (*rhs).wf()
    }

    open spec fn mul_spec(self, rhs: &ModInt<M>) -> ModInt<M> {
        ModInt::<M>::from_view((((self as int) % (M as int)) * ((*rhs)@)) % (M as int))
    }
}

impl<const M: u32> MulAssign<i16> for ModInt<M> {
    fn mul_assign(&mut self, rhs: i16)
        ensures
            old(self).wf() ==> *final(self) == ModInt::<M>::from_view(((old(self)@) * ((rhs as int) % (M as int))) % (M as int)),
    {
        if self.val() < M && M < 0x8000_0000 {
            let d = ModInt::<M>::new(rhs);
            *self = *self * d;
        }
    }
}

impl<const M: u32> Div<i16> for ModInt<M> {
    type Output = ModInt<M>;

    fn div(self, rhs: i16) -> (r: ModInt<M>) {
        let n = ModInt::<M>::new(rhs);
        proof {
            assert(n@ == (rhs as int) % (M as int));
        }
        self / n
    }
}

impl<const M: u32> DivSpecImpl<i16> for ModInt<M> {
    open spec fn obeys_div_spec() -> bool {
        true
    }

    open spec fn div_req(self, rhs: i16) -> bool {
        self.wf() && gcd(((rhs as int) % (M as int)) as nat, M as nat) == 1
    }

    open spec fn div_spec(self, rhs: i16) -> ModInt<M> {
        ModInt::<M>::from_view(quotient::<M>(self@, (rhs as int) % (M as int)))
    }
}

impl<const M: u32> Div<i16> for &ModInt<M> {
    type Output = ModInt<M>;

    fn div(self, rhs: i16) -> (r: ModInt<M>) {
        let n = ModInt::<M>::new(rhs);
        proof {
            assert(n@ == (rhs as int) % (M as int));
        }
        *self / n
    }
}

impl<const M: u32> DivSpecImpl<i16> for &ModInt<M> {
    open spec fn obeys_div_spec() -> bool {
        true
    }

    open spec fn div_req(self, rhs: i16) -> bool {
        (*self).wf() && gcd(((rhs as int) % (M as int)) as nat, M as nat) == 1
    }

    open spec fn div_spec(self, rhs: i16) -> ModInt<M> {
        ModInt::<M>::from_view(quotient::<M>((*self)@, (rhs as int) % (M as int)))
    }
}

impl<const M: u32> Div<ModInt<M>> for i16 {
    type Output = ModInt<M>;

    fn div(self, rhs: ModInt<M>) -> (r: ModInt<M>) {
        let n = ModInt::<M>::new(self);
        proof {
            assert(n@ == (self as int) % (M as int));
        }
        n / rhs
    }
}

impl<const M: u32> DivSpecImpl<ModInt<M>> for i16 {
    open spec fn obeys_div_spec() -> bool {
        true
    }

    open spec fn div_req(self, rhs: ModInt<M>) -> bool {
        rhs.wf() && gcd((rhs@) as nat, M as nat) == 1
    }

    open spec fn div_spec(self, rhs: ModInt<M>) -> ModInt<M> {
        ModInt::<M>::from_view(quotient::<M>((self as int) % (M as int), rhs@))
    }
}

impl<const M: u32> Div<&ModInt<M>> for i16 {
    type Output = ModInt<M>;

    fn div(self, rhs: &ModInt<M>) -> (r: ModInt<M>) {
        let n = ModInt::<M>::new(self);
        proof {
            assert(n@ == (self as int) % (M as int));
        }
        n / *rhs
    }
}

impl<const M: u32> DivSpecImpl<&ModInt<M>> for i16 {
    open spec fn obeys_div_spec() -> bool {
        true
    }

    open spec fn div_req(self, rhs: &ModInt<M>) -> bool {
        (*rhs).wf() && gcd(((*rhs)@) as nat, M as nat) == 1
    }

    open spec fn div_spec(self, rhs: &ModInt<M>) -> ModInt<M> {
        ModInt::<M>::from_view(quotient::<M>((self as int) % (M as int), (*rhs)@))
    }
}

impl<const M: u32> DivAssign<i16> for ModInt<M> {
    /// Leaves the value unchanged when `rhs` is not a unit.
    fn div_assign(&mut self, rhs: i16)
        ensures
            old(self).wf() && gcd(((rhs as int) % (M as int)) as nat, M as nat) == 1 ==> *final(self) == ModInt::<M>::from_view(quotient::<M>(old(self)@, (rhs as int) % (M as int))),
    {
        if self.val() < M && M < 0x8000_0000 {
            let d = ModInt::<M>::new(rhs);
            let (g, _) = inv_gcd(d.val() as i64, M as i64);
            proof {
                vstd::arithmetic::div_mod::lemma_small_mod(d@ as nat, M as nat);
            }
            if g == 1 {
                *self = *self / d;
            }
        }
    }
}

impl<const M: u32> Add<i32> for ModInt<M> {
    type Output = ModInt<M>;

    fn add(self, rhs: i32) -> (r: ModInt<M>) {
        let n = ModInt::<M>::new(rhs);
        proof {
            assert(n@ == (rhs as int) % (M as int));
        }
        self + n
    }
}

impl<const M: u32> AddSpecImpl<i32> for ModInt<M> {
    open spec fn obeys_add_spec() -> bool {
        true
    }

    open spec fn add_req(self, rhs: i32) -> bool {
        self.wf()
    }

    open spec fn add_spec(self, rhs: i32) -> ModInt<M> {
        ModInt::<M>::from_view(((self@) + ((rhs as int) % (M as int))) % (M as int))
    }
}

impl<const M: u32> Add<i32> for &ModInt<M> {
    type Output = ModInt<M>;

    fn add(self, rhs: i32) -> (r: ModInt<M>) {
        let n = ModInt::<M>::new(rhs);
        proof {
            assert(n@ == (rhs as int) % (M as int));
        }
        *self + n
    }
}

impl<const M: u32> AddSpecImpl<i32> for &ModInt<M> {
    open spec fn obeys_add_spec() -> bool {
        true
    }

    open spec fn add_req(self, rhs: i32) -> bool {
        (*self).wf()
    }

    open spec fn add_spec(self, rhs: i32) -> ModInt<M> {
        ModInt::<M>::from_view((((*self)@) + ((rhs as int) % (M as int))) % (M as int))
    }
}

impl<const M: u32> Add<ModInt<M>> for i32 {
    type Output = ModInt<M>;

    fn add(self, rhs: ModInt<M>) -> (r: ModInt<M>) {
        let n = ModInt::<M>::new(self);
        proof {
            assert(n@ == (self as int) % (M as int));
        }
        n + rhs
    }
}

impl<const M: u32> AddSpecImpl<ModInt<M>> for i32 {
    open spec fn obeys_add_spec() -> bool {
        true
    }

    open spec fn add_req(self, rhs: ModInt<M>) -> bool {
        rhs.wf()
    }

    open spec fn add_spec(self, rhs: ModInt<M>) -> ModInt<M> {
        ModInt::<M>::from_view((((self as int) % (M as int)) + (rhs@)) % (M as int))
    }
}

impl<const M: u32> Add<&ModInt<M>> for i32 {
    type Output = ModInt<M>;

    fn add(self, rhs: &ModInt<M>) -> (r: ModInt<M>) {
        let n = ModInt::<M>::new(self);
        proof {
            assert(n@ == (self as int) % (M as int));
        }
        n + *rhs
    }
}

impl<const M: u32> AddSpecImpl<&ModInt<M>> for i32 {
    open spec fn obeys_add_spec() -> bool {
        true
    }

    open spec fn add_req(self, rhs: &ModInt<M>) -> bool {
        (*rhs).wf()
    }

    open spec fn add_spec(self, rhs: &ModInt<M>) -> ModInt<M> {
        ModInt::<M>::from_view((((self as int) % (M as int)) + ((*rhs)@)) % (M as int))
    }
}

impl<const M: u32> AddAssign<i32> for ModInt<M> {
    fn add_assign(&mut self, rhs: i32)
        ensures
            old(self).wf() ==> *final(self) == ModInt::<M>::from_view(((old(self)@) + ((rhs as int) % (M as int))) % (M as int)),
    {
        if self.val() < M && M < 0x8000_0000 {
            let d = ModInt::<M>::new(rhs);
            *self = *self + d;
        }
    }
}

impl<const M: u32> Sub<i32> for ModInt<M> {
    type Output = ModInt<M>;

    fn sub(self, rhs: i32) -> (r: ModInt<M>) {
        let n = ModInt::<M>::new(rhs);
        proof {
            assert(n@ == (rhs as int) % (M as int));
        }
        self - n
    }
}

impl<const M: u32> SubSpecImpl<i32> for ModInt<M> {
    open spec fn obeys_sub_spec() -> bool {
        true
    }

    open spec fn sub_req(self, rhs: i32) -> bool {
        self.wf()
    }

    open spec fn sub_spec(self, rhs: i32) -> ModInt<M> {
        ModInt::<M>::from_view(((self@) - ((rhs as int) % (M as int))) % (M as int))
    }
}

impl<const M: u32> Sub<i32> for &ModInt<M> {
    type Output = ModInt<M>;

    fn sub(self, rhs: i32) -> (r: ModInt<M>) {
        let n = ModInt::<M>::new(rhs);
        proof {
            assert(n@ == (rhs as int) % (M as int));
        }
        *self - n
    }
}

impl<const M: u32> SubSpecImpl<i32> for &ModInt<M> {
    open spec fn obeys_sub_spec() -> bool {
        true
    }

    open spec fn sub_req(self, rhs: i32) -> bool {
        (*self).wf()
    }

    open spec fn sub_spec(self, rhs: i32) -> ModInt<M> {
        ModInt::<M>::from_view((((*self)@) - ((rhs as int) % (M as int))) % (M as int))
    }
}

impl<const M: u32> Sub<ModInt<M>> for i32 {
    type Output = ModInt<M>;

    fn sub(self, rhs: ModInt<M>) -> (r: ModInt<M>) {
        let n = ModInt::<M>::new(self);
        proof {
            assert(n@ == (self as int) % (M as int));
        }
        n - rhs
    }
}

impl<const M: u32> SubSpecImpl<ModInt<M>> for i32 {
    open spec fn obeys_sub_spec() -> bool {
        true
    }

    open spec fn sub_req(self, rhs: ModInt<M>) -> bool {
        rhs.wf()
    }

    open spec fn sub_spec(self, rhs: ModInt<M>) -> ModInt<M> {
        ModInt::<M>::from_view((((self as int) % (M as int)) - (rhs@)) % (M as int))
    }
}

impl<const M: u32> Sub<&ModInt<M>> for i32 {
    type Output = ModInt<M>;

    fn sub(self, rhs: &ModInt<M>) -> (r: ModInt<M>) {
        let n = ModInt::<M>::new(self);
        proof {
            assert(n@ == (self as int) % (M as int));
        }
        n - *rhs
    }
}

impl<const M: u32> SubSpecImpl<&ModInt<M>> for i32 {
    open spec fn obeys_sub_spec() -> bool {
        true
    }

    open spec fn sub_req(self, rhs: &ModInt<M>) -> bool {
        (*rhs).wf()
    }

    open spec fn sub_spec(self, rhs: &ModInt<M>) -> ModInt<M> {
        ModInt::<M>::from_view((((self as int) % (M as int)) - ((*rhs)@)) % (M as int))
    }
}

impl<const M: u32> SubAssign<i32> for ModInt<M> {
    fn sub_assign(&mut self, rhs: i32)
        ensures
            old(self).wf() ==> *final(self) == ModInt::<M>::from_view(((old(self)@) - ((rhs as int) % (M as int))) % (M as int)),
    {
        if self.val() < M && M < 0x8000_0000 {
            let d = ModInt::<M>::new(rhs);
            *self = *self - d;
        }
    }
}

impl<const M: u32> Mul<i32> for ModInt<M> {
    type Output = ModInt<M>;

    fn mul(self, rhs: i32) -> (r: ModInt<M>) {
        let n = ModInt::<M>::new(rhs);
        proof {
            assert(n@ == (rhs as int) % (M as int));
            assert(self@ * n@ == self@ * ((rhs as int) % (M as int)));
        }
        self * n
    }
}

impl<const M: u32> MulSpecImpl<i32> for ModInt<M> {
    open spec fn obeys_mul_spec() -> bool {
        true
    }

    open spec fn mul_req(self, rhs: i32) -> bool {
        self.wf()
    }

    open spec fn mul_spec(self, rhs: i32) -> ModInt<M> {
        ModInt::<M>::from_view(((self@) * ((rhs as int) % (M as int))) % (M as int))
    }
}

impl<const M: u32> Mul<i32> for &ModInt<M> {
    type Output = ModInt<M>;

    fn mul(self, rhs: i32) -> (r: ModInt<M>) {
        let n = ModInt::<M>::new(rhs);
        proof {
            assert(n@ == (rhs as int) % (M as int));
            assert((*self)@ * n@ == (*self)@ * ((rhs as int) % (M as int)));
        }
        *self * n
    }
}

impl<const M: u32> MulSpecImpl<i32> for &ModInt<M> {
    open spec fn obeys_mul_spec() -> bool {
        true
    }

    open spec fn mul_req(self, rhs: i32) -> bool {
        (*self).wf()
    }

    open spec fn mul_spec(self, rhs: i32) -> ModInt<M> {
        ModInt::<M>::from_view((((*self)@) * ((rhs as int) % (M as int))) % (M as int))
    }
}

impl<const M: u32> Mul<ModInt<M>> for i32 {
    type Output = ModInt<M>;

    fn mul(self, rhs: ModInt<M>) -> (r: ModInt<M>) {
        let n = ModInt::<M>::new(self);
        proof {
            assert(n@ == (self as int) % (M as int));
            assert(n@ * rhs@ == ((self as int) % (M as int)) * rhs@);
        }
        n * rhs
    }
}

impl<const M: u32> MulSpecImpl<ModInt<M>> for i32 {
    open spec fn obeys_mul_spec() -> bool {
        true
    }

    open spec fn mul_req(self, rhs: ModInt<M>) -> bool {
        rhs.wf()
    }

    open spec fn mul_spec(self, rhs: ModInt<M>) -> ModInt<M> {
        ModInt::<M>::from_view((((self as int) % (M as int)) * (rhs@)) % (M as int))
    }
}

impl<const M: u32> Mul<&ModInt<M>> for i32 {
    type Output = ModInt<M>;

    fn mul(self, rhs: &ModInt<M>) -> (r: ModInt<M>) {
        let n = ModInt::<M>::new(self);
        proof {
            assert(n@ == (self as int) % (M as int));
            assert(n@ * (*rhs)@ == ((self as int) % (M as int)) * (*rhs)@);
        }
        n * *rhs
    }
}

impl<const M: u32> MulSpecImpl<&ModInt<M>> for i32 {
    open spec fn obeys_mul_spec() -> bool {
        true
    }

    open spec fn mul_req(self, rhs: &ModInt<M>) -> bool {
        (*rhs).wf()
    }

    open spec fn mul_spec(self, rhs: &ModInt<M>) -> ModInt<M> {
        ModInt::<M>::from_view((((self as int) % (M as int)) * ((*rhs)@)) % (M as int))
    }
}

impl<const M: u32> MulAssign<i32> for ModInt<M> {
    fn mul_assign(&mut self, rhs: i32)
        ensures
            old(self).wf() ==> *final(self) == ModInt::<M>::from_view(((old(self)@) * ((rhs as int) % (M as int))) % (M as int)),
    {
        if self.val() < M && M < 0x8000_0000 {
            let d = ModInt::<M>::new(rhs);
            *self = *self * d;
        }
    }
}

impl<const M: u32> Div<i32> for ModInt<M> {
    type Output = ModInt<M>;

    fn div(self, rhs: i32) -> (r: ModInt<M>) {
        let n = ModInt::<M>::new(rhs);
        proof {
            assert(n@ == (rhs as int) % (M as int));
        }
        self / n
    }
}

impl<const M: u32> DivSpecImpl<i32> for ModInt<M> {
    open spec fn obeys_div_spec() -> bool {
        true
    }

    open spec fn div_req(self, rhs: i32) -> bool {
        self.wf() && gcd(((rhs as int) % (M as int)) as nat, M as nat) == 1
    }

    open spec fn div_spec(self, rhs: i32) -> ModInt<M> {
        ModInt::<M>::from_view(quotient::<M>(self@, (rhs as int) % (M as int)))
    }
}

impl<const M: u32> Div<i32> for &ModInt<M> {
    type Output = ModInt<M>;

    fn div(self, rhs: i32) -> (r: ModInt<M>) {
        let n = ModInt::<M>::new(rhs);
        proof {
            assert(n@ == (rhs as int) % (M as int));
        }
        *self / n
    }
}

impl<const M: u32> DivSpecImpl<i32> for &ModInt<M> {
    open spec fn obeys_div_spec() -> bool {
        true
    }

    open spec fn div_req(self, rhs: i32) -> bool {
        (*self).wf() && gcd(((rhs as int) % (M as int)) as nat, M as nat) == 1
    }

    open spec fn div_spec(self, rhs: i32) -> ModInt<M> {
        ModInt::<M>::from_view(quotient::<M>((*self)@, (rhs as int) % (M as int)))
    }
}

impl<const M: u32> Div<ModInt<M>> for i32 {
    type Output = ModInt<M>;

    fn div(self, rhs: ModInt<M>) -> (r: ModInt<M>) {
        let n = ModInt::<M>::new(self);
        proof {
            assert(n@ == (self as int) % (M as int));
        }
        n / rhs
    }
}

impl<const M: u32> DivSpecImpl<ModInt<M>> for i32 {
    open spec fn obeys_div_spec() -> bool {
        true
    }

    open spec fn div_req(self, rhs: ModInt<M>) -> bool {
        rhs.wf() && gcd((rhs@) as nat, M as nat) == 1
    }

    open spec fn div_spec(self, rhs: ModInt<M>) -> ModInt<M> {
        ModInt::<M>::from_view(quotient::<M>((self as int) % (M as int), rhs@))
    }
}

impl<const M: u32> Div<&ModInt<M>> for i32 {
    type Output = ModInt<M>;

    fn div(self, rhs: &ModInt<M>) -> (r: ModInt<M>) {
        let n = ModInt::<M>::new(self);
        proof {
            assert(n@ == (self as int) % (M as int));
        }
        n / *rhs
    }
}

impl<const M: u32> DivSpecImpl<&ModInt<M>> for i32 {
    open spec fn obeys_div_spec() -> bool {
        true
    }

    open spec fn div_req(self, rhs: &ModInt<M>) -> bool {
        (*rhs).wf() && gcd(((*rhs)@) as nat, M as nat) == 1
    }

    open spec fn div_spec(self, rhs: &ModInt<M>) -> ModInt<M> {
        ModInt::<M>::from_view(quotient::<M>((self as int) % (M as int), (*rhs)@))
    }
}

impl<const M: u32> DivAssign<i32> for ModInt<M> {
    /// Leaves the value unchanged when `rhs` is not a unit.
    fn div_assign(&mut self, rhs: i32)
        ensures
            old(self).wf() && gcd(((rhs as int) % (M as int)) as nat, M as nat) == 1 ==> *final(self) == ModInt::<M>::from_view(quotient::<M>(old(self)@, (rhs as int) % (M as int))),
    {
        if self.val() < M && M < 0x8000_0000 {
            let d = ModInt::<M>::new(rhs);
            let (g, _) = inv_gcd(d.val() as i64, M as i64);
            proof {
                vstd::arithmetic::div_mod::lemma_small_mod(d@ as nat, M as nat);
            }
            if g == 1 {
                *self = *self / d;
            }
        }
    }
}

impl<const M: u32> Add<i64> for ModInt<M> {
    type Output = ModInt<M>;

    fn add(self, rhs: i64) -> (r: ModInt<M>) {
        let n = ModInt::<M>::new(rhs);
        proof {
            assert(n@ == (rhs as int) % (M as int));
        }
        self + n
    }
}

impl<const M: u32> AddSpecImpl<i64> for ModInt<M> {
    open spec fn obeys_add_spec() -> bool {
        true
    }

    open spec fn add_req(self, rhs: i64) -> bool {
        self.wf()
    }

    open spec fn add_spec(self, rhs: i64) -> ModInt<M> {
        ModInt::<M>::from_view(((self@) + ((rhs as int) % (M as int))) % (M as int))
    }
}

impl<const M: u32> Add<i64> for &ModInt<M> {
    type Output = ModInt<M>;

    fn add(self, rhs: i64) -> (r: ModInt<M>) {
        let n = ModInt::<M>::new(rhs);
        proof {
            assert(n@ == (rhs as int) % (M as int));
        }
        *self + n
    }
}

impl<const M: u32> AddSpecImpl<i64> for &ModInt<M> {
    open spec fn obeys_add_spec() -> bool {
        true
    }

    open spec fn add_req(self, rhs: i64) -> bool {
        (*self).wf()
    }

    open spec fn add_spec(self, rhs: i64) -> ModInt<M> {
        ModInt::<M>::from_view((((*self)@) + ((rhs as int) % (M as int))) % (M as int))
    }
}

impl<const M: u32> Add<ModInt<M>> for i64 {
    type Output = ModInt<M>;

    fn add(self, rhs: ModInt<M>) -> (r: ModInt<M>) {
        let n = ModInt::<M>::new(self);
        proof {
            assert(n@ == (self as int) % (M as int));
        }
        n + rhs
    }
}

impl<const M: u32> AddSpecImpl<ModInt<M>> for i64 {
    open spec fn obeys_add_spec() -> bool {
        true
    }

    open spec fn add_req(self, rhs: ModInt<M>) -> bool {
        rhs.wf()
    }

    open spec fn add_spec(self, rhs: ModInt<M>) -> ModInt<M> {
        ModInt::<M>::from_view((((self as int) % (M as int)) + (rhs@)) % (M as int))
    }
}

impl<const M: u32> Add<&ModInt<M>> for i64 {
    type Output = ModInt<M>;

    fn add(self, rhs: &ModInt<M>) -> (r: ModInt<M>) {
        let n = ModInt::<M>::new(self);
        proof {
            assert(n@ == (self as int) % (M as int));
        }
        n + *rhs
    }
}

impl<const M: u32> AddSpecImpl<&ModInt<M>> for i64 {
    open spec fn obeys_add_spec() -> bool {
        true
    }

    open spec fn add_req(self, rhs: &ModInt<M>) -> bool {
        (*rhs).wf()
    }

    open spec fn add_spec(self, rhs: &ModInt<M>) -> ModInt<M> {
        ModInt::<M>::from_view((((self as int) % (M as int)) + ((*rhs)@)) % (M as int))
    }
}

impl<const M: u32> AddAssign<i64> for ModInt<M> {
    fn add_assign(&mut self, rhs: i64)
        ensures
            old(self).wf() ==> *final(self) == ModInt::<M>::from_view(((old(self)@) + ((rhs as int) % (M as int))) % (M as int)),
    {
        if self.val() < M && M < 0x8000_0000 {
            let d = ModInt::<M>::new(rhs);
            *self = *self + d;
        }
    }
}

impl<const M: u32> Sub<i64> for ModInt<M> {
    type Output = ModInt<M>;

    fn sub(self, rhs: i64) -> (r: ModInt<M>) {
        let n = ModInt::<M>::new(rhs);
        proof {
            assert(n@ == (rhs as int) % (M as int));
        }
        self - n
    }
}

impl<const M: u32> SubSpecImpl<i64> for ModInt<M> {
    open spec fn obeys_sub_spec() -> bool {
        true
    }

    open spec fn sub_req(self, rhs: i64) -> bool {
        self.wf()
    }

    open spec fn sub_spec(self, rhs: i64) -> ModInt<M> {
        ModInt::<M>::from_view(((self@) - ((rhs as int) % (M as int))) % (M as int))
    }
}

impl<const M: u32> Sub<i64> for &ModInt<M> {
    type Output = ModInt<M>;

    fn sub(self, rhs: i64) -> (r: ModInt<M>) {
        let n = ModInt::<M>::new(rhs);
        proof {
            assert(n@ == (rhs as int) % (M as int));
        }
        *self - n
    }
}

impl<const M: u32> SubSpecImpl<i64> for &ModInt<M> {
    open spec fn obeys_sub_spec() -> bool {
        true
    }

    open spec fn sub_req(self, rhs: i64) -> bool {
        (*self).wf()
    }

    open spec fn sub_spec(self, rhs: i64) -> ModInt<M> {
        ModInt::<M>::from_view((((*self)@) - ((rhs as int) % (M as int))) % (M as int))
    }
}

impl<const M: u32> Sub<ModInt<M>> for i64 {
    type Output = ModInt<M>;

    fn sub(self, rhs: ModInt<M>) -> (r: ModInt<M>) {
        let n = ModInt::<M>::new(self);
        proof {
            assert(n@ == (self as int) % (M as int));
        }
        n - rhs
    }
}

impl<const M: u32> SubSpecImpl<ModInt<M>> for i64 {
    open spec fn obeys_sub_spec() -> bool {
        true
    }

    open spec fn sub_req(self, rhs: ModInt<M>) -> bool {
        rhs.wf()
    }

    open spec fn sub_spec(self, rhs: ModInt<M>) -> ModInt<M> {
        ModInt::<M>::from_view((((self as int) % (M as int)) - (rhs@)) % (M as int))
    }
}

impl<const M: u32> Sub<&ModInt<M>> for i64 {
    type Output = ModInt<M>;

    fn sub(self, rhs: &ModInt<M>) -> (r: ModInt<M>) {
        let n = ModInt::<M>::new(self);
        proof {
            assert(n@ == (self as int) % (M as int));
        }
        n - *rhs
    }
}

impl<const M: u32> SubSpecImpl<&ModInt<M>> for i64 {
    open spec fn obeys_sub_spec() -> bool {
        true
    }

    open spec fn sub_req(self, rhs: &ModInt<M>) -> bool {
        (*rhs).wf()
    }

    open spec fn sub_spec(self, rhs: &ModInt<M>) -> ModInt<M> {
        ModInt::<M>::from_view((((self as int) % (M as int)) - ((*rhs)@)) % (M as int))
    }
}

impl<const M: u32> SubAssign<i64> for ModInt<M> {
    fn sub_assign(&mut self, rhs: i64)
        ensures
            old(self).wf() ==> *final(self) == ModInt::<M>::from_view(((old(self)@) - ((rhs as int) % (M as int))) % (M as int)),
    {
        if self.val() < M && M < 0x8000_0000 {
            let d = ModInt::<M>::new(rhs);
            *self = *self - d;
        }
    }
}

impl<const M: u32> Mul<i64> for ModInt<M> {
    type Output = ModInt<M>;

    fn mul(self, rhs: i64) -> (r: ModInt<M>) {
        let n = ModInt::<M>::new(rhs);
        proof {
            assert(n@ == (rhs as int) % (M as int));
            assert(self@ * n@ == self@ * ((rhs as int) % (M as int)));
        }
        self * n
    }
}

impl<const M: u32> MulSpecImpl<i64> for ModInt<M> {
    open spec fn obeys_mul_spec() -> bool {
        true
    }

    open spec fn mul_req(self, rhs: i64) -> bool {
        self.wf()
    }

    open spec fn mul_spec(self, rhs: i64) -> ModInt<M> {
        ModInt::<M>::from_view(((self@) * ((rhs as int) % (M as int))) % (M as int))
    }
}

impl<const M: u32> Mul<i64> for &ModInt<M> {
    type Output = ModInt<M>;

    fn mul(self, rhs: i64) -> (r: ModInt<M>) {
        let n = ModInt::<M>::new(rhs);
        proof {
            assert(n@ == (rhs as int) % (M as int));
            assert((*self)@ * n@ == (*self)@ * ((rhs as int) % (M as int)));
        }
        *self * n
    }
}

impl<const M: u32> MulSpecImpl<i64> for &ModInt<M> {
    open spec fn obeys_mul_spec() -> bool {
        true
    }

    open spec fn mul_req(self, rhs: i64) -> bool {
        (*self).wf()
    }

    open spec fn mul_spec(self, rhs: i64) -> ModInt<M> {
        ModInt::<M>::from_view((((*self)@) * ((rhs as int) % (M as int))) % (M as int))
    }
}

impl<const M: u32> Mul<ModInt<M>> for i64 {
    type Output = ModInt<M>;

    fn mul(self, rhs: ModInt<M>) -> (r: ModInt<M>) {
        let n = ModInt::<M>::new(self);
        proof {
            assert(n@ == (self as int) % (M as int));
            assert(n@ * rhs@ == ((self as int) % (M as int)) * rhs@);
        }
        n * rhs
    }
}

impl<const M: u32> MulSpecImpl<ModInt<M>> for i64 {
    open spec fn obeys_mul_spec() -> bool {
        true
    }

    open spec fn mul_req(self, rhs: ModInt<M>) -> bool {
        rhs.wf()
    }

    open spec fn mul_spec(self, rhs: ModInt<M>) -> ModInt<M> {
        ModInt::<M>::from_view((((self as int) % (M as int)) * (rhs@)) % (M as int))
    }
}

impl<const M: u32> Mul<&ModInt<M>> for i64 {
    type Output = ModInt<M>;

    fn mul(self, rhs: &ModInt<M>) -> (r: ModInt<M>) {
        let n = ModInt::<M>::new(self);
        proof {
            assert(n@ == (self as int) % (M as int));
            assert(n@ * (*rhs)@ == ((self as int) % (M as int)) * (*rhs)@);
        }
        n * *rhs
    }
}

impl<const M: u32> MulSpecImpl<&ModInt<M>> for i64 {
    open spec fn obeys_mul_spec() -> bool {
        true
    }

    open spec fn mul_req(self, rhs: &ModInt<M>) -> bool {
        (*rhs).wf()
    }

    open spec fn mul_spec(self, rhs: &ModInt<M>) -> ModInt<M> {
        ModInt::<M>::from_view((((self as int) % (M as int)) * ((*rhs)@)) % (M as int))
    }
}

impl<const M: u32> MulAssign<i64> for ModInt<M> {
    fn mul_assign(&mut self, rhs: i64)
        ensures
            old(self).wf() ==> *final(self) == ModInt::<M>::from_view(((old(self)@) * ((rhs as int) % (M as int))) % (M as int)),
    {
        if self.val() < M && M < 0x8000_0000 {
            let d = ModInt::<M>::new(rhs);
            *self = *self * d;
        }
    }
}

impl<const M: u32> Div<i64> for ModInt<M> {
    type Output = ModInt<M>;

    fn div(self, rhs: i64) -> (r: ModInt<M>) {
        let n = ModInt::<M>::new(rhs);
        proof {
            assert(n@ == (rhs as int) % (M as int));
        }
        self / n
    }
}

impl<const M: u32> DivSpecImpl<i64> for ModInt<M> {
    open spec fn obeys_div_spec() -> bool {
        true
    }

    open spec fn div_req(self, rhs: i64) -> bool {
        self.wf() && gcd(((rhs as int) % (M as int)) as nat, M as nat) == 1
    }

    open spec fn div_spec(self, rhs: i64) -> ModInt<M> {
        ModInt::<M>::from_view(quotient::<M>(self@, (rhs as int) % (M as int)))
    }
}

impl<const M: u32> Div<i64> for &ModInt<M> {
    type Output = ModInt<M>;

    fn div(self, rhs: i64) -> (r: ModInt<M>) {
        let n = ModInt::<M>::new(rhs);
        proof {
            assert(n@ == (rhs as int) % (M as int));
        }
        *self / n
    }
}

impl<const M: u32> DivSpecImpl<i64> for &ModInt<M> {
    open spec fn obeys_div_spec() -> bool {
        true
    }

    open spec fn div_req(self, rhs: i64) -> bool {
        (*self).wf() && gcd(((rhs as int) % (M as int)) as nat, M as nat) == 1
    }

    open spec fn div_spec(self, rhs: i64) -> ModInt<M> {
        ModInt::<M>::from_view(quotient::<M>((*self)@, (rhs as int) % (M as int)))
    }
}

impl<const M: u32> Div<ModInt<M>> for i64 {
    type Output = ModInt<M>;

    fn div(self, rhs: ModInt<M>) -> (r: ModInt<M>) {
        let n = ModInt::<M>::new(self);
        proof {
            assert(n@ == (self as int) % (M as int));
        }
        n / rhs
    }
}

impl<const M: u32> DivSpecImpl<ModInt<M>> for i64 {
    open spec fn obeys_div_spec() -> bool {
        true
    }

    open spec fn div_req(self, rhs: ModInt<M>) -> bool {
        rhs.wf() && gcd((rhs@) as nat, M as nat) == 1
    }

    open spec fn div_spec(self, rhs: ModInt<M>) -> ModInt<M> {
        ModInt::<M>::from_view(quotient::<M>((self as int) % (M as int), rhs@))
    }
}

impl<const M: u32> Div<&ModInt<M>> for i64 {
    type Output = ModInt<M>;

    fn div(self, rhs: &ModInt<M>) -> (r: ModInt<M>) {
        let n = ModInt::<M>::new(self);
        proof {
            assert(n@ == (self as int) % (M as int));
        }
        n / *rhs
    }
}

impl<const M: u32> DivSpecImpl<&ModInt<M>> for i64 {
    open spec fn obeys_div_spec() -> bool {
        true
    }

    open spec fn div_req(self, rhs: &ModInt<M>) -> bool {
        (*rhs).wf() && gcd(((*rhs)@) as nat, M as nat) == 1
    }

    open spec fn div_spec(self, rhs: &ModInt<M>) -> ModInt<M> {
        ModInt::<M>::from_view(quotient::<M>((self as int) % (M as int), (*rhs)@))
    }
}

impl<const M: u32> DivAssign<i64> for ModInt<M> {
    /// Leaves the value unchanged when `rhs` is not a unit.
    fn div_assign(&mut self, rhs: i64)
        ensures
            old(self).wf() && gcd(((rhs as int) % (M as int)) as nat, M as nat) == 1 ==> *final(self) == ModInt::<M>::from_view(quotient::<M>(old(self)@, (rhs as int) % (M as int))),
    {
        if self.val() < M && M < 0x8000_0000 {
            let d = ModInt::<M>::new(rhs);
            let (g, _) = inv_gcd(d.val() as i64, M as i64);
            proof {
                vstd::arithmetic::div_mod::lemma_small_mod(d@ as nat, M as nat);
            }
            if g == 1 {
                *self = *self / d;
            }
        }
    }
}

impl<const M: u32> Add<i128> for ModInt<M> {
    type Output = ModInt<M>;

    fn add(self, rhs: i128) -> (r: ModInt<M>) {
        let n = ModInt::<M>::new(rhs);
        proof {
            assert(n@ == (rhs as int) % (M as int));
        }
        self + n
    }
}

impl<const M: u32> AddSpecImpl<i128> for ModInt<M> {
    open spec fn obeys_add_spec() -> bool {
        true
    }

    open spec fn add_req(self, rhs: i128) -> bool {
        self.wf()
    }

    open spec fn add_spec(self, rhs: i128) -> ModInt<M> {
        ModInt::<M>::from_view(((self@) + ((rhs as int) % (M as int))) % (M as int))
    }
}

impl<const M: u32> Add<i128> for &ModInt<M> {
    type Output = ModInt<M>;

    fn add(self, rhs: i128) -> (r: ModInt<M>) {
        let n = ModInt::<M>::new(rhs);
        proof {
            assert(n@ == (rhs as int) % (M as int));
        }
        *self + n
    }
}

impl<const M: u32> AddSpecImpl<i128> for &ModInt<M> {
    open spec fn obeys_add_spec() -> bool {
        true
    }

    open spec fn add_req(self, rhs: i128) -> bool {
        (*self).wf()
    }

    open spec fn add_spec(self, rhs: i128) -> ModInt<M> {
        ModInt::<M>::from_view((((*self)@) + ((rhs as int) % (M as int))) % (M as int))
    }
}

impl<const M: u32> Add<ModInt<M>> for i128 {
    type Output = ModInt<M>;

    fn add(self, rhs: ModInt<M>) -> (r: ModInt<M>) {
        let n = ModInt::<M>::new(self);
        proof {
            assert(n@ == (self as int) % (M as int));
        }
        n + rhs
    }
}

impl<const M: u32> AddSpecImpl<ModInt<M>> for i128 {
    open spec fn obeys_add_spec() -> bool {
        true
    }

    open spec fn add_req(self, rhs: ModInt<M>) -> bool {
        rhs.wf()
    }

    open spec fn add_spec(self, rhs: ModInt<M>) -> ModInt<M> {
        ModInt::<M>::from_view((((self as int) % (M as int)) + (rhs@)) % (M as int))
    }
}

impl<const M: u32> Add<&ModInt<M>> for i128 {
    type Output = ModInt<M>;

    fn add(self, rhs: &ModInt<M>) -> (r: ModInt<M>) {
        let n = ModInt::<M>::new(self);
        proof {
            assert(n@ == (self as int) % (M as int));
        }
        n + *rhs
    }
}

impl<const M: u32> AddSpecImpl<&ModInt<M>> for i128 {
    open spec fn obeys_add_spec() -> bool {
        true
    }

    open spec fn add_req(self, rhs: &ModInt<M>) -> bool {
        (*rhs).wf()
    }

    open spec fn add_spec(self, rhs: &ModInt<M>) -> ModInt<M> {
        ModInt::<M>::from_view((((self as int) % (M as int)) + ((*rhs)@)) % (M as int))
    }
}

impl<const M: u32> AddAssign<i128> for ModInt<M> {
    fn add_assign(&mut self, rhs: i128)
        ensures
            old(self).wf() ==> *final(self) == ModInt::<M>::from_view(((old(self)@) + ((rhs as int) % (M as int))) % (M as int)),
    {
        if self.val() < M && M < 0x8000_0000 {
            let d = ModInt::<M>::new(rhs);
            *self = *self + d;
        }
    }
}

impl<const M: u32> Sub<i128> for ModInt<M> {
    type Output = ModInt<M>;

    fn sub(self, rhs: i128) -> (r: ModInt<M>) {
        let n = ModInt::<M>::new(rhs);
        proof {
            assert(n@ == (rhs as int) % (M as int));
        }
        self - n
    }
}

impl<const M: u32> SubSpecImpl<i128> for ModInt<M> {
    open spec fn obeys_sub_spec() -> bool {
        true
    }

    open spec fn sub_req(self, rhs: i128) -> bool {
        self.wf()
    }

    open spec fn sub_spec(self, rhs: i128) -> ModInt<M> {
        ModInt::<M>::from_view(((self@) - ((rhs as int) % (M as int))) % (M as int))
    }
}

impl<const M: u32> Sub<i128> for &ModInt<M> {
    type Output = ModInt<M>;

    fn sub(self, rhs: i128) -> (r: ModInt<M>) {
        let n = ModInt::<M>::new(rhs);
        proof {
            assert(n@ == (rhs as int) % (M as int));
        }
        *self - n
    }
}

impl<const M: u32> SubSpecImpl<i128> for &ModInt<M> {
    open spec fn obeys_sub_spec() -> bool {
        true
    }

    open spec fn sub_req(self, rhs: i128) -> bool {
        (*self).wf()
    }

    open spec fn sub_spec(self, rhs: i128) -> ModInt<M> {
        ModInt::<M>::from_view((((*self)@) - ((rhs as int) % (M as int))) % (M as int))
    }
}

impl<const M: u32> Sub<ModInt<M>> for i128 {
    type Output = ModInt<M>;

    fn sub(self, rhs: ModInt<M>) -> (r: ModInt<M>) {
        let n = ModInt::<M>::new(self);
        proof {
            assert(n@ == (self as int) % (M as int));
        }
        n - rhs
    }
}

impl<const M: u32> SubSpecImpl<ModInt<M>> for i128 {
    open spec fn obeys_sub_spec() -> bool {
        true
    }

    open spec fn sub_req(self, rhs: ModInt<M>) -> bool {
        rhs.wf()
    }

    open spec fn sub_spec(self, rhs: ModInt<M>) -> ModInt<M> {
        ModInt::<M>::from_view((((self as int) % (M as int)) - (rhs@)) % (M as int))
    }
}

impl<const M: u32> Sub<&ModInt<M>> for i128 {
    type Output = ModInt<M>;

    fn sub(self, rhs: &ModInt<M>) -> (r: ModInt<M>) {
        let n = ModInt::<M>::new(self);
        proof {
            assert(n@ == (self as int) % (M as int));
        }
        n - *rhs
    }
}

impl<const M: u32> SubSpecImpl<&ModInt<M>> for i128 {
    open spec fn obeys_sub_spec() -> bool {
        true
    }

    open spec fn sub_req(self, rhs: &ModInt<M>) -> bool {
        (*rhs).wf()
    }

    open spec fn sub_spec(self, rhs: &ModInt<M>) -> ModInt<M> {
        ModInt::<M>::from_view((((self as int) % (M as int)) - ((*rhs)@)) % (M as int))
    }
}

impl<const M: u32> SubAssign<i128> for ModInt<M> {
    fn sub_assign(&mut self, rhs: i128)
        ensures
            old(self).wf() ==> *final(self) == ModInt::<M>::from_view(((old(self)@) - ((rhs as int) % (M as int))) % (M as int)),
    {
        if self.val() < M && M < 0x8000_0000 {
            let d = ModInt::<M>::new(rhs);
            *self = *self - d;
        }
    }
}

impl<const M: u32> Mul<i128> for ModInt<M> {
    type Output = ModInt<M>;

    fn mul(self, rhs: i128) -> (r: ModInt<M>) {
        let n = ModInt::<M>::new(rhs);
        proof {
            assert(n@ == (rhs as int) % (M as int));
            assert(self@ * n@ == self@ * ((rhs as int) % (M as int)));
        }
        self * n
    }
}

impl<const M: u32> MulSpecImpl<i128> for ModInt<M> {
    open spec fn obeys_mul_spec() -> bool {
        true
    }

    open spec fn mul_req(self, rhs: i128) -> bool {
        self.wf()
    }

    open spec fn mul_spec(self, rhs: i128) -> ModInt<M> {
        ModInt::<M>::from_view(((self@) * ((rhs as int) % (M as int))) % (M as int))
    }
}

impl<const M: u32> Mul<i128> for &ModInt<M> {
    type Output = ModInt<M>;

    fn mul(self, rhs: i128) -> (r: ModInt<M>) {
        let n = ModInt::<M>::new(rhs);
        proof {
            assert(n@ == (rhs as int) % (M as int));
            assert((*self)@ * n@ == (*self)@ * ((rhs as int) % (M as int)));
        }
        *self * n
    }
}

impl<const M: u32> MulSpecImpl<i128> for &ModInt<M> {
    open spec fn obeys_mul_spec() -> bool {
        true
    }

    open spec fn mul_req(self, rhs: i128) -> bool {
        (*self).wf()
    }

    open spec fn mul_spec(self, rhs: i128) -> ModInt<M> {
        ModInt::<M>::from_view((((*self)@) * ((rhs as int) % (M as int))) % (M as int))
    }
}

impl<const M: u32> Mul<ModInt<M>> for i128 {
    type Output = ModInt<M>;

    fn mul(self, rhs: ModInt<M>) -> (r: ModInt<M>) {
        let n = ModInt::<M>::new(self);
        proof {
            assert(n@ == (self as int) % (M as int));
            assert(n@ * rhs@ == ((self as int) % (M as int)) * rhs@);
        }
        n * rhs
    }
}

impl<const M: u32> MulSpecImpl<ModInt<M>> for i128 {
    open spec fn obeys_mul_spec() -> bool {
        true
    }

    open spec fn mul_req(self, rhs: ModInt<M>) -> bool {
        rhs.wf()
    }

    open spec fn mul_spec(self, rhs: ModInt<M>) -> ModInt<M> {
        ModInt::<M>::from_view((((self as int) % (M as int)) * (rhs@)) % (M as int))
    }
}

impl<const M: u32> Mul<&ModInt<M>> for i128 {
    type Output = ModInt<M>;

    fn mul(self, rhs: &ModInt<M>) -> (r: ModInt<M>) {
        let n = ModInt::<M>::new(self);
        proof {
            assert(n@ == (self as int) % (M as int));
            assert(n@ * (*rhs)@ == ((self as int) % (M as int)) * (*rhs)@);
        }
        n * *rhs
    }
}

impl<const M: u32> MulSpecImpl<&ModInt<M>> for i128 {
    open spec fn obeys_mul_spec() -> bool {
        true
    }

    open spec fn mul_req(self, rhs: &ModInt<M>) -> bool {
        (*rhs).wf()
    }

    open spec fn mul_spec(self, rhs: &ModInt<M>) -> ModInt<M> {
        ModInt::<M>::from_view((((self as int) % (M as int)) * ((*rhs)@)) % (M as int))
    }
}

impl<const M: u32> MulAssign<i128> for ModInt<M> {
    fn mul_assign(&mut self, rhs: i128)
        ensures
            old(self).wf() ==> *final(self) == ModInt::<M>::from_view(((old(self)@) * ((rhs as int) % (M as int))) % (M as int)),
    {
        if self.val() < M && M < 0x8000_0000 {
            let d = ModInt::<M>::new(rhs);
            *self = *self * d;
        }
    }
}

impl<const M: u32> Div<i128> for ModInt<M> {
    type Output = ModInt<M>;

    fn div(self, rhs: i128) -> (r: ModInt<M>) {
        let n = ModInt::<M>::new(rhs);
        proof {
            assert(n@ == (rhs as int) % (M as int));
        }
        self / n
    }
}

impl<const M: u32> DivSpecImpl<i128> for ModInt<M> {
    open spec fn obeys_div_spec() -> bool {
        true
    }

    open spec fn div_req(self, rhs: i128) -> bool {
        self.wf() && gcd(((rhs as int) % (M as int)) as nat, M as nat) == 1
    }

    open spec fn div_spec(self, rhs: i128) -> ModInt<M> {
        ModInt::<M>::from_view(quotient::<M>(self@, (rhs as int) % (M as int)))
    }
}

impl<const M: u32> Div<i128> for &ModInt<M> {
    type Output = ModInt<M>;

    fn div(self, rhs: i128) -> (r: ModInt<M>) {
        let n = ModInt::<M>::new(rhs);
        proof {
            assert(n@ == (rhs as int) % (M as int));
        }
        *self / n
    }
}

impl<const M: u32> DivSpecImpl<i128> for &ModInt<M> {
    open spec fn obeys_div_spec() -> bool {
        true
    }

    open spec fn div_req(self, rhs: i128) -> bool {
        (*self).wf() && gcd(((rhs as int) % (M as int)) as nat, M as nat) == 1
    }

    open spec fn div_spec(self, rhs: i128) -> ModInt<M> {
        ModInt::<M>::from_view(quotient::<M>((*self)@, (rhs as int) % (M as int)))
    }
}

impl<const M: u32> Div<ModInt<M>> for i128 {
    type Output = ModInt<M>;

    fn div(self, rhs: ModInt<M>) -> (r: ModInt<M>) {
        let n = ModInt::<M>::new(self);
        proof {
            assert(n@ == (self as int) % (M as int));
        }
        n / rhs
    }
}

impl<const M: u32> DivSpecImpl<ModInt<M>> for i128 {
    open spec fn obeys_div_spec() -> bool {
        true
    }

    open spec fn div_req(self, rhs: ModInt<M>) -> bool {
        rhs.wf() && gcd((rhs@) as nat, M as nat) == 1
    }

    open spec fn div_spec(self, rhs: ModInt<M>) -> ModInt<M> {
        ModInt::<M>::from_view(quotient::<M>((self as int) % (M as int), rhs@))
    }
}

impl<const M: u32> Div<&ModInt<M>> for i128 {
    type Output = ModInt<M>;

    fn div(self, rhs: &ModInt<M>) -> (r: ModInt<M>) {
        let n = ModInt::<M>::new(self);
        proof {
            assert(n@ == (self as int) % (M as int));
        }
        n / *rhs
    }
}

impl<const M: u32> DivSpecImpl<&ModInt<M>> for i128 {
    open spec fn obeys_div_spec() -> bool {
        true
    }

    open spec fn div_req(self, rhs: &ModInt<M>) -> bool {
        (*rhs).wf() && gcd(((*rhs)@) as nat, M as nat) == 1
    }

    open spec fn div_spec(self, rhs: &ModInt<M>) -> ModInt<M> {
        ModInt::<M>::from_view(quotient::<M>((self as int) % (M as int), (*rhs)@))
    }
}

impl<const M: u32> DivAssign<i128> for ModInt<M> {
    /// Leaves the value unchanged when `rhs` is not a unit.
    fn div_assign(&mut self, rhs: i128)
        ensures
            old(self).wf() && gcd(((rhs as int) % (M as int)) as nat, M as nat) == 1 ==> *final(self) == ModInt::<M>::from_view(quotient::<M>(old(self)@, (rhs as int) % (M as int))),
    {
        if self.val() < M && M < 0x8000_0000 {
            let d = ModInt::<M>::new(rhs);
            let (g, _) = inv_gcd(d.val() as i64, M as i64);
            proof {
                vstd::arithmetic::div_mod::lemma_small_mod(d@ as nat, M as nat);
            }
            if g == 1 {
                *self = *self / d;
            }
        }
    }
}

impl<const M: u32> Add<isize> for ModInt<M> {
    type Output = ModInt<M>;

    fn add(self, rhs: isize) -> (r: ModInt<M>) {
        let n = ModInt::<M>::new(rhs);
        proof {
            assert(n@ == (rhs as int) % (M as int));
        }
        self + n
    }
}

impl<const M: u32> AddSpecImpl<isize> for ModInt<M> {
    open spec fn obeys_add_spec() -> bool {
        true
    }

    open spec fn add_req(self, rhs: isize) -> bool {
        self.wf()
    }

    open spec fn add_spec(self, rhs: isize) -> ModInt<M> {
        ModInt::<M>::from_view(((self@) + ((rhs as int) % (M as int))) % (M as int))
    }
}

impl<const M: u32> Add<isize> for &ModInt<M> {
    type Output = ModInt<M>;

    fn add(self, rhs: isize) -> (r: ModInt<M>) {
        let n = ModInt::<M>::new(rhs);
        proof {
            assert(n@ == (rhs as int) % (M as int));
        }
        *self + n
    }
}

impl<const M: u32> AddSpecImpl<isize> for &ModInt<M> {
    open spec fn obeys_add_spec() -> bool {
        true
    }

    open spec fn add_req(self, rhs: isize) -> bool {
        (*self).wf()
    }

    open spec fn add_spec(self, rhs: isize) -> ModInt<M> {
        ModInt::<M>::from_view((((*self)@) + ((rhs as int) % (M as int))) % (M as int))
    }
}

impl<const M: u32> Add<ModInt<M>> for isize {
    type Output = ModInt<M>;

    fn add(self, rhs: ModInt<M>) -> (r: ModInt<M>) {
        let n = ModInt::<M>::new(self);
        proof {
            assert(n@ == (self as int) % (M as int));
        }
        n + rhs
    }
}

impl<const M: u32> AddSpecImpl<ModInt<M>> for isize {
    open spec fn obeys_add_spec() -> bool {
        true
    }

    open spec fn add_req(self, rhs: ModInt<M>) -> bool {
        rhs.wf()
    }

    open spec fn add_spec(self, rhs: ModInt<M>) -> ModInt<M> {
        ModInt::<M>::from_view((((self as int) % (M as int)) + (rhs@)) % (M as int))
    }
}

impl<const M: u32> Add<&ModInt<M>> for isize {
    type Output = ModInt<M>;

    fn add(self, rhs: &ModInt<M>) -> (r: ModInt<M>) {
        let n = ModInt::<M>::new(self);
        proof {
            assert(n@ == (self as int) % (M as int));
        }
        n + *rhs
    }
}

impl<const M: u32> AddSpecImpl<&ModInt<M>> for isize {
    open spec fn obeys_add_spec() -> bool {
        true
    }

    open spec fn add_req(self, rhs: &ModInt<M>) -> bool {
        (*rhs).wf()
    }

    open spec fn add_spec(self, rhs: &ModInt<M>) -> ModInt<M> {
        ModInt::<M>::from_view((((self as int) % (M as int)) + ((*rhs)@)) % (M as int))
    }
}

impl<const M: u32> AddAssign<isize> for ModInt<M> {
    fn add_assign(&mut self, rhs: isize)
        ensures
            old(self).wf() ==> *final(self) == ModInt::<M>::from_view(((old(self)@) + ((rhs as int) % (M as int))) % (M as int)),
    {
        if self.val() < M && M < 0x8000_0000 {
            let d = ModInt::<M>::new(rhs);
            *self = *self + d;
        }
    }
}

impl<const M: u32> Sub<isize> for ModInt<M> {
    type Output = ModInt<M>;

    fn sub(self, rhs: isize) -> (r: ModInt<M>) {
        let n = ModInt::<M>::new(rhs);
        proof {
            assert(n@ == (rhs as int) % (M as int));
        }
        self - n
    }
}

impl<const M: u32> SubSpecImpl<isize> for ModInt<M> {
    open spec fn obeys_sub_spec() -> bool {
        true
    }

    open spec fn sub_req(self, rhs: isize) -> bool {
        self.wf()
    }

    open spec fn sub_spec(self, rhs: isize) -> ModInt<M> {
        ModInt::<M>::from_view(((self@) - ((rhs as int) % (M as int))) % (M as int))
    }
}

impl<const M: u32> Sub<isize> for &ModInt<M> {
    type Output = ModInt<M>;

    fn sub(self, rhs: isize) -> (r: ModInt<M>) {
        let n = ModInt::<M>::new(rhs);
        proof {
            assert(n@ == (rhs as int) % (M as int));
        }
        *self - n
    }
}

impl<const M: u32> SubSpecImpl<isize> for &ModInt<M> {
    open spec fn obeys_sub_spec() -> bool {
        true
    }

    open spec fn sub_req(self, rhs: isize) -> bool {
        (*self).wf()
    }

    open spec fn sub_spec(self, rhs: isize) -> ModInt<M> {
        ModInt::<M>::from_view((((*self)@) - ((rhs as int) % (M as int))) % (M as int))
    }
}

impl<const M: u32> Sub<ModInt<M>> for isize {
    type Output = ModInt<M>;

    fn sub(self, rhs: ModInt<M>) -> (r: ModInt<M>) {
        let n = ModInt::<M>::new(self);
        proof {
            assert(n@ == (self as int) % (M as int));
        }
        n - rhs
    }
}

impl<const M: u32> SubSpecImpl<ModInt<M>> for isize {
    open spec fn obeys_sub_spec() -> bool {
        true
    }

    open spec fn sub_req(self, rhs: ModInt<M>) -> bool {
        rhs.wf()
    }

    open spec fn sub_spec(self, rhs: ModInt<M>) -> ModInt<M> {
        ModInt::<M>::from_view((((self as int) % (M as int)) - (rhs@)) % (M as int))
    }
}

impl<const M: u32> Sub<&ModInt<M>> for isize {
    type Output = ModInt<M>;

    fn sub(self, rhs: &ModInt<M>) -> (r: ModInt<M>) {
        let n = ModInt::<M>::new(self);
        proof {
            assert(n@ == (self as int) % (M as int));
        }
        n - *rhs
    }
}

impl<const M: u32> SubSpecImpl<&ModInt<M>> for isize {
    open spec fn obeys_sub_spec() -> bool {
        true
    }

    open spec fn sub_req(self, rhs: &ModInt<M>) -> bool {
        (*rhs).wf()
    }

    open spec fn sub_spec(self, rhs: &ModInt<M>) -> ModInt<M> {
        ModInt::<M>::from_view((((self as int) % (M as int)) - ((*rhs)@)) % (M as int))
    }
}

impl<const M: u32> SubAssign<isize> for ModInt<M> {
    fn sub_assign(&mut self, rhs: isize)
        ensures
            old(self).wf() ==> *final(self) == ModInt::<M>::from_view(((old(self)@) - ((rhs as int) % (M as int))) % (M as int)),
    {
        if self.val() < M && M < 0x8000_0000 {
            let d = ModInt::<M>::new(rhs);
            *self = *self - d;
        }
    }
}

impl<const M: u32> Mul<isize> for ModInt<M> {
    type Output = ModInt<M>;

    fn mul(self, rhs: isize) -> (r: ModInt<M>) {
        let n = ModInt::<M>::new(rhs);
        proof {
            assert(n@ == (rhs as int) % (M as int));
            assert(self@ * n@ == self@ * ((rhs as int) % (M as int)));
        }
        self * n
    }
}

impl<const M: u32> MulSpecImpl<isize> for ModInt<M> {
    open spec fn obeys_mul_spec() -> bool {
        true
    }

    open spec fn mul_req(self, rhs: isize) -> bool {
        self.wf()
    }

    open spec fn mul_spec(self, rhs: isize) -> ModInt<M> {
        ModInt::<M>::from_view(((self@) * ((rhs as int) % (M as int))) % (M as int))
    }
}

impl<const M: u32> Mul<isize> for &ModInt<M> {
    type Output = ModInt<M>;

    fn mul(self, rhs: isize) -> (r: ModInt<M>) {
        let n = ModInt::<M>::new(rhs);
        proof {
            assert(n@ == (rhs as int) % (M as int));
            assert((*self)@ * n@ == (*self)@ * ((rhs as int) % (M as int)));
        }
        *self * n
    }
}

impl<const M: u32> MulSpecImpl<isize> for &ModInt<M> {
    open spec fn obeys_mul_spec() -> bool {
        true
    }

    open spec fn mul_req(self, rhs: isize) -> bool {
        (*self).wf()
    }

    open spec fn mul_spec(self, rhs: isize) -> ModInt<M> {
        ModInt::<M>::from_view((((*self)@) * ((rhs as int) % (M as int))) % (M as int))
    }
}

impl<const M: u32> Mul<ModInt<M>> for isize {
    type Output = ModInt<M>;

    fn mul(self, rhs: ModInt<M>) -> (r: ModInt<M>) {
        let n = ModInt::<M>::new(self);
        proof {
            assert(n@ == (self as int) % (M as int));
            assert(n@ * rhs@ == ((self as int) % (M as int)) * rhs@);
        }
        n * rhs
    }
}

impl<const M: u32> MulSpecImpl<ModInt<M>> for isize {
    open spec fn obeys_mul_spec() -> bool {
        true
    }

    open spec fn mul_req(self, rhs: ModInt<M>) -> bool {
        rhs.wf()
    }

    open spec fn mul_spec(self, rhs: ModInt<M>) -> ModInt<M> {
        ModInt::<M>::from_view((((self as int) % (M as int)) * (rhs@)) % (M as int))
    }
}

impl<const M: u32> Mul<&ModInt<M>> for isize {
    type Output = ModInt<M>;

    fn mul(self, rhs: &ModInt<M>) -> (r: ModInt<M>) {
        let n = ModInt::<M>::new(self);
        proof {
            assert(n@ == (self as int) % (M as int));
            assert(n@ * (*rhs)@ == ((self as int) % (M as int)) * (*rhs)@);
        }
        n * *rhs
    }
}

impl<const M: u32> MulSpecImpl<&ModInt<M>> for isize {
    open spec fn obeys_mul_spec() -> bool {
        true
    }

    open spec fn mul_req(self, rhs: &ModInt<M>) -> bool {
        (*rhs).wf()
    }

    open spec fn mul_spec(self, rhs: &ModInt<M>) -> ModInt<M> {
        ModInt::<M>::from_view((((self as int) % (M as int)) * ((*rhs)@)) % (M as int))
    }
}

impl<const M: u32> MulAssign<isize> for ModInt<M> {
    fn mul_assign(&mut self, rhs: isize)
        ensures
            old(self).wf() ==> *final(self) == ModInt::<M>::from_view(((old(self)@) * ((rhs as int) % (M as int))) % (M as int)),
    {
        if self.val() < M && M < 0x8000_0000 {
            let d = ModInt::<M>::new(rhs);
            *self = *self * d;
        }
    }
}

impl<const M: u32> Div<isize> for ModInt<M> {
    type Output = ModInt<M>;

    fn div(self, rhs: isize) -> (r: ModInt<M>) {
        let n = ModInt::<M>::new(rhs);
        proof {
            assert(n@ == (rhs as int) % (M as int));
        }
        self / n
    }
}

impl<const M: u32> DivSpecImpl<isize> for ModInt<M> {
    open spec fn obeys_div_spec() -> bool {
        true
    }

    open spec fn div_req(self, rhs: isize) -> bool {
        self.wf() && gcd(((rhs as int) % (M as int)) as nat, M as nat) == 1
    }

    open spec fn div_spec(self, rhs: isize) -> ModInt<M> {
        ModInt::<M>::from_view(quotient::<M>(self@, (rhs as int) % (M as int)))
    }
}

impl<const M: u32> Div<isize> for &ModInt<M> {
    type Output = ModInt<M>;

    fn div(self, rhs: isize) -> (r: ModInt<M>) {
        let n = ModInt::<M>::new(rhs);
        proof {
            assert(n@ == (rhs as int) % (M as int));
        }
        *self / n
    }
}

impl<const M: u32> DivSpecImpl<isize> for &ModInt<M> {
    open spec fn obeys_div_spec() -> bool {
        true
    }

    open spec fn div_req(self, rhs: isize) -> bool {
        (*self).wf() && gcd(((rhs as int) % (M as int)) as nat, M as nat) == 1
    }

    open spec fn div_spec(self, rhs: isize) -> ModInt<M> {
        ModInt::<M>::from_view(quotient::<M>((*self)@, (rhs as int) % (M as int)))
    }
}

impl<const M: u32> Div<ModInt<M>> for isize {
    type Output = ModInt<M>;

    fn div(self, rhs: ModInt<M>) -> (r: ModInt<M>) {
        let n = ModInt::<M>::new(self);
        proof {
            assert(n@ == (self as int) % (M as int));
        }
        n / rhs
    }
}

impl<const M: u32> DivSpecImpl<ModInt<M>> for isize {
    open spec fn obeys_div_spec() -> bool {
        true
    }

    open spec fn div_req(self, rhs: ModInt<M>) -> bool {
        rhs.wf() && gcd((rhs@) as nat, M as nat) == 1
    }

    open spec fn div_spec(self, rhs: ModInt<M>) -> ModInt<M> {
        ModInt::<M>::from_view(quotient::<M>((self as int) % (M as int), rhs@))
    }
}

impl<const M: u32> Div<&ModInt<M>> for isize {
    type Output = ModInt<M>;

    fn div(self, rhs: &ModInt<M>) -> (r: ModInt<M>) {
        let n = ModInt::<M>::new(self);
        proof {
            assert(n@ == (self as int) % (M as int));
        }
        n / *rhs
    }
}

impl<const M: u32> DivSpecImpl<&ModInt<M>> for isize {
    open spec fn obeys_div_spec() -> bool {
        true
    }

    open spec fn div_req(self, rhs: &ModInt<M>) -> bool {
        (*rhs).wf() && gcd(((*rhs)@) as nat, M as nat) == 1
    }

    open spec fn div_spec(self, rhs: &ModInt<M>) -> ModInt<M> {
        ModInt::<M>::from_view(quotient::<M>((self as int) % (M as int), (*rhs)@))
    }
}

impl<const M: u32> DivAssign<isize> for ModInt<M> {
    /// Leaves the value unchanged when `rhs` is not a unit.
    fn div_assign(&mut self, rhs: isize)
        ensures
            old(self).wf() && gcd(((rhs as int) % (M as int)) as nat, M as nat) == 1 ==> *final(self) == ModInt::<M>::from_view(quotient::<M>(old(self)@, (rhs as int) % (M as int))),
    {
        if self.val() < M && M < 0x8000_0000 {
            let d = ModInt::<M>::new(rhs);
            let (g, _) = inv_gcd(d.val() as i64, M as i64);
            proof {
                vstd::arithmetic::div_mod::lemma_small_mod(d@ as nat, M as nat);
            }
            if g == 1 {
                *self = *self / d;
            }
        }
    }
}

} // verus!

//! The operators `+`, `-`, `*`, `/` and unary `-` on field elements, and
//! their assigning forms.
//!
//! What each operator returns is said once, by a function of this file:
//! [`field_add`], [`field_sub`], [`field_mul`], [`field_neg`] and
//! [`field_div`]. Addition, negation and division do not take every operand:
//! [`field_add_fits`], [`field_neg_fits`] and a divisor that is not zero are
//! what they require.

use crate::field::{PlutoField, PLUTO_FIELD_PRIME};
use crate::modular::lemma_mul_mod;
use vstd::arithmetic::mul::{lemma_mul_is_associative, lemma_mul_is_commutative};
use vstd::prelude::*;

verus! {

/// The sum of the representatives, less the prime where it reaches the prime.
pub open spec fn field_add(a: PlutoField, b: PlutoField) -> PlutoField {
    let sum = a.value + b.value;
    if sum >= PLUTO_FIELD_PRIME {
        PlutoField::with_value(sum - PLUTO_FIELD_PRIME)
    } else {
        PlutoField::with_value(sum)
    }
}

/// Whether the sum, after the one subtraction of the prime, fits the
/// representation. Reduced operands always meet this.
pub open spec fn field_add_fits(a: PlutoField, b: PlutoField) -> bool {
    a.value + b.value - PLUTO_FIELD_PRIME <= u32::MAX
}

/// The difference of the representatives, plus the prime where the difference
/// is negative. Where even that stays negative, which takes an unreduced
/// subtrahend, the result wraps around the 32-bit range.
pub open spec fn field_sub(a: PlutoField, b: PlutoField) -> PlutoField {
    let diff = a.value - b.value;
    if diff >= 0 {
        PlutoField::with_value(diff)
    } else if diff + PLUTO_FIELD_PRIME >= 0 {
        PlutoField::with_value(diff + PLUTO_FIELD_PRIME)
    } else {
        PlutoField::with_value(diff + PLUTO_FIELD_PRIME + 0x1_0000_0000)
    }
}

/// The product of the representatives, reduced.
pub open spec fn field_mul(a: PlutoField, b: PlutoField) -> PlutoField {
    PlutoField::with_value((a.value * b.value) % (PLUTO_FIELD_PRIME as int))
}

/// The prime less the representative; zero stays zero.
pub open spec fn field_neg(a: PlutoField) -> PlutoField {
    if a.value == 0 {
        PlutoField::with_value(0)
    } else {
        PlutoField::with_value(PLUTO_FIELD_PRIME - a.value)
    }
}

/// Whether the element has a negation: a representative above the prime has
/// none.
pub open spec fn field_neg_fits(a: PlutoField) -> bool {
    a.value <= PLUTO_FIELD_PRIME
}

/// The product with the inverse of the divisor.
pub open spec fn field_div(a: PlutoField, b: PlutoField) -> PlutoField {
    field_mul(a, b.inverse_spec())
}

impl vstd::std_specs::ops::AddSpecImpl for PlutoField {
    open spec fn obeys_add_spec() -> bool {
        true
    }

    open spec fn add_req(self, rhs: Self) -> bool {
        field_add_fits(self, rhs)
    }

    open spec fn add_spec(self, rhs: Self) -> Self {
        field_add(self, rhs)
    }
}

impl core::ops::Add for PlutoField {
    type Output = Self;

    /// The sum, for operands that meet [`field_add_fits`].
    fn add(self, rhs: Self) -> (r: Self)
        ensures
            r == field_add(self, rhs),
            self.is_canonical() && rhs.is_canonical() ==> r.is_canonical() && r@ == (self@ + rhs@)
                % (PLUTO_FIELD_PRIME as nat),
    {
        let sum: u64 = self.value as u64 + rhs.value as u64;
        if sum >= PLUTO_FIELD_PRIME as u64 {
            Self { value: (sum - PLUTO_FIELD_PRIME as u64) as u32 }
        } else {
            Self { value: sum as u32 }
        }
    }
}

impl vstd::std_specs::ops::SubSpecImpl for PlutoField {
    open spec fn obeys_sub_spec() -> bool {
        true
    }

    open spec fn sub_req(self, rhs: Self) -> bool {
        true
    }

    open spec fn sub_spec(self, rhs: Self) -> Self {
        field_sub(self, rhs)
    }
}

impl core::ops::Sub for PlutoField {
    type Output = Self;

    /// The difference.
    fn sub(self, rhs: Self) -> (r: Self)
        ensures
            r == field_sub(self, rhs),
            self.is_canonical() && rhs.is_canonical() ==> r.is_canonical() && r@ == ((self@
                + PLUTO_FIELD_PRIME - rhs@) as nat) % (PLUTO_FIELD_PRIME as nat),
    {
        let diff = self.value.wrapping_sub(rhs.value);
        let corr: u32 = if self.value < rhs.value {
            PLUTO_FIELD_PRIME
        } else {
            0
        };
        Self::new(diff.wrapping_add(corr))
    }
}

impl vstd::std_specs::ops::MulSpecImpl for PlutoField {
    open spec fn obeys_mul_spec() -> bool {
        true
    }

    open spec fn mul_req(self, rhs: Self) -> bool {
        true
    }

    open spec fn mul_spec(self, rhs: Self) -> Self {
        field_mul(self, rhs)
    }
}

impl core::ops::Mul for PlutoField {
    type Output = Self;

    /// The product.
    fn mul(self, rhs: Self) -> (r: Self)
        ensures
            r == field_mul(self, rhs),
            r.is_canonical(),
            r@ == (self@ * rhs@) % (PLUTO_FIELD_PRIME as nat),
    {
        assert(self.value * rhs.value <= 0xffff_ffff * 0xffff_ffff) by (nonlinear_arith)
            requires
                self.value <= 0xffff_ffff,
                rhs.value <= 0xffff_ffff,
        ;
        let product: u64 = self.value as u64 * rhs.value as u64;
        Self { value: (product % PLUTO_FIELD_PRIME as u64) as u32 }
    }
}

impl vstd::std_specs::ops::NegSpecImpl for PlutoField {
    open spec fn obeys_neg_spec() -> bool {
        true
    }

    open spec fn neg_req(self) -> bool {
        field_neg_fits(self)
    }

    open spec fn neg_spec(self) -> Self {
        field_neg(self)
    }
}

impl core::ops::Neg for PlutoField {
    type Output = Self;

    /// The negation, for an operand that meets [`field_neg_fits`].
    fn neg(self) -> (r: Self)
        ensures
            r == field_neg(self),
            r.is_canonical(),
    {
        if self.value == 0 {
            Self::new(0)
        } else {
            Self::new(Self::ORDER_U32 - self.value)
        }
    }
}

impl vstd::std_specs::ops::DivSpecImpl for PlutoField {
    open spec fn obeys_div_spec() -> bool {
        true
    }

    open spec fn div_req(self, rhs: Self) -> bool {
        !rhs.is_zero_spec()
    }

    open spec fn div_spec(self, rhs: Self) -> Self {
        field_div(self, rhs)
    }
}

impl core::ops::Div for PlutoField {
    type Output = Self;

    /// The quotient, for a divisor that is not zero: the reduced element whose
    /// product with the divisor is the dividend.
    fn div(self, rhs: Self) -> (r: Self)
        ensures
            r == field_div(self, rhs),
            r.is_canonical(),
            rhs@ % (PLUTO_FIELD_PRIME as nat) != 0 ==> (r@ * rhs@) % (PLUTO_FIELD_PRIME as nat)
                == self@ % (PLUTO_FIELD_PRIME as nat),
    {
        let inverse = rhs.inverse();
        proof {
            if rhs@ % (PLUTO_FIELD_PRIME as nat) != 0 {
                let (a, b, i) = (self.value as int, rhs.value as int, inverse.value as int);
                // (a * i) * b == a * (i * b), and i * b leaves 1
                lemma_mul_mod(a * i, b);
                lemma_mul_is_associative(a, i, b);
                lemma_mul_is_commutative(i, b);
                lemma_mul_mod(a, i * b);
            }
        }
        self * inverse
    }
}

impl core::ops::AddAssign for PlutoField {
    /// Replaces the element by its sum with `rhs`.
    fn add_assign(&mut self, rhs: Self)
        requires
            field_add_fits(*old(self), rhs),
        ensures
            *final(self) == field_add(*old(self), rhs),
    {
        *self = *self + rhs;
    }
}

impl core::ops::SubAssign for PlutoField {
    /// Replaces the element by its difference with `rhs`.
    fn sub_assign(&mut self, rhs: Self)
        ensures
            *final(self) == field_sub(*old(self), rhs),
    {
        *self = *self - rhs;
    }
}

impl core::ops::MulAssign for PlutoField {
    /// Replaces the element by its product with `rhs`.
    fn mul_assign(&mut self, rhs: Self)
        ensures
            *final(self) == field_mul(*old(self), rhs),
    {
        *self = *self * rhs;
    }
}

} // verus!

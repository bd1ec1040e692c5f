//! The field element type: how it is made, tested for zero, inverted, halved
//! and written out.

use crate::exponentiation::{exp_u64_by_squaring, Multiplicative};
use crate::modular::{lemma_inverse_power, lemma_mul_mod, lemma_square_and_multiply, pow_mod};
use crate::ops::{field_mul, field_neg};
use crate::trusted::{biguint_digits, biguint_from_u32, decimal_digits, u32_to_decimal};
use num_bigint::BigUint;
use p3_field::halve_u32;
use vstd::arithmetic::mul::lemma_mul_is_associative;
use vstd::arithmetic::power::lemma_pow0;
use vstd::prelude::*;

verus! {

/// The order of the field: the prime 101.
pub const PLUTO_FIELD_PRIME: u32 = 101;

/// An element of the field of integers modulo [`PLUTO_FIELD_PRIME`].
///
/// The element is stored as one representative of its residue class. Every
/// operation hands back the reduced representative, the one below the prime,
/// when it is given reduced operands; [`PlutoField::new`] alone stores what it
/// is given. Two elements are equal when their stored representatives are.
#[derive(Copy, Clone, Debug, Hash, PartialEq, Eq, Structural)]
pub struct PlutoField {
    pub value: u32,
}

impl View for PlutoField {
    type V = nat;

    /// The stored representative as a natural number.
    open spec fn view(&self) -> nat {
        self.value as nat
    }
}

impl Default for PlutoField {
    /// Zero.
    fn default() -> (r: Self)
        ensures
            r == Self::zero(),
    {
        Self { value: 0 }
    }
}

impl PlutoField {
    pub const ORDER_U32: u32 = PLUTO_FIELD_PRIME;

    /// Whether the stored representative is the reduced one.
    pub open spec fn is_canonical(self) -> bool {
        self.value < PLUTO_FIELD_PRIME
    }

    /// The element that stores `value`, a number of the 32-bit range.
    pub open spec fn with_value(value: int) -> Self {
        PlutoField { value: value as u32 }
    }

    /// Stores `value` as it is, reduced or not.
    pub fn new(value: u32) -> (r: Self)
        ensures
            r.value == value,
    {
        Self { value }
    }

    /// The additive identity.
    pub open spec fn zero_spec() -> Self {
        PlutoField { value: 0 }
    }

    /// The additive identity.
    #[verifier::when_used_as_spec(zero_spec)]
    pub fn zero() -> (r: Self)
        ensures
            r == Self::zero_spec(),
    {
        Self::new(0)
    }

    /// The multiplicative identity.
    pub open spec fn one_spec() -> Self {
        PlutoField { value: 1 }
    }

    /// The multiplicative identity.
    #[verifier::when_used_as_spec(one_spec)]
    pub fn one() -> (r: Self)
        ensures
            r == Self::one_spec(),
    {
        Self::new(1)
    }

    /// One plus one.
    pub fn two() -> (r: Self)
        ensures
            r.value == 2,
    {
        Self::new(2)
    }

    /// The negation of one.
    pub fn neg_one() -> (r: Self)
        ensures
            r.value == PLUTO_FIELD_PRIME - 1,
            r == field_neg(Self::one()),
    {
        Self::new(Self::ORDER_U32 - 1)
    }

    /// The element 2.
    pub open spec fn generator_spec() -> Self {
        PlutoField { value: 2 }
    }

    /// A generator of the multiplicative group: the element 2, whose powers
    /// are all the elements but zero.
    #[verifier::when_used_as_spec(generator_spec)]
    pub fn generator() -> (r: Self)
        ensures
            r == Self::generator_spec(),
    {
        Self::new(2)
    }

    /// An element as an element.
    pub fn from_f(f: Self) -> (r: Self)
        ensures
            r == f,
    {
        f
    }

    /// One for `true`, zero for `false`.
    pub fn from_bool(b: bool) -> (r: Self)
        ensures
            r == (if b {
                Self::one()
            } else {
                Self::zero()
            }),
    {
        Self::new(
            if b {
                1
            } else {
                0
            },
        )
    }

    /// The element of a number that is already reduced.
    pub fn from_canonical_u8(n: u8) -> (r: Self)
        requires
            n < PLUTO_FIELD_PRIME,
        ensures
            r.value == n,
    {
        Self::new(u32::from(n))
    }

    /// The element of a number that is already reduced.
    pub fn from_canonical_u16(n: u16) -> (r: Self)
        requires
            n < PLUTO_FIELD_PRIME,
        ensures
            r.value == n,
    {
        Self::new(u32::from(n))
    }

    /// The element of a number that is already reduced.
    pub fn from_canonical_u32(n: u32) -> (r: Self)
        requires
            n < PLUTO_FIELD_PRIME,
        ensures
            r.value == n,
    {
        Self::new(n)
    }

    /// The element of a number that is already reduced.
    pub fn from_canonical_u64(n: u64) -> (r: Self)
        requires
            n < PLUTO_FIELD_PRIME,
        ensures
            r.value == n,
    {
        Self::from_canonical_u32(n as u32)
    }

    /// The element of a number that is already reduced.
    pub fn from_canonical_usize(n: usize) -> (r: Self)
        requires
            n < PLUTO_FIELD_PRIME,
        ensures
            r.value == n,
    {
        Self::from_canonical_u32(n as u32)
    }

    /// The element of any number: the number is reduced.
    pub fn from_wrapped_u32(n: u32) -> (r: Self)
        ensures
            r.value == n % PLUTO_FIELD_PRIME,
    {
        Self { value: n % PLUTO_FIELD_PRIME }
    }

    /// The element of any number: the number is reduced.
    pub fn from_wrapped_u64(n: u64) -> (r: Self)
        ensures
            r.value == n % (PLUTO_FIELD_PRIME as u64),
    {
        Self { value: (n % PLUTO_FIELD_PRIME as u64) as u32 }
    }

    /// Zero is stored as `0`. The unreduced representative that equals the
    /// prime itself is taken for zero too, and no other multiple of the prime.
    pub open spec fn is_zero_spec(&self) -> bool {
        self.value == 0 || self.value == PLUTO_FIELD_PRIME
    }

    /// Whether the element is zero.
    #[verifier::when_used_as_spec(is_zero_spec)]
    pub fn is_zero(&self) -> (r: bool)
        ensures
            r == self.is_zero_spec(),
    {
        self.value == 0 || self.value == Self::ORDER_U32
    }

    /// The power `p - 2` of the element, reduced. By Fermat's little theorem it
    /// is the multiplicative inverse of every element that the prime does not
    /// divide.
    pub open spec fn inverse_spec(self) -> Self {
        PlutoField::with_value(pow_mod(self.value as int, (PLUTO_FIELD_PRIME - 2) as nat))
    }

    /// The multiplicative inverse, by square-and-multiply on the exponent
    /// `p - 2`; none for zero.
    pub fn try_inverse(&self) -> (r: Option<Self>)
        ensures
            r == (if self.is_zero() {
                None
            } else {
                Some(self.inverse_spec())
            }),
            self@ % (PLUTO_FIELD_PRIME as nat) != 0 ==> r.is_some() && r.unwrap().is_canonical()
                && (self@ * r.unwrap()@) % (PLUTO_FIELD_PRIME as nat) == 1,
    {
        if self.is_zero() {
            return None;
        }
        let exponent = PLUTO_FIELD_PRIME - 2;
        let mut result: u64 = 1;
        let mut base: u64 = self.value as u64;
        let mut power: u32 = exponent;

        while power > 0
            invariant
                result < PLUTO_FIELD_PRIME,
                base <= u32::MAX,
                (result * pow_mod(base as int, power as nat)) % (PLUTO_FIELD_PRIME as int)
                    == pow_mod(self.value as int, (PLUTO_FIELD_PRIME - 2) as nat),
            decreases power,
        {
            proof {
                lemma_square_and_multiply(result as int, base as int, power as nat);
                assert(power & 1 == power % 2) by (bit_vector);
                assert(power >> 1 == power / 2) by (bit_vector);
                assert(result * base <= 100 * 0xffff_ffff) by (nonlinear_arith)
                    requires
                        result <= 100,
                        base <= 0xffff_ffff,
                ;
                assert(base * base <= 0xffff_ffff * 0xffff_ffff) by (nonlinear_arith)
                    requires
                        base <= 0xffff_ffff,
                ;
            }
            if power & 1 == 1 {
                result = result * base % PLUTO_FIELD_PRIME as u64;
            }
            base = base * base % PLUTO_FIELD_PRIME as u64;
            power >>= 1;
        }
        proof {
            lemma_pow0(base as int);
            if self@ % (PLUTO_FIELD_PRIME as nat) != 0 {
                lemma_inverse_power(self.value as int);
            }
        }
        Some(Self { value: result as u32 })
    }

    /// The multiplicative inverse of an element that is not zero.
    pub fn inverse(&self) -> (r: Self)
        requires
            !self.is_zero(),
        ensures
            r == self.inverse_spec(),
            self@ % (PLUTO_FIELD_PRIME as nat) != 0 ==> r.is_canonical() && (self@ * r@) % (
            PLUTO_FIELD_PRIME as nat) == 1,
    {
        self.try_inverse().unwrap()
    }

    /// `val` to the power `power`, for a value of any type that multiplies.
    pub fn exp_u64_generic<M: Multiplicative>(val: M, power: u64) -> (r: M)
        ensures
            r == crate::exponentiation::power(val, power as nat),
    {
        exp_u64_by_squaring(val, power)
    }

    /// An even representative halved; an odd one made even by adding the
    /// prime, which is odd, and then halved.
    pub open spec fn halve_spec(self) -> Self {
        if self.value % 2 == 0 {
            PlutoField::with_value(self.value as int / 2)
        } else {
            PlutoField::with_value((self.value + PLUTO_FIELD_PRIME) / 2)
        }
    }

    /// Half the element: the element that, added to itself, gives this one
    /// back.
    pub fn halve(&self) -> (r: Self)
        ensures
            r == self.halve_spec(),
            self.is_canonical() ==> r.is_canonical() && (2 * r@) % (PLUTO_FIELD_PRIME as nat)
                == self@,
    {
        PlutoField::new(halve_u32::<PLUTO_FIELD_PRIME>(self.value))
    }

    /// The number of elements of the field, as an integer of any size.
    pub fn order() -> (r: BigUint)
        ensures
            biguint_digits(r) == seq![PLUTO_FIELD_PRIME],
    {
        biguint_from_u32(PLUTO_FIELD_PRIME)
    }

    /// The stored representative in decimal.
    pub fn to_string(&self) -> (s: String)
        ensures
            s@ == decimal_digits(self@),
    {
        u32_to_decimal(self.value)
    }
}

impl Multiplicative for PlutoField {
    open spec fn unit_spec() -> Self {
        PlutoField::one()
    }

    open spec fn times_spec(self, rhs: Self) -> Self {
        field_mul(self, rhs)
    }

    proof fn lemma_times_associative(a: Self, b: Self, c: Self) {
        let (x, y, z) = (a.value as int, b.value as int, c.value as int);
        lemma_mul_mod(x * y, z);
        lemma_mul_mod(x, y * z);
        lemma_mul_is_associative(x, y, z);
    }

    fn unit() -> (r: Self) {
        Self::one()
    }

    fn times(self, rhs: Self) -> (r: Self) {
        self * rhs
    }
}

} // verus!

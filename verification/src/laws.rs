//! The laws of a field, proved of the elements' arithmetic.
//!
//! Each law is stated over the functions that the operators' contracts name:
//! [`field_add`], [`field_sub`], [`field_mul`], [`field_neg`], [`field_div`],
//! [`PlutoField::inverse_spec`] and [`power`]. Most hold of reduced elements
//! only, since an unreduced one is not what the operators hand back.

use crate::exponentiation::{power, Multiplicative};
use crate::field::{PlutoField, PLUTO_FIELD_PRIME};
use crate::modular::{
    lemma_fermat,
    lemma_inverse_power,
    lemma_mul_mod,
    lemma_order_of_two,
    lemma_pow_mod_succ,
    lemma_two_generates,
    pow_mod,
    prime,
};
use crate::ops::{
    field_add,
    field_add_fits,
    field_div,
    field_mul,
    field_neg,
    field_neg_fits,
    field_sub,
};
use vstd::arithmetic::div_mod::lemma_add_mod_noop;
use vstd::arithmetic::mul::{
    lemma_mul_is_associative,
    lemma_mul_is_commutative,
    lemma_mul_is_distributive_add,
};
use vstd::arithmetic::power::lemma_pow0;
use vstd::prelude::*;

verus! {

/// The sum, the difference and the product of reduced elements are reduced,
/// and they are the sum, the difference and the product of the
/// representatives modulo the prime.
pub proof fn lemma_closure(a: PlutoField, b: PlutoField)
    requires
        a.is_canonical(),
        b.is_canonical(),
    ensures
        field_add_fits(a, b),
        field_add(a, b).is_canonical(),
        field_sub(a, b).is_canonical(),
        field_mul(a, b).is_canonical(),
        field_add(a, b)@ == (a@ + b@) % (PLUTO_FIELD_PRIME as nat),
        field_sub(a, b)@ == (a@ - b@) % prime(),
        field_mul(a, b)@ == (a@ * b@) % (PLUTO_FIELD_PRIME as nat),
{
}

/// The negation of an element that has one is reduced, and so is every
/// inverse.
pub proof fn lemma_closure_unary(a: PlutoField)
    ensures
        field_neg_fits(a) ==> field_neg(a).is_canonical(),
        a.inverse_spec().is_canonical(),
{
}

/// Adding zero changes nothing.
pub proof fn lemma_add_zero(a: PlutoField)
    requires
        a.is_canonical(),
    ensures
        field_add(a, PlutoField::zero()) == a,
        field_add(PlutoField::zero(), a) == a,
{
}

/// An element and its negation add up to zero.
pub proof fn lemma_add_neg(a: PlutoField)
    requires
        a.is_canonical(),
    ensures
        field_add_fits(a, field_neg(a)),
        field_add(a, field_neg(a)) == PlutoField::zero(),
{
}

/// Negating twice gives the element back.
pub proof fn lemma_neg_involution(a: PlutoField)
    requires
        a.is_canonical(),
    ensures
        field_neg_fits(field_neg(a)),
        field_neg(field_neg(a)) == a,
{
}

/// Subtracting is adding the negation.
pub proof fn lemma_sub_is_add_neg(a: PlutoField, b: PlutoField)
    requires
        a.is_canonical(),
        b.is_canonical(),
    ensures
        field_sub(a, b) == field_add(a, field_neg(b)),
{
}

/// Subtracting what was added gives the element back.
pub proof fn lemma_add_sub_cancel(a: PlutoField, b: PlutoField)
    requires
        a.is_canonical(),
        b.is_canonical(),
    ensures
        field_sub(field_add(a, b), b) == a,
        field_add(field_sub(a, b), b) == a,
{
}

/// The half of an element, added to itself, gives the element back.
pub proof fn lemma_halve_doubles(a: PlutoField)
    requires
        a.is_canonical(),
    ensures
        a.halve_spec().is_canonical(),
        field_add(a.halve_spec(), a.halve_spec()) == a,
{
}

/// The order of the terms of a sum does not matter.
pub proof fn lemma_add_commutative(a: PlutoField, b: PlutoField)
    ensures
        field_add(a, b) == field_add(b, a),
{
}

/// A sum of three may be bracketed either way.
pub proof fn lemma_add_associative(a: PlutoField, b: PlutoField, c: PlutoField)
    requires
        a.is_canonical(),
        b.is_canonical(),
        c.is_canonical(),
    ensures
        field_add(field_add(a, b), c) == field_add(a, field_add(b, c)),
{
}

/// Multiplying by one changes nothing.
pub proof fn lemma_mul_one(a: PlutoField)
    requires
        a.is_canonical(),
    ensures
        field_mul(a, PlutoField::one()) == a,
        field_mul(PlutoField::one(), a) == a,
{
}

/// Multiplying by zero gives zero, whatever the other factor.
pub proof fn lemma_mul_zero(a: PlutoField)
    ensures
        field_mul(a, PlutoField::zero()) == PlutoField::zero(),
        field_mul(PlutoField::zero(), a) == PlutoField::zero(),
{
}

/// The order of the factors of a product does not matter.
pub proof fn lemma_mul_commutative(a: PlutoField, b: PlutoField)
    ensures
        field_mul(a, b) == field_mul(b, a),
{
    lemma_mul_is_commutative(a.value as int, b.value as int);
}

/// A product of three may be bracketed either way.
pub proof fn lemma_mul_associative(a: PlutoField, b: PlutoField, c: PlutoField)
    ensures
        field_mul(field_mul(a, b), c) == field_mul(a, field_mul(b, c)),
{
    PlutoField::lemma_times_associative(a, b, c);
}

/// A product with a sum is the sum of the products.
pub proof fn lemma_mul_distributive(a: PlutoField, b: PlutoField, c: PlutoField)
    requires
        b.is_canonical(),
        c.is_canonical(),
    ensures
        field_add_fits(field_mul(a, b), field_mul(a, c)),
        field_mul(a, field_add(b, c)) == field_add(field_mul(a, b), field_mul(a, c)),
{
    let (x, y, z) = (a.value as int, b.value as int, c.value as int);
    assert(field_add(b, c).value == (y + z) % prime());
    lemma_mul_mod(x, y + z);
    lemma_mul_is_distributive_add(x, y, z);
    lemma_add_mod_noop(x * y, x * z, prime());
}

/// An element that is not zero, multiplied by its inverse, gives one.
pub proof fn lemma_mul_inverse(a: PlutoField)
    requires
        a.is_canonical(),
        !a.is_zero(),
    ensures
        field_mul(a, a.inverse_spec()) == PlutoField::one(),
        field_mul(a.inverse_spec(), a) == PlutoField::one(),
        !a.inverse_spec().is_zero(),
{
    lemma_inverse_power(a.value as int);
    lemma_mul_commutative(a, a.inverse_spec());
}

/// The inverse is the only element whose product with the element is one.
pub proof fn lemma_inverse_unique(a: PlutoField, b: PlutoField)
    requires
        a.is_canonical(),
        b.is_canonical(),
        field_mul(a, b) == PlutoField::one(),
    ensures
        !a.is_zero(),
        b == a.inverse_spec(),
{
    let inv = a.inverse_spec();
    lemma_mul_zero(b);
    lemma_mul_inverse(a);
    // b == b * (a * inv) == (b * a) * inv == inv
    lemma_mul_commutative(a, b);
    lemma_mul_associative(b, a, inv);
    lemma_mul_one(b);
    lemma_mul_one(inv);
}

/// Multiplying by what was divided by gives the element back.
pub proof fn lemma_div_mul_cancel(a: PlutoField, b: PlutoField)
    requires
        a.is_canonical(),
        b.is_canonical(),
        !b.is_zero(),
    ensures
        field_mul(field_div(a, b), b) == a,
        field_div(field_mul(a, b), b) == a,
{
    let inv = b.inverse_spec();
    lemma_mul_inverse(b);
    lemma_mul_associative(a, inv, b);
    lemma_mul_associative(a, b, inv);
    lemma_mul_one(a);
}

/// Dividing an element that is not zero by itself gives one.
pub proof fn lemma_div_self(a: PlutoField)
    requires
        a.is_canonical(),
        !a.is_zero(),
    ensures
        field_div(a, a) == PlutoField::one(),
{
    lemma_mul_inverse(a);
}

/// Inverting twice gives the element back.
pub proof fn lemma_inverse_involution(a: PlutoField)
    requires
        a.is_canonical(),
        !a.is_zero(),
    ensures
        !a.inverse_spec().is_zero(),
        a.inverse_spec().inverse_spec() == a,
{
    lemma_mul_inverse(a);
    lemma_inverse_unique(a.inverse_spec(), a);
}

/// The power with the exponent zero is the unit, whatever the base.
pub proof fn lemma_power_zero<M: Multiplicative>(base: M)
    ensures
        power(base, 0) == M::unit_spec(),
{
}

/// One more in the exponent is one more factor.
pub proof fn lemma_power_succ<M: Multiplicative>(base: M, exp: nat)
    ensures
        power(base, exp + 1) == power(base, exp).times_spec(base),
{
}

/// A power of an element is the power of its representative, reduced.
pub proof fn lemma_power_value(base: PlutoField, exp: nat)
    ensures
        power(base, exp).is_canonical(),
        power(base, exp)@ == pow_mod(base.value as int, exp),
    decreases exp,
{
    if exp == 0 {
        lemma_pow0(base.value as int);
    } else {
        let before = (exp - 1) as nat;
        lemma_power_value(base, before);
        lemma_power_succ(base, before);
        lemma_pow_mod_succ(base.value as int, before);
        lemma_mul_is_commutative(base.value as int, pow_mod(base.value as int, before));
    }
}

/// Every power of zero but the one with the exponent zero is zero.
pub proof fn lemma_power_of_zero(exp: nat)
    requires
        exp > 0,
    ensures
        power(PlutoField::zero(), exp) == PlutoField::zero(),
{
    lemma_power_succ(PlutoField::zero(), (exp - 1) as nat);
    lemma_mul_zero(power(PlutoField::zero(), (exp - 1) as nat));
}

/// The inverse is the power with the exponent `p - 2`.
pub proof fn lemma_inverse_is_power(base: PlutoField)
    ensures
        base.inverse_spec() == power(base, (PLUTO_FIELD_PRIME - 2) as nat),
{
    lemma_power_value(base, (PLUTO_FIELD_PRIME - 2) as nat);
}

/// Fermat's little theorem: an element that is not zero, to the power `p - 1`,
/// is one.
pub proof fn lemma_power_of_order(base: PlutoField)
    requires
        base.is_canonical(),
        !base.is_zero(),
    ensures
        power(base, (PLUTO_FIELD_PRIME - 1) as nat) == PlutoField::one(),
{
    lemma_fermat(base.value as int);
    lemma_power_value(base, (PLUTO_FIELD_PRIME - 1) as nat);
}

/// The generator has the multiplicative order `p - 1`: its power with the
/// exponent `p - 1` is one, and none with a smaller exponent above zero is.
pub proof fn lemma_generator_order(exp: nat)
    requires
        0 < exp < PLUTO_FIELD_PRIME - 1,
    ensures
        power(PlutoField::generator(), exp) != PlutoField::one(),
        power(PlutoField::generator(), (PLUTO_FIELD_PRIME - 1) as nat) == PlutoField::one(),
{
    lemma_order_of_two(exp);
    lemma_power_value(PlutoField::generator(), exp);
    lemma_power_value(PlutoField::generator(), (PLUTO_FIELD_PRIME - 1) as nat);
}

/// The generator generates: every element but zero is one of its powers.
pub proof fn lemma_generator_generates(a: PlutoField)
    requires
        a.is_canonical(),
        !a.is_zero(),
    ensures
        exists|exp: nat| exp < PLUTO_FIELD_PRIME - 1 && power(PlutoField::generator(), exp) == a,
{
    lemma_two_generates(a.value as int);
    let exp = choose|exp: nat| exp < PLUTO_FIELD_PRIME - 1 && pow_mod(2, exp) == a.value;
    lemma_power_value(PlutoField::generator(), exp);
}

} // verus!

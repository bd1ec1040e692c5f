//! Exponentiation by squaring over any type with an associative product.

use vstd::prelude::*;

verus! {

/// What exponentiation needs of a type: a unit to start from and a product
/// that is associative. The field's elements have both, and so has anything
/// built from them that multiplies, such as the elements of an extension.
pub trait Multiplicative: Sized + Copy {
    /// The unit of the product.
    spec fn unit_spec() -> Self;

    /// The product.
    spec fn times_spec(self, rhs: Self) -> Self;

    /// The product may be bracketed either way.
    proof fn lemma_times_associative(a: Self, b: Self, c: Self)
        ensures
            a.times_spec(b).times_spec(c) == a.times_spec(b.times_spec(c)),
    ;

    /// Computes the unit.
    fn unit() -> (r: Self)
        ensures
            r == Self::unit_spec(),
    ;

    /// Computes the product.
    fn times(self, rhs: Self) -> (r: Self)
        ensures
            r == self.times_spec(rhs),
    ;
}

/// `acc` multiplied from the right by `base`, `exp` times over.
pub open spec fn power_from<M: Multiplicative>(acc: M, base: M, exp: nat) -> M
    decreases exp,
{
    if exp == 0 {
        acc
    } else {
        power_from(acc, base, (exp - 1) as nat).times_spec(base)
    }
}

/// `base` to the power `exp`: the unit multiplied by `base`, `exp` times over.
pub open spec fn power<M: Multiplicative>(base: M, exp: nat) -> M {
    power_from(M::unit_spec(), base, exp)
}

/// A factor may be taken into the accumulator first.
pub proof fn lemma_power_from_shift<M: Multiplicative>(acc: M, base: M, exp: nat)
    ensures
        power_from(acc, base, exp + 1) == power_from(acc.times_spec(base), base, exp),
    decreases exp,
{
    assert(power_from(acc, base, exp + 1) == power_from(acc, base, exp).times_spec(base));
    if exp > 0 {
        lemma_power_from_shift(acc, base, (exp - 1) as nat);
        assert(power_from(acc.times_spec(base), base, exp) == power_from(
            acc.times_spec(base),
            base,
            (exp - 1) as nat,
        ).times_spec(base));
    }
}

/// Multiplying twice as often by the base is multiplying by its square.
pub proof fn lemma_power_from_square<M: Multiplicative>(acc: M, base: M, exp: nat)
    ensures
        power_from(acc, base, 2 * exp) == power_from(acc, base.times_spec(base), exp),
    decreases exp,
{
    if exp > 0 {
        let before = power_from(acc, base, (2 * exp - 2) as nat);
        lemma_power_from_square(acc, base, (exp - 1) as nat);
        assert(power_from(acc, base, (2 * exp - 1) as nat) == before.times_spec(base));
        assert(power_from(acc, base, 2 * exp) == before.times_spec(base).times_spec(base));
        M::lemma_times_associative(before, base, base);
    }
}

/// `val` to the power `power`, by squaring: the bits of the exponent are taken
/// from the least significant up, the running base is squared for each, and
/// it is multiplied into the result where the bit is set.
pub fn exp_u64_by_squaring<M: Multiplicative>(val: M, power: u64) -> (r: M)
    ensures
        r == self::power(val, power as nat),
{
    let mut current = val;
    let mut product = M::unit();
    let mut rest = power;
    while rest > 0
        invariant
            power_from(product, current, rest as nat) == self::power(val, power as nat),
        decreases rest,
    {
        proof {
            assert(rest & 1 == rest % 2) by (bit_vector);
            assert(rest >> 1 == rest / 2) by (bit_vector);
            let half = (rest / 2) as nat;
            if rest % 2 == 1 {
                lemma_power_from_shift(product, current, 2 * half);
                lemma_power_from_square(product.times_spec(current), current, half);
            } else {
                lemma_power_from_square(product, current, half);
            }
        }
        if rest & 1 != 0 {
            product = product.times(current);
        }
        current = current.times(current);
        rest = rest >> 1;
    }
    product
}

} // verus!

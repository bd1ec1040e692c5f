//! What this library takes on trust from the crates it calls.

use num_bigint::BigUint;
use vstd::prelude::*;

verus! {

/// `p3_field::halve_u32` shifts its input right by one bit and, where the
/// input was odd, adds `(P + 1) >> 1`. The two sums it forms have to fit in 32
/// bits.
pub assume_specification<const P: u32>[ p3_field::halve_u32::<P> ](input: u32) -> (r: u32)
    requires
        P < u32::MAX,
        input / 2 + (P + 1) / 2 <= u32::MAX,
    ensures
        r == (if input % 2 == 0 {
            input as int / 2
        } else {
            input / 2 + (P + 1) / 2
        }),
;

/// An unsigned integer of any size, held by `num_bigint`.
#[verifier::external_type_specification]
#[verifier::external_body]
pub struct ExBigUint(BigUint);

/// The digits of a `BigUint` in base 2^32, least significant first and with
/// no zero at the most significant end, as `BigUint::to_u32_digits` gives
/// them.
pub uninterp spec fn biguint_digits(n: BigUint) -> Seq<u32>;

/// `BigUint::from` on a `u32` gives zero, which has no digits, for `0`, and
/// the number of the one digit `n` otherwise.
#[verifier::external_body]
pub(crate) fn biguint_from_u32(n: u32) -> (r: BigUint)
    ensures
        biguint_digits(r) == (if n == 0 {
            Seq::<u32>::empty()
        } else {
            seq![n]
        }),
{
    BigUint::from(n)
}

/// The decimal digits of a number, most significant first; `0` has the one
/// digit `0`.
pub open spec fn decimal_digits(n: nat) -> Seq<char>
    decreases n,
{
    if n < 10 {
        seq![digit_char(n)]
    } else {
        decimal_digits(n / 10).push(digit_char(n % 10))
    }
}

/// The character of a digit below ten.
pub open spec fn digit_char(d: nat) -> char {
    if d == 0 {
        '0'
    } else if d == 1 {
        '1'
    } else if d == 2 {
        '2'
    } else if d == 3 {
        '3'
    } else if d == 4 {
        '4'
    } else if d == 5 {
        '5'
    } else if d == 6 {
        '6'
    } else if d == 7 {
        '7'
    } else if d == 8 {
        '8'
    } else {
        '9'
    }
}

/// Formatting a `u32` with `{}` writes it in decimal, without sign, padding or
/// leading zeros.
#[verifier::external_body]
pub(crate) fn u32_to_decimal(n: u32) -> (s: String)
    ensures
        s@ == decimal_digits(n as nat),
{
    format!("{}", n)
}

} // verus!

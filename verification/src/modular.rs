//! Powers modulo the field's prime, and why the power `p - 2` inverts.

use crate::field::PLUTO_FIELD_PRIME;
use vstd::arithmetic::div_mod::*;
use vstd::arithmetic::mul::*;
use vstd::arithmetic::power::*;
use vstd::prelude::*;
use vstd::relations::injective_on;
use vstd::set_lib::{lemma_int_range, lemma_map_size, lemma_subset_equality, set_int_range};

verus! {

/// The prime as a mathematical integer.
#[verifier::inline]
pub open spec fn prime() -> int {
    PLUTO_FIELD_PRIME as int
}

/// `base` to the power `exp`, reduced modulo the prime.
pub open spec fn pow_mod(base: int, exp: nat) -> int {
    pow(base, exp) % prime()
}

/// The reduced product of two machine integers, in machine arithmetic.
spec fn times_mod(x: u32, y: u32) -> u32 {
    (((x as u64) * (y as u64)) as u64 % (PLUTO_FIELD_PRIME as u64)) as u32
}

proof fn lemma_times_mod(x: u32, y: u32)
    ensures
        times_mod(x, y) == (x * y) % prime(),
{
    assert(x * y <= 0xffff_ffff * 0xffff_ffff) by (nonlinear_arith)
        requires
            x <= 0xffff_ffff,
            y <= 0xffff_ffff,
    ;
}

/// One round of square-and-multiply on the accumulator, in machine arithmetic.
spec fn round(acc: u32, base: u32, exp: u32) -> u32 {
    if exp % 2 == 1 {
        times_mod(acc, base)
    } else {
        acc
    }
}

/// Seven rounds of square-and-multiply, which take in an exponent below 128:
/// `a` to the power `k`, reduced, in machine arithmetic.
spec fn seven_rounds(a: u32, k: u32) -> u32 {
    let a2 = times_mod(a, a);
    let a4 = times_mod(a2, a2);
    let a8 = times_mod(a4, a4);
    let a16 = times_mod(a8, a8);
    let a32 = times_mod(a16, a16);
    let a64 = times_mod(a32, a32);
    let r1 = round(1, a, k);
    let r2 = round(r1, a2, k / 2);
    let r4 = round(r2, a4, k / 4);
    let r8 = round(r4, a8, k / 8);
    let r16 = round(r8, a16, k / 16);
    let r32 = round(r16, a32, k / 32);
    round(r32, a64, k / 64)
}

/// Every nonzero residue to the power `p - 1` is 1.
proof fn lemma_rounds_to_one(a: u32)
    by (bit_vector)
    requires
        1 <= a < PLUTO_FIELD_PRIME,
    ensures
        seven_rounds(a, (PLUTO_FIELD_PRIME - 1) as u32) == 1,
{
}

/// No power of 2 with an exponent above zero and below `p - 1` is 1.
proof fn lemma_rounds_of_two(k: u32)
    by (bit_vector)
    requires
        0 < k < PLUTO_FIELD_PRIME - 1,
    ensures
        seven_rounds(2, k) != 1,
{
}

/// A product may be reduced factor by factor.
pub proof fn lemma_mul_mod(x: int, y: int)
    ensures
        ((x % prime()) * (y % prime())) % prime() == (x * y) % prime(),
        ((x % prime()) * y) % prime() == (x * y) % prime(),
        (x * (y % prime())) % prime() == (x * y) % prime(),
{
    lemma_mul_mod_noop_general(x, y, prime());
}

/// Squaring the base halves the exponent.
pub proof fn lemma_pow_mod_double(base: int, exp: nat)
    ensures
        pow_mod(base, 2 * exp) == pow_mod((base * base) % prime(), exp),
        pow(base, 2 * exp) == pow(base * base, exp),
{
    lemma_square_is_pow2(base);
    lemma_pow_multiplies(base, 2, exp);
    lemma_pow_mod_noop(base * base, exp, prime());
}

/// One more factor raises the exponent by one.
pub proof fn lemma_pow_mod_succ(base: int, exp: nat)
    ensures
        pow_mod(base, exp + 1) == (base * pow_mod(base, exp)) % prime(),
        pow(base, exp + 1) == base * pow(base, exp),
{
    reveal(pow);
    lemma_mul_mod(base, pow(base, exp));
}

/// One round of square-and-multiply keeps the value of the whole: with an
/// accumulator `acc`, a running base and the exponent still to be applied,
/// the round multiplies the base into the accumulator where the exponent is
/// odd, squares the base and halves the exponent.
pub proof fn lemma_square_and_multiply(acc: int, base: int, exp: nat)
    ensures
        ({
            let next_acc = if exp % 2 == 1 {
                (acc * base) % prime()
            } else {
                acc
            };
            (next_acc * pow_mod((base * base) % prime(), exp / 2)) % prime() == (acc * pow_mod(
                base,
                exp,
            )) % prime()
        }),
{
    let half = exp / 2;
    let squared = (base * base) % prime();
    lemma_pow_mod_double(base, half);
    if exp % 2 == 1 {
        assert(exp == 2 * half + 1);
        lemma_pow_mod_succ(base, 2 * half);
        // acc * base^exp == (acc * base) * base^(2 * half)
        lemma_mul_mod(acc, pow(base, exp));
        lemma_mul_mod(acc, base * pow(base, 2 * half));
        lemma_mul_is_associative(acc, base, pow(base, 2 * half));
        lemma_mul_mod(acc * base, pow(base, 2 * half));
        lemma_mul_mod((acc * base) % prime(), pow(base, 2 * half));
        lemma_mul_mod((acc * base) % prime(), pow_mod(squared, half));
    } else {
        assert(exp == 2 * half);
        lemma_mul_mod(acc, pow(base, exp));
        lemma_mul_mod(acc, pow_mod(squared, half));
    }
}

/// One round in machine arithmetic is one round of square-and-multiply.
proof fn lemma_round(acc: u32, base: u32, exp: u32)
    ensures
        (round(acc, base, exp) * pow_mod(times_mod(base, base) as int, (exp / 2) as nat)) % prime()
            == (acc * pow_mod(base as int, exp as nat)) % prime(),
        acc < prime() ==> round(acc, base, exp) < prime(),
{
    lemma_times_mod(acc, base);
    lemma_times_mod(base, base);
    lemma_square_and_multiply(acc as int, base as int, exp as nat);
}

/// Seven rounds in machine arithmetic give the reduced power.
proof fn lemma_seven_rounds(a: u32, k: u32)
    requires
        k < 128,
    ensures
        seven_rounds(a, k) == pow_mod(a as int, k as nat),
{
    let a2 = times_mod(a, a);
    let a4 = times_mod(a2, a2);
    let a8 = times_mod(a4, a4);
    let a16 = times_mod(a8, a8);
    let a32 = times_mod(a16, a16);
    let a64 = times_mod(a32, a32);
    let r1 = round(1, a, k);
    let r2 = round(r1, a2, k / 2);
    let r4 = round(r2, a4, k / 4);
    let r8 = round(r4, a8, k / 8);
    let r16 = round(r8, a16, k / 16);
    let r32 = round(r16, a32, k / 32);
    let r64 = round(r32, a64, k / 64);
    lemma_round(1, a, k);
    lemma_round(r1, a2, k / 2);
    lemma_round(r2, a4, k / 4);
    lemma_round(r4, a8, k / 8);
    lemma_round(r8, a16, k / 16);
    lemma_round(r16, a32, k / 32);
    lemma_round(r32, a64, k / 64);
    lemma_pow0(times_mod(a64, a64) as int);
}

/// Fermat's little theorem for the prime 101: a number that the prime does not
/// divide, raised to the power `p - 1`, leaves the remainder 1.
pub proof fn lemma_fermat(a: int)
    requires
        a % prime() != 0,
    ensures
        pow_mod(a, (PLUTO_FIELD_PRIME - 1) as nat) == 1,
{
    let r = (a % prime()) as u32;
    let exp = (PLUTO_FIELD_PRIME - 1) as u32;
    lemma_rounds_to_one(r);
    lemma_seven_rounds(r, exp);
    lemma_pow_mod_noop(a, exp as nat, prime());
}

/// The number 2 has the multiplicative order `p - 1`: its power with the
/// exponent `p - 1` leaves the remainder 1, and none with a smaller exponent
/// above zero does.
pub proof fn lemma_order_of_two(k: nat)
    requires
        0 < k < PLUTO_FIELD_PRIME - 1,
    ensures
        pow_mod(2, k) != 1,
        pow_mod(2, (PLUTO_FIELD_PRIME - 1) as nat) == 1,
{
    lemma_rounds_of_two(k as u32);
    lemma_seven_rounds(2, k as u32);
    lemma_fermat(2);
}

/// The reduced power of a sum of exponents is the reduced product of the
/// reduced powers.
pub proof fn lemma_pow_mod_adds(base: int, e1: nat, e2: nat)
    ensures
        pow_mod(base, e1 + e2) == (pow_mod(base, e1) * pow_mod(base, e2)) % prime(),
{
    lemma_pow_adds(base, e1, e2);
    lemma_mul_mod(pow(base, e1), pow(base, e2));
}

/// Two powers of 2 with different exponents below `p - 1` differ.
proof fn lemma_powers_of_two_differ(i: nat, j: nat)
    requires
        i < j < PLUTO_FIELD_PRIME - 1,
    ensures
        pow_mod(2, i) != pow_mod(2, j),
{
    let order = (PLUTO_FIELD_PRIME - 1) as nat;
    let back = (order - i) as nat;
    let gap = (j - i) as nat;
    if pow_mod(2, i) == pow_mod(2, j) {
        // 2^(j - i) == 2^(j - i) * 2^order == 2^j * 2^(order - i)
        //           == 2^i * 2^(order - i) == 2^order == 1
        lemma_order_of_two(gap);
        lemma_pow_mod_adds(2, i, back);
        lemma_pow_mod_adds(2, j, back);
        lemma_pow_mod_adds(2, order, gap);
        assert(order + gap == j + back);
    }
}

/// No power of 2 is divisible by the prime.
proof fn lemma_power_of_two_nonzero(k: nat)
    requires
        k < PLUTO_FIELD_PRIME - 1,
    ensures
        0 < pow_mod(2, k) < prime(),
{
    let order = (PLUTO_FIELD_PRIME - 1) as nat;
    let back = (order - k) as nat;
    lemma_fermat(2);
    lemma_pow_mod_adds(2, k, back);
    let x = pow_mod(2, k);
    let y = pow_mod(2, back);
    if x == 0 {
        assert((x * y) % prime() == 0) by (nonlinear_arith)
            requires
                x == 0,
        ;
    }
}

/// Every number from 1 to `p - 1` is the remainder of a power of 2.
pub proof fn lemma_two_generates(a: int)
    requires
        0 < a < prime(),
    ensures
        exists|k: nat| k < PLUTO_FIELD_PRIME - 1 && pow_mod(2, k) == a,
{
    let f = |k: int| pow_mod(2, k as nat);
    let exponents = set_int_range(0, prime() - 1);
    let residues = set_int_range(1, prime());
    let powers = exponents.map(f);
    lemma_int_range(0, prime() - 1);
    lemma_int_range(1, prime());
    assert(injective_on(f, exponents)) by {
        assert forall|i: int, j: int|
            exponents.contains(i) && exponents.contains(j) && #[trigger] f(i) == #[trigger] f(
                j,
            ) implies i == j by {
            if i < j {
                lemma_powers_of_two_differ(i as nat, j as nat);
            } else if j < i {
                lemma_powers_of_two_differ(j as nat, i as nat);
            }
        }
    }
    lemma_map_size(exponents, powers, f);
    assert forall|x: int| powers.contains(x) implies residues.contains(x) by {
        let k = choose|k: int| exponents.contains(k) && f(k) == x;
        lemma_power_of_two_nonzero(k as nat);
    }
    lemma_subset_equality(powers, residues);
    assert(residues.contains(a));
    let k = choose|k: int| exponents.contains(k) && f(k) == a;
    assert(pow_mod(2, k as nat) == a);
}

/// The power `p - 2` inverts: its product with the base leaves the remainder 1.
pub proof fn lemma_inverse_power(a: int)
    requires
        a % prime() != 0,
    ensures
        (a * pow_mod(a, (PLUTO_FIELD_PRIME - 2) as nat)) % prime() == 1,
        0 < pow_mod(a, (PLUTO_FIELD_PRIME - 2) as nat) < prime(),
{
    lemma_pow_mod_succ(a, (PLUTO_FIELD_PRIME - 2) as nat);
    lemma_fermat(a);
    let inv = pow_mod(a, (PLUTO_FIELD_PRIME - 2) as nat);
    assert((a * inv) % prime() == 1);
    if inv == 0 {
        assert((a * inv) % prime() == 0) by (nonlinear_arith)
            requires
                inv == 0,
        ;
    }
}

} // verus!

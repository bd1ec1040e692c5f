use pluto_field::field::PLUTO_FIELD_PRIME;
use pluto_field::PlutoField;

const P: u32 = PLUTO_FIELD_PRIME;

#[test]
fn zero_has_no_inverse() {
    assert_eq!(PlutoField::new(0).try_inverse(), None);
    assert_eq!(PlutoField::new(P).try_inverse(), None);
    assert_eq!(PlutoField::zero().try_inverse(), None);
}

#[test]
fn inverse_values() {
    assert_eq!(PlutoField::new(1).try_inverse(), Some(PlutoField::new(1)));
    assert_eq!(PlutoField::new(2).try_inverse(), Some(PlutoField::new(51)));
    assert_eq!(PlutoField::new(10).try_inverse(), Some(PlutoField::new(91)));
    assert_eq!(PlutoField::new(100).try_inverse(), Some(PlutoField::new(100)));
    assert_eq!(PlutoField::new(10).inverse().value, 91);
}

#[test]
fn element_times_inverse_is_one() {
    for v in 1..P {
        let a = PlutoField::new(v);
        let inv = a.inverse();
        assert!(inv.value < P);
        assert_eq!(a * inv, PlutoField::one());
        assert_eq!(a.try_inverse(), Some(inv));
    }
}

#[test]
fn inverse_twice_is_identity() {
    for v in 1..P {
        let a = PlutoField::new(v);
        assert_eq!(a.inverse().inverse(), a);
    }
}

#[test]
fn inverse_of_unreduced_representative() {
    // 111 is 10 modulo the prime.
    assert_eq!(PlutoField::new(111).try_inverse(), Some(PlutoField::new(91)));
    assert_eq!(PlutoField::new(u32::MAX).inverse() * PlutoField::new(67), PlutoField::one());
    // Only the prime itself passes for zero: twice the prime is inverted to zero.
    assert!(!PlutoField::new(2 * P).is_zero());
    assert_eq!(PlutoField::new(2 * P).try_inverse(), Some(PlutoField::new(0)));
}

#[test]
fn division_is_multiplication_by_inverse() {
    assert_eq!((PlutoField::new(20) / PlutoField::new(10)).value, 2);
    assert_eq!((PlutoField::new(1) / PlutoField::new(2)).value, 51);
    for v in 1..P {
        let a = PlutoField::new(v);
        assert_eq!(a / a, PlutoField::one());
        assert_eq!(PlutoField::new(7) / a, PlutoField::new(7) * a.inverse());
    }
}

#[test]
fn zero_test_accepts_zero_and_the_prime_only() {
    assert!(PlutoField::new(0).is_zero());
    assert!(PlutoField::new(P).is_zero());
    assert!(!PlutoField::new(1).is_zero());
    assert!(!PlutoField::new(P - 1).is_zero());
    assert!(!PlutoField::new(P + 1).is_zero());
    assert!(!PlutoField::new(2 * P).is_zero());
    assert!(!PlutoField::new(u32::MAX).is_zero());
}

#[test]
fn power_with_exponent_zero_is_one() {
    for v in 0..P {
        assert_eq!(PlutoField::exp_u64_generic(PlutoField::new(v), 0), PlutoField::one());
    }
}

#[test]
fn power_of_zero_is_zero() {
    for k in 1..200u64 {
        assert_eq!(PlutoField::exp_u64_generic(PlutoField::zero(), k), PlutoField::zero());
    }
    assert_eq!(PlutoField::exp_u64_generic(PlutoField::zero(), u64::MAX).value, 0);
}

#[test]
fn power_values() {
    assert_eq!(PlutoField::exp_u64_generic(PlutoField::new(2), 3).value, 8);
    assert_eq!(PlutoField::exp_u64_generic(PlutoField::new(3), 5).value, 41);
    assert_eq!(PlutoField::exp_u64_generic(PlutoField::new(2), 1).value, 2);
    assert_eq!(PlutoField::exp_u64_generic(PlutoField::new(2), 7).value, 27);
    assert_eq!(PlutoField::exp_u64_generic(PlutoField::new(10), 99).value, 91);
    assert_eq!(PlutoField::exp_u64_generic(PlutoField::new(2), 100).value, 1);
    // The exponent counts modulo 100: 2^64 - 1 leaves 15, and 2^15 = 32768 leaves 44.
    assert_eq!(PlutoField::exp_u64_generic(PlutoField::new(2), u64::MAX).value, 44);
}

#[test]
fn power_is_repeated_multiplication() {
    for v in 0..P {
        let a = PlutoField::new(v);
        let mut expected = PlutoField::one();
        for k in 0..110u64 {
            assert_eq!(PlutoField::exp_u64_generic(a, k), expected);
            assert_eq!(pluto_field::exponentiation::exp_u64_by_squaring(a, k), expected);
            expected = expected * a;
        }
    }
}

#[test]
fn inverse_is_power_with_exponent_prime_less_two() {
    for v in 1..P {
        let a = PlutoField::new(v);
        assert_eq!(a.inverse(), PlutoField::exp_u64_generic(a, u64::from(P) - 2));
    }
}

#[test]
fn generator_has_full_order() {
    let g = PlutoField::generator();
    assert_eq!(g.value, 2);
    let mut seen = vec![false; P as usize];
    let mut x = PlutoField::one();
    for k in 0..(P - 1) {
        assert!(!seen[x.value as usize]);
        seen[x.value as usize] = true;
        if k > 0 {
            assert_ne!(x, PlutoField::one());
        }
        assert_eq!(PlutoField::exp_u64_generic(g, u64::from(k)), x);
        x = x * g;
    }
    assert_eq!(x, PlutoField::one());
    assert!(!seen[0]);
}

use num_bigint::BigUint;
use pluto_field::PlutoField;
use std::collections::HashSet;

#[test]
fn new_stores_the_value_as_it_is() {
    assert_eq!(PlutoField::new(0).value, 0);
    assert_eq!(PlutoField::new(100).value, 100);
    assert_eq!(PlutoField::new(101).value, 101);
    assert_eq!(PlutoField::new(u32::MAX).value, u32::MAX);
}

#[test]
fn named_elements() {
    assert_eq!(PlutoField::zero().value, 0);
    assert_eq!(PlutoField::one().value, 1);
    assert_eq!(PlutoField::two().value, 2);
    assert_eq!(PlutoField::neg_one().value, 100);
    assert_eq!(PlutoField::generator().value, 2);
    assert_eq!(PlutoField::default().value, 0);
    assert_eq!(PlutoField::neg_one(), -PlutoField::one());
    assert_eq!(PlutoField::two(), PlutoField::one() + PlutoField::one());
}

#[test]
fn canonical_constructors_store_the_value() {
    assert_eq!(PlutoField::from_canonical_u8(100).value, 100);
    assert_eq!(PlutoField::from_canonical_u16(99).value, 99);
    assert_eq!(PlutoField::from_canonical_u32(98).value, 98);
    assert_eq!(PlutoField::from_canonical_u64(97).value, 97);
    assert_eq!(PlutoField::from_canonical_usize(96).value, 96);
    assert_eq!(PlutoField::from_canonical_u8(0).value, 0);
}

#[test]
fn wrapping_constructors_reduce() {
    assert_eq!(PlutoField::from_wrapped_u32(0).value, 0);
    assert_eq!(PlutoField::from_wrapped_u32(100).value, 100);
    assert_eq!(PlutoField::from_wrapped_u32(101).value, 0);
    assert_eq!(PlutoField::from_wrapped_u32(205).value, 3);
    assert_eq!(PlutoField::from_wrapped_u32(u32::MAX).value, 67);
    assert_eq!(PlutoField::from_wrapped_u64(101).value, 0);
    assert_eq!(PlutoField::from_wrapped_u64(1 << 40).value, 36);
    assert_eq!(PlutoField::from_wrapped_u64(u64::MAX).value, 78);
}

#[test]
fn from_bool_and_from_f() {
    assert_eq!(PlutoField::from_bool(true), PlutoField::one());
    assert_eq!(PlutoField::from_bool(false), PlutoField::zero());
    assert_eq!(PlutoField::from_f(PlutoField::new(42)).value, 42);
}

#[test]
fn equality_is_on_the_stored_value() {
    assert_eq!(PlutoField::new(5), PlutoField::new(5));
    assert_ne!(PlutoField::new(5), PlutoField::new(6));
    assert_ne!(PlutoField::new(0), PlutoField::new(101));
    let mut set = HashSet::new();
    set.insert(PlutoField::new(5));
    set.insert(PlutoField::new(5));
    set.insert(PlutoField::new(106));
    assert_eq!(set.len(), 2);
}

#[test]
fn order_is_the_prime() {
    assert_eq!(PlutoField::order(), BigUint::from(101u32));
    assert_eq!(PlutoField::order().to_u32_digits(), vec![101]);
    assert_eq!(PlutoField::order().bits(), 7);
}

#[test]
fn decimal_rendering() {
    assert_eq!(PlutoField::new(19).to_string(), "19");
    assert_eq!(PlutoField::new(0).to_string(), "0");
    assert_eq!(PlutoField::new(100).to_string(), "100");
    assert_eq!(PlutoField::new(u32::MAX).to_string(), "4294967295");
}

#[test]
fn sum_adds_up_in_order() {
    assert_eq!(PlutoField::sum(&[]), PlutoField::zero());
    assert_eq!(PlutoField::sum(&[PlutoField::new(7)]).value, 7);
    assert_eq!(PlutoField::sum(&[PlutoField::new(300)]).value, 300);
    assert_eq!(
        PlutoField::sum(&[PlutoField::new(100), PlutoField::new(20), PlutoField::new(5)]).value,
        24
    );
    let all: Vec<PlutoField> = (0..101).map(PlutoField::new).collect();
    // 0 + 1 + ... + 100 = 5050 = 50 * 101
    assert_eq!(PlutoField::sum(&all).value, 0);
}

#[test]
fn product_multiplies_in_order() {
    assert_eq!(PlutoField::product(&[]), PlutoField::one());
    assert_eq!(PlutoField::product(&[PlutoField::new(7)]).value, 7);
    assert_eq!(PlutoField::product(&[PlutoField::new(300)]).value, 300);
    assert_eq!(
        PlutoField::product(&[PlutoField::new(10), PlutoField::new(20), PlutoField::new(3)]).value,
        95
    );
    let units: Vec<PlutoField> = (1..101).map(PlutoField::new).collect();
    // Wilson: the product of all nonzero residues is minus one.
    assert_eq!(PlutoField::product(&units), PlutoField::neg_one());
}

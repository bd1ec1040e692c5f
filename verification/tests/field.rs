use pluto_field::PlutoField;

type F = PlutoField;

#[test]
fn test_overflowing_add() {
    let a = PlutoField::new(100);
    let b = PlutoField::new(20);
    let c = a + b;
    assert_eq!(c.value, 19);
}

#[test]
fn underflow_sub() {
    let a = PlutoField::new(10);
    let b = PlutoField::new(20);
    let c = a - b;
    assert_eq!(c.value, 91);
}

#[test]
fn overflowing_mul() {
    let a = PlutoField::new(10);
    let b = PlutoField::new(20);
    let c = a * b;
    println!("c: {:?}", c);
    assert_eq!(c.value, 99);
}

#[test]
fn zero() {
    let f = F::from_canonical_u32(0);
    assert!(f.is_zero());

    let f = F::from_wrapped_u32(F::ORDER_U32);
    assert!(f.is_zero());
}

#[test]
fn exp_u64_generic() {
    let f = F::from_canonical_u32(2);
    let f = F::exp_u64_generic(f, 3);
    assert_eq!(f, F::from_canonical_u32(8));
}

#[test]
fn addition_subtraction() {
    let a = PlutoField::new(50);
    let b = PlutoField::new(60);
    let c = a + b;
    assert_eq!(c.value, 9); // (50 + 60) % 101 = 9

    let d = c - a;
    assert_eq!(d.value, 60); // (9 - 50) % 101 = 60
}

#[test]
fn multiplicative_inverse() {
    let a = PlutoField::new(10);
    let a_inv = a.inverse();
    let should_be_one = a * a_inv;
    assert_eq!(should_be_one.value, 1);
}

#[test]
fn identity_elements() {
    let a = PlutoField::new(10);
    let zero = PlutoField::new(0);
    let one = PlutoField::new(1);
    assert_eq!((a + zero).value, a.value);
    assert_eq!((a * one).value, a.value);
}

#[test]
fn zero_multiplication() {
    let a = PlutoField::new(10);
    let zero = PlutoField::new(0);
    assert_eq!((a * zero).value, 0);
}

#[test]
fn negation() {
    let a = PlutoField::new(10);
    let neg_a = -a;
    assert_eq!((a + neg_a).value, 0);
}

#[test]
fn inverse_of_inverse() {
    let a = PlutoField::new(10);
    let a_inv = a.inverse();
    let a_inv_inv = a_inv.inverse();
    assert_eq!(a_inv_inv.value, a.value);
}

#[test]
fn distributivity() {
    let a = PlutoField::new(5);
    let b = PlutoField::new(6);
    let c = PlutoField::new(7);
    assert_eq!((a * (b + c)).value, (a * b + a * c).value);
}

#[test]
fn associativity() {
    let a = PlutoField::new(5);
    let b = PlutoField::new(6);
    let c = PlutoField::new(7);
    assert_eq!(((a + b) + c).value, (a + (b + c)).value);
    assert_eq!(((a * b) * c).value, (a * (b * c)).value);
}

#[test]
fn non_zero_element() {
    let a = PlutoField::new(10);
    assert!(!a.is_zero());
}

#[test]
fn power_of_zero() {
    let a = PlutoField::new(0);
    let b = PlutoField::exp_u64_generic(a, 3);
    assert_eq!(b.value, 0);
}

use stark_verifier::field::{field_add, field_exp, field_mul, field_new, field_sub, MODULUS};

#[test]
fn new_keeps_values_below_the_modulus() {
    assert_eq!(field_new(0), 0);
    assert_eq!(field_new(42), 42);
    assert_eq!(field_new(MODULUS - 1), MODULUS - 1);
}

#[test]
fn new_reduces_values_at_or_above_the_modulus() {
    assert_eq!(field_new(MODULUS), 0);
    assert_eq!(field_new(MODULUS + 5), 5);
    assert_eq!(field_new(u128::MAX), 49478023249918);
}

#[test]
fn add_wraps_at_the_modulus() {
    assert_eq!(field_add(2, 3), 5);
    assert_eq!(field_add(MODULUS - 1, 2), 1);
    assert_eq!(field_add(MODULUS - 1, 1), 0);
}

#[test]
fn sub_wraps_below_zero() {
    assert_eq!(field_sub(5, 3), 2);
    assert_eq!(field_sub(1, 2), MODULUS - 1);
    assert_eq!(field_sub(0, 0), 0);
}

#[test]
fn mul_reduces_the_full_product() {
    assert_eq!(field_mul(2, 3), 6);
    assert_eq!(field_mul(MODULUS - 1, MODULUS - 1), 1);
    assert_eq!(field_mul(1u128 << 127, 3), 170141183460469231731687353193907355647);
    assert_eq!(field_mul(0, MODULUS - 1), 0);
}

#[test]
fn exp_by_square_and_multiply() {
    assert_eq!(field_exp(3, 3), 27);
    assert_eq!(field_exp(0, 0), 1);
    assert_eq!(field_exp(0, 5), 0);
    assert_eq!(field_exp(2, 128), 49478023249919);
    // Fermat: a^(p-1) = 1 for a nonzero element.
    assert_eq!(field_exp(5, MODULUS - 1), 1);
}

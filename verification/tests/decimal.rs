use stark_verifier::decimal::{parse_base_element, to_decimal};
use stark_verifier::field::MODULUS;

#[test]
fn plain_decimal() {
    assert_eq!(parse_base_element("42"), Ok(42));
    assert_eq!(parse_base_element("0"), Ok(0));
    assert_eq!(parse_base_element("007"), Ok(7));
}

#[test]
fn surrounding_whitespace_is_ignored() {
    assert_eq!(parse_base_element("  42 \n"), Ok(42));
    assert_eq!(parse_base_element("\t3\r\n"), Ok(3));
    assert_eq!(parse_base_element("\u{3000}5\u{a0}"), Ok(5));
}

#[test]
fn leading_plus_is_accepted() {
    assert_eq!(parse_base_element("+7"), Ok(7));
}

#[test]
fn large_values_are_reduced_into_the_field() {
    assert_eq!(parse_base_element("340282366920938463463374557953744961537"), Ok(0));
    assert_eq!(parse_base_element("340282366920938463463374607431768211455"), Ok(49478023249918));
    assert_eq!(parse_base_element(&(MODULUS - 1).to_string()), Ok(MODULUS - 1));
}

#[test]
fn rejected_inputs_are_named_in_the_message() {
    assert_eq!(
        parse_base_element(""),
        Err("could not parse '' as a u128 decimal integer".to_string())
    );
    assert_eq!(
        parse_base_element(" -1 "),
        Err("could not parse ' -1 ' as a u128 decimal integer".to_string())
    );
    assert!(parse_base_element("+").is_err());
    assert!(parse_base_element("++1").is_err());
    assert!(parse_base_element("12a").is_err());
    assert!(parse_base_element("1 2").is_err());
    assert!(parse_base_element("0x10").is_err());
}

#[test]
fn values_beyond_128_bits_are_rejected() {
    assert!(parse_base_element("340282366920938463463374607431768211456").is_err());
    assert!(parse_base_element("99999999999999999999999999999999999999999").is_err());
}

#[test]
fn decimal_text_of_field_elements() {
    assert_eq!(to_decimal(0), "0");
    assert_eq!(to_decimal(1234), "1234");
    assert_eq!(to_decimal(u128::MAX), u128::MAX.to_string());
}

#[test]
fn decimal_text_reads_back() {
    for v in [0u128, 9, 10, 328551, MODULUS - 1] {
        assert_eq!(parse_base_element(&to_decimal(v)), Ok(v));
    }
}

use stark_verifier::candid_blob::{hex_encode, hex_to_candid_blob};

#[test]
fn hex_is_lower_case_two_digits_per_byte() {
    assert_eq!(hex_encode(&[0x00, 0xab, 0xff, 0x1c]), "00abff1c");
    assert_eq!(hex_encode(&[]), "");
}

#[test]
fn blob_escapes_each_pair() {
    assert_eq!(hex_to_candid_blob("00abff"), "\\00\\ab\\ff");
    assert_eq!(hex_to_candid_blob(""), "");
}

#[test]
fn blob_of_odd_length_text() {
    assert_eq!(hex_to_candid_blob("abc"), "\\ab\\c");
}

#[test]
fn blob_keeps_a_two_byte_character_whole() {
    assert_eq!(hex_to_candid_blob("\u{e9}"), "\\\u{e9}");
}

#[test]
fn blob_of_hex_of_bytes() {
    let bytes: Vec<u8> = (0u8..=255).collect();
    let blob = hex_to_candid_blob(&hex_encode(&bytes));
    let expected: String = bytes.iter().map(|b| format!("\\{b:02x}")).collect();
    assert_eq!(blob, expected);
}

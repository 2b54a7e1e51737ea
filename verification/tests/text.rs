use realtps::text::{decimal_text, lower_hex_text};

#[test]
fn decimal_texts() {
    assert_eq!(decimal_text(0), "0");
    assert_eq!(decimal_text(7), "7");
    assert_eq!(decimal_text(10), "10");
    assert_eq!(decimal_text(14_650_000), "14650000");
    assert_eq!(decimal_text(u64::MAX), "18446744073709551615");
}

#[test]
fn hexadecimal_texts() {
    assert_eq!(lower_hex_text(&[]), "");
    assert_eq!(lower_hex_text(&[0x00, 0x0f, 0xa0, 0xff]), "000fa0ff");
}

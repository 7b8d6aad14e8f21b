use ultreth::selector::{decode_function_signature, hex_string};
use ultreth::textfmt::{decimal_string, format_address, format_number, truncate_string};

#[test]
fn decimal_string_writes_plain_numbers() {
    assert_eq!(decimal_string(0), "0");
    assert_eq!(decimal_string(7), "7");
    assert_eq!(decimal_string(42), "42");
    assert_eq!(decimal_string(1000), "1000");
    assert_eq!(decimal_string(u64::MAX), "18446744073709551615");
}

#[test]
fn format_number_groups_by_thousands() {
    assert_eq!(format_number(0), "0");
    assert_eq!(format_number(1), "1");
    assert_eq!(format_number(999), "999");
    assert_eq!(format_number(1000), "1,000");
    assert_eq!(format_number(1234567), "1,234,567");
    assert_eq!(format_number(1000000000), "1,000,000,000");
    assert_eq!(format_number(u64::MAX), "18,446,744,073,709,551,615");
}

#[test]
fn format_address_shortens_long_addresses() {
    assert_eq!(
        format_address("0x1234567890abcdef1234567890abcdef12345678"),
        "0x1234.....5678"
    );
    assert_eq!(format_address("0x12345678"), "0x1234.....5678");
}

#[test]
fn format_address_keeps_short_strings() {
    assert_eq!(format_address("0x1234"), "0x1234");
    assert_eq!(format_address(""), "");
}

#[test]
fn truncate_string_cuts_and_counts() {
    assert_eq!(truncate_string("hello world", 5), "hello..... (11 chars total)");
    assert_eq!(truncate_string("abcdef", 0), "..... (6 chars total)");
}

#[test]
fn truncate_string_keeps_short_strings() {
    assert_eq!(truncate_string("hello", 5), "hello");
    assert_eq!(truncate_string("", 3), "");
    assert_eq!(truncate_string("ab", 10), "ab");
}

#[test]
fn hex_string_writes_lowercase_pairs() {
    assert_eq!(hex_string(&[]), "");
    assert_eq!(hex_string(&[0x00]), "00");
    assert_eq!(hex_string(&[0x00, 0xff, 0x1a]), "00ff1a");
}

#[test]
fn known_selectors_are_named() {
    assert_eq!(
        decode_function_signature(&[0xa9, 0x05, 0x9c, 0xbb, 0x01, 0x02]),
        "transfer(address,uint256)"
    );
    assert_eq!(decode_function_signature(&[0xd0, 0xe3, 0x0d, 0xb0]), "deposit()");
    assert_eq!(
        decode_function_signature(&[0x23, 0xb8, 0x72, 0xdd]),
        "transferFrom(address,address,uint256)"
    );
}

#[test]
fn unknown_selector_is_shown_in_hex() {
    assert_eq!(
        decode_function_signature(&[0xde, 0xad, 0xbe, 0xef]),
        "Unknown (Selector: 0xdeadbeef)"
    );
}

#[test]
fn short_input_has_no_selector() {
    assert_eq!(decode_function_signature(&[]), "Unknown");
    assert_eq!(decode_function_signature(&[0xa9, 0x05, 0x9c]), "Unknown");
}

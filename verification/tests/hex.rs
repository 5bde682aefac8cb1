use pickles_verifier::hex::{hex_digit_exec, parse_be_hex_field, parse_hex_u64, HexError};

#[test]
fn hex_limbs_read_as_from_str_radix() {
    assert_eq!(parse_hex_u64(b"ff").unwrap(), 255);
    assert_eq!(parse_hex_u64(b"+A").unwrap(), 10);
    assert_eq!(parse_hex_u64(b"ffffffffffffffff").unwrap(), u64::MAX);
    assert_eq!(parse_hex_u64(b"0000000000000000001").unwrap(), 1);
}

#[test]
fn hex_limb_errors() {
    assert_eq!(parse_hex_u64(b"").unwrap_err(), HexError::Empty);
    assert_eq!(parse_hex_u64(b"+").unwrap_err(), HexError::InvalidDigit);
    assert_eq!(parse_hex_u64(b"-1").unwrap_err(), HexError::InvalidDigit);
    assert_eq!(parse_hex_u64(b"0x1").unwrap_err(), HexError::InvalidDigit);
    assert_eq!(parse_hex_u64(b"10000000000000000").unwrap_err(), HexError::PosOverflow);
    assert_eq!(HexError::Empty.message(), "cannot parse integer from empty string");
    assert_eq!(HexError::InvalidDigit.message(), "invalid digit found in string");
    assert_eq!(HexError::PosOverflow.message(), "number too large to fit in target type");
}

#[test]
fn hex_digits() {
    assert_eq!(hex_digit_exec(b'0'), Some(0));
    assert_eq!(hex_digit_exec(b'f'), Some(15));
    assert_eq!(hex_digit_exec(b'F'), Some(15));
    assert_eq!(hex_digit_exec(b'g'), None);
}

#[test]
fn big_endian_hex_fields() {
    let mut one = vec![0u8; 32];
    one[0] = 1;
    assert_eq!(parse_be_hex_field(b"0x1").unwrap(), one);
    assert_eq!(parse_be_hex_field(b"1").unwrap(), one);
    let mut v = vec![0u8; 32];
    v[0] = 0x34;
    v[1] = 0x12;
    assert_eq!(parse_be_hex_field(b"0X1234").unwrap(), v);
    let full = "ab".repeat(32);
    assert_eq!(parse_be_hex_field(full.as_bytes()).unwrap(), vec![0xab; 32]);
    assert!(parse_be_hex_field(b"0x").is_none());
    assert!(parse_be_hex_field(b"").is_none());
    assert!(parse_be_hex_field(b"0xzz").is_none());
    let too_long = "1".repeat(65);
    assert!(parse_be_hex_field(too_long.as_bytes()).is_none());
}

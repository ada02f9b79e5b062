use fox_tools::numbers::{
    decimal_text, parse_i32, parse_unsigned, push_decimal, push_hex, push_hex_of_bytes,
    push_signed_zero_padded, push_zero_padded, read_hex_digit,
};

#[test]
fn decimal_matches_display() {
    for n in [0u64, 1, 9, 10, 11, 99, 100, 65535, 4294967295, u64::MAX] {
        assert_eq!(decimal_text(n), n.to_string());
        let mut out = String::from("x");
        push_decimal(&mut out, n);
        assert_eq!(out, format!("x{n}"));
    }
}

#[test]
fn padding_matches_format() {
    for n in [0u64, 5, 12, 123, 98765] {
        let mut out = String::new();
        push_zero_padded(&mut out, n, 2);
        assert_eq!(out, format!("{:02}", n));
    }
    for n in [0i32, 5, 2025, 123456, -1, -12, -1234, i32::MAX, i32::MIN] {
        let mut out = String::new();
        push_signed_zero_padded(&mut out, n, 4);
        assert_eq!(out, format!("{:04}", n));
        assert_eq!(parse_i32(&out), Some(n));
    }
}

#[test]
fn unsigned_numbers_parse_as_in_std() {
    let texts = [
        "", "+", "-", "0", "7", "+7", "-7", "-0", "007", "4294967295", "4294967296", "1 ", " 1", "1a",
        "+ 1", "++1", "99999999999999999999999", "１", "18446744073709551615",
        "18446744073709551616",
    ];
    for s in texts {
        let narrow: Option<u64> = s.parse::<u32>().ok().map(|n| n as u64);
        assert_eq!(parse_unsigned(s, u32::MAX as u64), narrow, "{s:?}");
        assert_eq!(parse_unsigned(s, u64::MAX), s.parse::<u64>().ok(), "{s:?}");
        assert_eq!(parse_i32(s), s.parse::<i32>().ok(), "{s:?}");
    }
    for s in ["2147483647", "2147483648", "-2147483648", "-2147483649", "--1", "+-1", "-+1"] {
        assert_eq!(parse_i32(s), s.parse::<i32>().ok(), "{s:?}");
    }
}

#[test]
fn written_numbers_read_back() {
    for n in [0u64, 1, 10, 4242, u64::MAX] {
        assert_eq!(parse_unsigned(&decimal_text(n), u64::MAX), Some(n));
    }
    assert_eq!(parse_unsigned("11", 10), None);
    assert_eq!(parse_unsigned("10", 10), Some(10));
}

#[test]
fn hexadecimal_matches_format() {
    for n in [0u64, 9, 10, 15, 16, 0xABCD, 0xFFFF] {
        let mut upper = String::new();
        push_hex(&mut upper, n, 4, true);
        assert_eq!(upper, format!("{:04X}", n));
        let mut lower = String::new();
        push_hex(&mut lower, n, 4, false);
        assert_eq!(lower, format!("{:04x}", n));
    }
    let mut wide = String::new();
    push_hex(&mut wide, 0x10000, 8, true);
    assert_eq!(wide, "00010000");
    let mut bytes = String::new();
    push_hex_of_bytes(&mut bytes, &[0x00, 0x5a, 0xff], false);
    assert_eq!(bytes, "005aff");
}

#[test]
fn hexadecimal_digits_read_as_in_std() {
    for code in 0..0x300u32 {
        if let Some(c) = char::from_u32(code) {
            assert_eq!(read_hex_digit(c).map(|d| d as u32), c.to_digit(16));
        }
    }
}

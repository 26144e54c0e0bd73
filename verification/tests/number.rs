use ftp_utils::number::{hex_encode, parse_u64, u64_to_decimal, IntParseIssue};

#[test]
fn decimal_formatting() {
    assert_eq!(u64_to_decimal(0), "0");
    assert_eq!(u64_to_decimal(7), "7");
    assert_eq!(u64_to_decimal(1234567890), "1234567890");
    assert_eq!(u64_to_decimal(u64::MAX), u64::MAX.to_string());
}

#[test]
fn decimal_parsing_matches_std() {
    for s in ["0", "42", "+7", "007", "18446744073709551615", "18446744073709551616", "", "+", "-1", "1a", "a1", " 1"] {
        let ours = parse_u64(s);
        let std = s.parse::<u64>();
        match (ours, std) {
            (Ok(a), Ok(b)) => assert_eq!(a, b, "value of {s:?}"),
            (Err(IntParseIssue::Empty), Err(e)) => assert_eq!(e.to_string(), "cannot parse integer from empty string"),
            (Err(IntParseIssue::InvalidDigit), Err(e)) => assert_eq!(e.to_string(), "invalid digit found in string"),
            (Err(IntParseIssue::PosOverflow), Err(e)) => {
                assert_eq!(e.to_string(), "number too large to fit in target type")
            }
            (a, b) => panic!("{s:?}: {a:?} vs {b:?}"),
        }
    }
}

#[test]
fn decimal_roundtrip() {
    for n in [0u64, 1, 9, 10, 99, 100, 65535, u64::MAX - 1, u64::MAX] {
        assert_eq!(parse_u64(&u64_to_decimal(n)), Ok(n));
    }
}

#[test]
fn hex_encoding() {
    assert_eq!(hex_encode(&[0x00, 0x0f, 0xab, 0xff]), "000fabff");
    assert_eq!(hex_encode(&[]), "");
}

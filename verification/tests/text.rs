use ferrous_comics::text::{
    chars_of, decimal_text, is_space, parse_i32, parse_u16, parse_u32, parse_unsigned, same_text,
    signed_text, split_list, text_of, to_lower, trim, NumberFault,
};
use std::num::{IntErrorKind, ParseIntError};

/// The fault that std finds.
fn fault(error: ParseIntError) -> NumberFault {
    match error.kind() {
        IntErrorKind::Empty => NumberFault::Empty,
        IntErrorKind::InvalidDigit => NumberFault::InvalidDigit,
        IntErrorKind::PosOverflow => NumberFault::TooLarge,
        IntErrorKind::NegOverflow => NumberFault::TooSmall,
        other => panic!("{other:?}"),
    }
}

#[test]
fn decimals() {
    for n in [0, 1, 9, 10, 99, 100, 1009, 4_294_967_295, u64::MAX] {
        assert_eq!(decimal_text(n), n.to_string());
    }
    for n in [0, 1, -1, 10, -10, i64::MAX, i64::MIN, i64::MIN + 1] {
        assert_eq!(signed_text(n), n.to_string());
    }
}

#[test]
fn decimals_read_back() {
    for n in [0, 7, 10, 65_535, u32::MAX] {
        assert_eq!(parse_u32(&decimal_text(n as u64)), Ok(n));
    }
}

#[test]
fn numbers_are_read_as_std_reads_them() {
    for s in [
        "", "+", "-", "0", "-0", "+0", "00", "007", "+5", "-5", "++5", "+-5", "--5", " 5", "5 ",
        "5a", "a5", "1_000", "65535", "65536", "4294967295", "4294967296", "42949672950",
        "2147483647", "2147483648", "-2147483648", "-2147483649", "+2147483647",
        "99999999999x", "4294967296x", "-99999999999x", "x99999999999", "99999999999999999999999", "000000000000000000000000001", "\u{0661}", "1.0", "0x1", "5\n",
    ] {
        assert_eq!(parse_u32(s), s.parse::<u32>().map_err(fault), "{s:?}");
        assert_eq!(parse_u16(s), s.parse::<u16>().map_err(fault), "{s:?}");
        assert_eq!(parse_i32(s), s.parse::<i32>().map_err(fault), "{s:?}");
    }
    assert_eq!(parse_unsigned("12", 12), Ok(12));
    assert_eq!(parse_unsigned("13", 12), Err(NumberFault::TooLarge));
}

#[test]
fn every_character_is_sorted_as_std_sorts_it() {
    for c in '\0'..=char::MAX {
        assert_eq!(is_space(c), c.is_whitespace(), "{c:?}");
    }
}

#[test]
fn trimming() {
    for s in ["", " ", "a", " a", "a ", "\t a b \n", "\u{2003}a\u{a0}", "\u{200b}a", "  \u{3000}"] {
        assert_eq!(trim(s), s.trim(), "{s:?}");
    }
}

#[test]
fn trimmed_text_has_no_white_ends() {
    let trimmed = trim(" \r\n x y\u{85}");
    assert_eq!(trimmed, "x y");
    assert_eq!(trim(&trimmed), trimmed);
}

#[test]
fn lists() {
    for s in ["", ",", "a", "a,b", " a , , b,", ",,a b,\t", "a;b"] {
        let expected: Vec<String> =
            s.split(',').map(|p| p.trim().to_string()).filter(|p| !p.is_empty()).collect();
        assert_eq!(split_list(s, ','), expected, "{s:?}");
    }
}

#[test]
fn lower_case() {
    for s in ["", "TRUE", "yEs", "ÄÖ\u{130}Z", "@AZ[az"] {
        assert_eq!(to_lower(s), s.to_ascii_lowercase());
    }
}

#[test]
fn characters_and_back() {
    let chars = chars_of("añb");
    assert_eq!(chars, vec!['a', 'ñ', 'b']);
    assert_eq!(text_of(&chars, 0, 3), "añb");
    assert_eq!(text_of(&chars, 1, 2), "ñ");
    assert_eq!(text_of(&chars, 2, 2), "");
    assert!(same_text(&"abc".to_string(), "abc"));
    assert!(!same_text(&"abc".to_string(), "abC"));
}

#[test]
fn faults_are_told_as_std_tells_them() {
    for s in ["", "x", "9999999999", "-9999999999"] {
        let told = s.parse::<i32>().unwrap_err().to_string();
        assert_eq!(parse_i32(s).unwrap_err().message(), told);
    }
}

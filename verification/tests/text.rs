use p2pssh::text::{chars_of, number_text, parse_number, same_text, trim_range, white_space, NumberError};

#[test]
fn white_space_is_that_of_unicode() {
    for c in '\u{0}'..=char::MAX {
        assert_eq!(white_space(c), c.is_whitespace());
    }
}

#[test]
fn trimming_is_that_of_strings() {
    for s in ["", " ", "a", " a b\t", "\u{3000}x", "x\r", "\n\n", " \u{200b} "] {
        let chars = chars_of(s);
        let (a, b) = trim_range(&chars, 0, chars.len());
        let kept: String = chars[a..b].iter().collect();
        assert_eq!(kept, s.trim());
    }
}

#[test]
fn numbers_are_read_as_the_standard_library_reads_them() {
    for s in [
        "0", "7", "100", "+5", "007", "", "+", "-", "-1", "++1", " 1", "1 ", "1x", "x",
        "18446744073709551615", "18446744073709551616", "99999999999999999999999x",
        "18446744073709551615x", "+18446744073709551616", "0x10", "\u{0661}",
    ] {
        match (parse_number(s), s.parse::<usize>()) {
            (Ok(a), Ok(b)) => assert_eq!(a, b),
            (Err(a), Err(b)) => {
                let kind = match a {
                    NumberError::Empty => std::num::IntErrorKind::Empty,
                    NumberError::InvalidDigit => std::num::IntErrorKind::InvalidDigit,
                    NumberError::TooLarge => std::num::IntErrorKind::PosOverflow,
                };
                assert_eq!(&kind, b.kind(), "{:?}", s);
            }
            other => panic!("{:?}: {:?}", s, other),
        }
    }
}

#[test]
fn numbers_are_written_in_decimal() {
    for n in [0, 9, 10, 99, 100, 65536, usize::MAX] {
        assert_eq!(number_text(n), n.to_string());
    }
}

#[test]
fn texts_are_compared_by_their_characters() {
    assert!(same_text("", ""));
    assert!(same_text("ab\u{e9}", "ab\u{e9}"));
    assert!(!same_text("ab", "abc"));
    assert!(!same_text("ab", "ac"));
}

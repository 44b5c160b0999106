use mandoc_db::error::ParseError;
use mandoc_db::utils::{eq_ignoring_case, find_nul, parse_list, parse_num, parse_str, to_ascii_lower};

#[test]
fn parse_num_reads_big_endian() {
    let bytes = [0x3a, 0x7d, 0x0c, 0xdb, 0x00, 0x00, 0x01, 0x02];
    assert_eq!(parse_num(&bytes, 0), Ok(0x3a7d0cdb));
    assert_eq!(parse_num(&bytes, 4), Ok(258));
    assert_eq!(parse_num(&bytes, 1), Ok(0x7d0cdb00));
}

#[test]
fn parse_num_reads_largest_value() {
    let bytes = [0xff, 0xff, 0xff, 0xff];
    assert_eq!(parse_num(&bytes, 0), Ok(4_294_967_295));
}

#[test]
fn parse_num_refuses_read_past_end() {
    let bytes = [0, 0, 0, 1, 0, 0, 0];
    assert_eq!(parse_num(&bytes, 3), Ok(0x0100_0000));
    assert_eq!(parse_num(&bytes, 4), Err(ParseError::OutOfBounds { offset: 4 }));
    assert_eq!(parse_num(&bytes, 7), Err(ParseError::OutOfBounds { offset: 7 }));
    assert_eq!(parse_num(&bytes, 1000), Err(ParseError::OutOfBounds { offset: 1000 }));
    assert_eq!(parse_num(&bytes, usize::MAX), Err(ParseError::OutOfBounds { offset: usize::MAX }));
}

#[test]
fn parse_num_refuses_short_buffer() {
    assert_eq!(parse_num(&[], 0), Err(ParseError::OutOfBounds { offset: 0 }));
    assert_eq!(parse_num(&[1, 2, 3], 0), Err(ParseError::OutOfBounds { offset: 0 }));
}

#[test]
fn find_nul_stops_at_first_nul() {
    let bytes = b"ab\0cd\0";
    assert_eq!(find_nul(bytes, 0), 2);
    assert_eq!(find_nul(bytes, 2), 2);
    assert_eq!(find_nul(bytes, 3), 5);
    assert_eq!(find_nul(bytes, 6), 6);
    assert_eq!(find_nul(b"abc", 1), 3);
}

#[test]
fn parse_str_reads_up_to_nul() {
    let bytes = b"xxls\0more\0";
    assert_eq!(parse_str(bytes, 2), Ok("ls"));
    assert_eq!(parse_str(bytes, 3), Ok("s"));
    assert_eq!(parse_str(bytes, 4), Ok(""));
    assert_eq!(parse_str(bytes, 5), Ok("more"));
}

#[test]
fn parse_str_borrows_from_buffer() {
    let bytes = b"xxls\0";
    let s = parse_str(bytes, 2).unwrap();
    assert_eq!(s.as_ptr(), bytes[2..].as_ptr());
    assert_eq!(s.len(), 2);
}

#[test]
fn parse_str_decodes_multibyte_text() {
    let bytes = "a\u{e9}\u{4e2d}\u{1f600}\0".as_bytes();
    assert_eq!(parse_str(bytes, 0), Ok("a\u{e9}\u{4e2d}\u{1f600}"));
    assert_eq!(parse_str(bytes, 0).unwrap().chars().count(), 4);
}

#[test]
fn parse_str_refuses_bad_utf8() {
    let bytes = [b'a', 0xff, b'b', 0, 0xc3, 0];
    assert_eq!(parse_str(&bytes, 0), Err(ParseError::InvalidUtf8 { offset: 0 }));
    assert_eq!(parse_str(&bytes, 2), Ok("b"));
    assert_eq!(parse_str(&bytes, 4), Err(ParseError::InvalidUtf8 { offset: 4 }));
}

#[test]
fn parse_str_refuses_ill_formed_sequences() {
    // An overlong form, a surrogate, a value above the last scalar, a lone
    // continuation byte and a sequence cut short.
    let cases: [&[u8]; 5] = [
        &[0xc0, 0x80, 0],
        &[0xed, 0xa0, 0x80, 0],
        &[0xf4, 0x90, 0x80, 0x80, 0],
        &[0x80, 0],
        &[0xe4, 0xb8, 0],
    ];
    for bytes in cases {
        assert_eq!(parse_str(bytes, 0), Err(ParseError::InvalidUtf8 { offset: 0 }));
    }
}

#[test]
fn parse_str_takes_boundary_scalars() {
    let cases: [(&[u8], &str); 5] = [
        (&[0x7f, 0], "\u{7f}"),
        (&[0xc2, 0x80, 0], "\u{80}"),
        (&[0xed, 0x9f, 0xbf, 0], "\u{d7ff}"),
        (&[0xee, 0x80, 0x80, 0], "\u{e000}"),
        (&[0xf4, 0x8f, 0xbf, 0xbf, 0], "\u{10ffff}"),
    ];
    for (bytes, text) in cases {
        assert_eq!(parse_str(bytes, 0), Ok(text));
    }
}

#[test]
fn parse_str_refuses_missing_nul() {
    let bytes = b"ab\0cd";
    assert_eq!(parse_str(bytes, 3), Err(ParseError::OutOfBounds { offset: 3 }));
    assert_eq!(parse_str(bytes, 5), Err(ParseError::OutOfBounds { offset: 5 }));
    assert_eq!(parse_str(bytes, 6), Err(ParseError::OutOfBounds { offset: 6 }));
    assert_eq!(parse_str(&[], 0), Err(ParseError::OutOfBounds { offset: 0 }));
}

#[test]
fn parse_list_of_lone_nul_is_empty() {
    let bytes = b"\0";
    assert_eq!(parse_list(bytes, 0), Ok(vec![]));
    let bytes = b"ab\0\0";
    assert_eq!(parse_list(bytes, 3), Ok(vec![]));
}

#[test]
fn parse_list_reads_strings_in_order() {
    let bytes = b"??1\08\0amd64\0\0rest";
    assert_eq!(parse_list(bytes, 2), Ok(vec!["1", "8", "amd64"]));
    assert_eq!(parse_list(bytes, 4), Ok(vec!["8", "amd64"]));
    assert_eq!(parse_list(bytes, 12), Ok(vec![]));
}

#[test]
fn parse_list_refuses_missing_terminator() {
    let bytes = b"ab\0cd\0";
    assert_eq!(parse_list(bytes, 0), Err(ParseError::OutOfBounds { offset: 6 }));
    let bytes = b"ab\0cd";
    assert_eq!(parse_list(bytes, 0), Err(ParseError::OutOfBounds { offset: 3 }));
}

#[test]
fn parse_list_refuses_offset_outside_buffer() {
    let bytes = b"a\0\0";
    assert_eq!(parse_list(bytes, 3), Err(ParseError::OutOfBounds { offset: 3 }));
    assert_eq!(parse_list(bytes, 40), Err(ParseError::OutOfBounds { offset: 40 }));
}

#[test]
fn parse_list_refuses_bad_utf8_at_its_item() {
    let bytes = [b'a', 0, 0x80, 0, 0];
    assert_eq!(parse_list(&bytes, 0), Err(ParseError::InvalidUtf8 { offset: 2 }));
}

#[test]
fn to_ascii_lower_folds_capitals_only() {
    assert_eq!(to_ascii_lower(b'A'), b'a');
    assert_eq!(to_ascii_lower(b'Z'), b'z');
    assert_eq!(to_ascii_lower(b'a'), b'a');
    assert_eq!(to_ascii_lower(b'@'), b'@');
    assert_eq!(to_ascii_lower(b'['), b'[');
    assert_eq!(to_ascii_lower(0xc9), 0xc9);
    for byte in 0..=255u8 {
        assert_eq!(to_ascii_lower(byte), byte.to_ascii_lowercase());
    }
}

#[test]
fn eq_ignoring_case_matches_ascii_letters() {
    assert!(eq_ignoring_case("LS", "ls"));
    assert!(eq_ignoring_case("Printf", "pRINTF"));
    assert!(eq_ignoring_case("", ""));
    assert!(!eq_ignoring_case("ls", "lsof"));
    assert!(!eq_ignoring_case("ls", "l"));
    assert!(!eq_ignoring_case("ls", "lt"));
    assert!(!eq_ignoring_case("@", "`"));
    assert!(!eq_ignoring_case("[", "{"));
}

#[test]
fn eq_ignoring_case_leaves_other_letters_alone() {
    assert!(eq_ignoring_case("caf\u{e9}", "CAF\u{e9}"));
    assert!(!eq_ignoring_case("caf\u{e9}", "caf\u{c9}"));
}

#[test]
fn eq_ignoring_case_agrees_with_std() {
    let words = ["", "a", "A", "ab", "aB", "Ab", "ba", "a1", "A1", "\u{e9}", "\u{c9}", "z{", "Z["];
    for a in words {
        for b in words {
            assert_eq!(eq_ignoring_case(a, b), a.eq_ignore_ascii_case(b));
        }
    }
}

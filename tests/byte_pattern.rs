use hex_magic::byte_pattern::{ArrayElem, BytePattern, Matcher, PatternError};
use hex_magic::hex_string::LexErrorKind;

#[test]
fn range_in_hex_pattern_is_refused() {
    let e = BytePattern::from_hex(b"AA .. BB").unwrap_err();
    assert_eq!(e, PatternError::RangeNotAllowed { index: 1 });
    let e = BytePattern::from_hex(b"..").unwrap_err();
    assert_eq!(e, PatternError::RangeNotAllowed { index: 0 });
}

#[test]
fn lex_error_reaches_pattern() {
    match BytePattern::from_hex(b"ABC").unwrap_err() {
        PatternError::Lex(e) => assert_eq!(e.kind, LexErrorKind::Unpaired),
        other => panic!("unexpected {:?}", other),
    }
}

#[test]
fn range_in_array_pattern_is_refused() {
    let e = BytePattern::from_array(vec![ArrayElem::Byte { value: 1 }, ArrayElem::Wildcard, ArrayElem::Range])
        .unwrap_err();
    assert_eq!(e, PatternError::RangeNotAllowed { index: 2 });
}

#[test]
fn array_pattern_text_and_len() {
    let p = BytePattern::from_array(vec![ArrayElem::Byte { value: 1 }, ArrayElem::Wildcard]).unwrap();
    assert_eq!(p.len(), 2);
    assert_eq!(p.to_string(), "[01, __]");
    assert_eq!(p.matchers(), vec![Matcher::Exact(1), Matcher::Any]);
}

#[test]
fn byte_string_pattern() {
    let p = BytePattern::from_byte_str(b"HEX".to_vec());
    assert_eq!(p.len(), 3);
    assert_eq!(p.to_string(), "[48, 45, 58]");
    assert_eq!(p.matches(b"HEX"), Some(true));
    assert_eq!(p.matches(b"HEY"), Some(false));
}

#[test]
fn hex_pattern_text() {
    let p = BytePattern::from_hex(b"48 45 58").unwrap();
    assert_eq!(p.len(), 3);
    assert_eq!(p.to_string(), "[48, 45, 58]");
    let p = BytePattern::from_hex(b"AABB ____").unwrap();
    assert_eq!(p.to_string(), "[AA, BB, __, __]");
}

#[test]
fn wildcard_matches_every_byte() {
    let p = BytePattern::from_hex(b"01__").unwrap();
    for v in 0..=255u8 {
        assert_eq!(p.matches(&[0x01, v]), Some(true));
        assert_eq!(p.matches(&[0x02, v]), Some(false));
    }
}

#[test]
fn wrong_length_does_not_match() {
    let p = BytePattern::from_hex(b"0102").unwrap();
    assert_eq!(p.matches(&[0x01]), Some(false));
}

#[test]
fn opaque_element_is_not_evaluated() {
    let p = BytePattern::from_array(vec![ArrayElem::Expr { text: "MAGIC".to_string() }, ArrayElem::Wildcard])
        .unwrap();
    assert_eq!(p.len(), 2);
    assert_eq!(p.to_string(), "[MAGIC, __]");
    assert_eq!(p.matches(&[0, 0]), None);
}

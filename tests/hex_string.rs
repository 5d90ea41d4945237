use hex_magic::hex_string::{HexString, HexValue, LexErrorKind};
use hex_magic::render::render_bytes;

fn lex(s: &str) -> Vec<HexValue> {
    HexString::parse(s.as_bytes()).unwrap().elems().clone()
}

#[test]
fn digits_render_upper_case() {
    let h = HexString::parse(b"7d2b").unwrap();
    assert_eq!(h.len(), 2);
    assert_eq!(h.to_string(), "[7D, 2B]");
}

#[test]
fn mixed_case_digits() {
    assert_eq!(lex("aA aa aA Aa aa"), vec![HexValue::Number { value: 0xAA }; 5]);
    assert_eq!(lex("DEAD AF"), vec![
        HexValue::Number { value: 0xDE },
        HexValue::Number { value: 0xAD },
        HexValue::Number { value: 0xAF },
    ]);
}

#[test]
fn whitespace_between_tokens_is_ignored() {
    assert_eq!(lex("AA BB"), lex("AABB"));
    assert_eq!(lex(" \t01\r\n02 "), lex("0102"));
}

#[test]
fn wildcards_and_ranges() {
    let h = HexString::parse(b"01__FF..").unwrap();
    assert_eq!(h.elems(), &vec![
        HexValue::Number { value: 0x01 },
        HexValue::Underscore,
        HexValue::Number { value: 0xFF },
        HexValue::DotDot,
    ]);
    assert_eq!(h.to_string(), "[01, __, FF, ..]");
}

#[test]
fn empty_string_is_empty_pattern() {
    let h = HexString::parse(b"").unwrap();
    assert_eq!(h.len(), 0);
    assert_eq!(h.to_string(), "[]");
}

#[test]
fn trailing_digit_is_unpaired() {
    let e = HexString::parse(b"AAB").unwrap_err();
    assert_eq!(e.kind, LexErrorKind::Unpaired);
    assert_eq!(e.ch, b'B');
    assert_eq!(e.pos, 2);
    assert_eq!(e.start, 2);
}

#[test]
fn split_digit_pair_fails_at_orphan() {
    let e = HexString::parse(b"1 2").unwrap_err();
    assert_eq!(e.kind, LexErrorKind::ExpectedHexDigit);
    assert_eq!(e.ch, b' ');
    assert_eq!(e.pos, 1);
    assert_eq!(e.start, 0);
}

#[test]
fn lone_underscore_fails() {
    let e = HexString::parse(b"AA_B").unwrap_err();
    assert_eq!(e.kind, LexErrorKind::ExpectedUnderscore);
    assert_eq!(e.ch, b'B');
    assert_eq!(e.pos, 3);
    assert_eq!(e.start, 2);
}

#[test]
fn lone_dot_fails() {
    let e = HexString::parse(b"AA.B").unwrap_err();
    assert_eq!(e.kind, LexErrorKind::ExpectedDot);
    assert_eq!(e.pos, 3);
    assert_eq!(e.start, 2);
    let e = HexString::parse(b"__.").unwrap_err();
    assert_eq!(e.kind, LexErrorKind::Unpaired);
    assert_eq!(e.start, 2);
}

#[test]
fn invalid_character_fails() {
    let e = HexString::parse(b"AA GG").unwrap_err();
    assert_eq!(e.kind, LexErrorKind::InvalidCharacter);
    assert_eq!(e.ch, b'G');
    assert_eq!(e.pos, 3);
    assert_eq!(e.start, 3);
}

#[test]
fn hex_digit_then_other_token_fails() {
    let e = HexString::parse(b"A_").unwrap_err();
    assert_eq!(e.kind, LexErrorKind::ExpectedHexDigit);
    assert_eq!(e.ch, b'_');
    assert_eq!(e.start, 0);
}

#[test]
fn bytes_render_as_hex_groups() {
    assert_eq!(render_bytes(&[0x48, 0x45, 0x59]), "[48, 45, 59]");
    assert_eq!(render_bytes(&[0x00, 0x0F, 0xF0]), "[00, 0F, F0]");
    assert_eq!(render_bytes(&[]), "[]");
}

use hex_magic::byte_pattern::{ArrayElem, BytePattern};
use hex_magic::hex_struct::{HexStruct, ParseError, StructError};
use hex_magic::hex_struct_field::{
    internal_ident, FieldError, HexIdent, HexStructField, ValueSource, INTERNAL_PREFIX,
};
use hex_magic::render::render_bytes;

fn hex(s: &str) -> BytePattern {
    BytePattern::from_hex(s.as_bytes()).unwrap()
}

fn member(name: &str) -> HexIdent {
    HexIdent::Member { name: name.to_string() }
}

fn skip(p: BytePattern) -> HexStructField {
    HexStructField::new(HexIdent::Underscore, None, p, None).unwrap()
}

fn sample() -> HexStruct {
    let fields = vec![
        skip(hex("48 45 58")),
        HexStructField::new(
            member("a"),
            None,
            BytePattern::from_array(vec![ArrayElem::Byte { value: 0x01 }, ArrayElem::Wildcard]).unwrap(),
            None,
        )
        .unwrap(),
        HexStructField::new(
            member("b"),
            Some("buf".to_string()),
            hex("AABB ____"),
            Some("u32::from_le_bytes(*buf)".to_string()),
        )
        .unwrap(),
    ];
    HexStruct::new("Data".to_string(), fields, None).unwrap()
}

#[test]
fn sample_record_parses() {
    let plan = sample();
    let vals = plan
        .parse_bytes(&[0x48, 0x45, 0x58, 0x01, 0x02, 0xAA, 0xBB, 0xCC, 0xDD])
        .unwrap();
    assert_eq!(vals.len(), 2);
    assert_eq!(vals[0], vec![0x01, 0x02]);
    let b = u32::from_le_bytes([vals[1][0], vals[1][1], vals[1][2], vals[1][3]]);
    assert_eq!(b, 0xDDCCBBAA);
}

#[test]
fn sample_record_wrong_magic() {
    let plan = sample();
    match plan.parse_bytes(&[0x48, 0x45, 0x59, 0x01, 0x02, 0xAA, 0xBB, 0xCC, 0xDD]) {
        Err(ParseError::Mismatch { field, expected, got }) => {
            assert_eq!(field, 0);
            assert_eq!(expected, "[48, 45, 58]");
            assert_eq!(got, vec![0x48, 0x45, 0x59]);
            assert_eq!(render_bytes(&got), "[48, 45, 59]");
        }
        other => panic!("unexpected {:?}", other),
    }
}

#[test]
fn sample_record_short_input() {
    let plan = sample();
    match plan.parse_bytes(&[0x48, 0x45]) {
        Err(ParseError::UnexpectedEof { field }) => assert_eq!(field, 0),
        other => panic!("unexpected {:?}", other),
    }
    match plan.parse_bytes(&[0x48, 0x45, 0x58, 0x01, 0x02, 0xAA]) {
        Err(ParseError::UnexpectedEof { field }) => assert_eq!(field, 2),
        other => panic!("unexpected {:?}", other),
    }
}

#[test]
fn later_field_mismatch() {
    let plan = sample();
    match plan.parse_bytes(&[0x48, 0x45, 0x58, 0x02, 0x02, 0xAA, 0xBB, 0xCC, 0xDD]) {
        Err(ParseError::Mismatch { field, expected, got }) => {
            assert_eq!(field, 1);
            assert_eq!(expected, "[01, __]");
            assert_eq!(got, vec![0x02, 0x02]);
        }
        other => panic!("unexpected {:?}", other),
    }
}

#[test]
fn check_field_alone() {
    let plan = sample();
    assert!(plan.check_field(2, &[0xAA, 0xBB, 0x00, 0xFF]).is_ok());
    assert!(plan.check_field(2, &[0xAA, 0xBC, 0x00, 0xFF]).is_err());
}

#[test]
fn unevaluated_pattern_stops_the_parse() {
    let p = BytePattern::from_array(vec![ArrayElem::Expr { text: "MAGIC".to_string() }]).unwrap();
    let plan = HexStruct::new("T".to_string(), vec![skip(p)], None).unwrap();
    match plan.parse_bytes(&[0x00]) {
        Err(ParseError::Unevaluated { field }) => assert_eq!(field, 0),
        other => panic!("unexpected {:?}", other),
    }
}

#[test]
fn buffer_is_longest_pattern() {
    assert_eq!(sample().buffer_len(), 4);
    let empty = HexStruct::new("T".to_string(), vec![], None).unwrap();
    assert_eq!(empty.buffer_len(), 0);
    assert_eq!(empty.parse_bytes(&[1, 2, 3]).unwrap().len(), 0);
}

#[test]
fn consecutive_skip_fields_are_refused() {
    let fields = vec![
        HexStructField::new(member("a"), None, hex("01"), None).unwrap(),
        skip(hex("00")),
        skip(hex("FF")),
    ];
    match HexStruct::new("T".to_string(), fields, None) {
        Err(e) => assert_eq!(e, StructError::ConsecutiveMatchOnly { index: 2 }),
        Ok(_) => panic!("accepted two `_` fields in a row"),
    }
}

#[test]
fn skip_next_to_bound_is_accepted() {
    let fields = vec![
        skip(hex("00")),
        HexStructField::new(member("a"), None, hex("01"), None).unwrap(),
        skip(hex("FF")),
    ];
    let plan = HexStruct::new("T".to_string(), fields, Some("Default::default()".to_string())).unwrap();
    assert_eq!(plan.path(), "T");
    assert_eq!(plan.fields().len(), 3);
    assert_eq!(plan.rest().as_deref(), Some("Default::default()"));
    assert_eq!(plan.parse_bytes(&[0x00, 0x01, 0xFF]).unwrap(), vec![vec![0x01]]);
}

#[test]
fn skip_field_rejects_binding_and_transform() {
    let e = HexStructField::new(HexIdent::Underscore, Some("b".to_string()), hex("00"), Some("f(b)".to_string()))
        .unwrap_err();
    assert_eq!(e, FieldError::MatchOnlyExtras);
    let e = HexStructField::new(HexIdent::Underscore, None, hex("00"), Some("()".to_string())).unwrap_err();
    assert_eq!(e, FieldError::MatchOnlyExtras);
}

#[test]
fn binding_needs_transform() {
    let e = HexStructField::new(member("a"), Some("b".to_string()), hex("00"), None).unwrap_err();
    assert_eq!(e, FieldError::MissingTransform);
}

#[test]
fn field_value_sources() {
    assert_eq!(skip(hex("00")).value_source(), ValueSource::Nothing);
    let raw = HexStructField::new(member("a"), None, hex("00"), None).unwrap();
    assert_eq!(raw.value_source(), ValueSource::RawBytes);
    assert!(raw.is_struct_member());
    assert_eq!(raw.byte_pattern().len(), 1);
    let t = HexStructField::new(member("a"), None, hex("00"), Some("x".to_string())).unwrap();
    assert_eq!(t.value_source(), ValueSource::Transform);
}

#[test]
fn generated_names() {
    assert_eq!(internal_ident("a"), format!("{}_a", INTERNAL_PREFIX));
    let raw = HexStructField::new(member("a"), None, hex("00"), None).unwrap();
    assert_eq!(raw.buffer_ident(), format!("{}_BUFFER", INTERNAL_PREFIX));
    assert_eq!(raw.member().internal_ident(), Some(format!("{}_a", INTERNAL_PREFIX)));
    assert_eq!(HexIdent::Underscore.internal_ident(), None);
    let bound = HexStructField::new(member("b"), Some("buf".to_string()), hex("00"), Some("x".to_string())).unwrap();
    assert_eq!(bound.buffer_ident(), "buf");
    assert_eq!(bound.expr().as_deref(), Some("x"));
}

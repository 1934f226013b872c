use lean_helix_view::json::{parse_json, parse_position, parse_range, Json, Number};
use lean_helix_view::wire::{Position, Range};

#[test]
fn values_are_parsed_into_trees() {
    let body = "{\"b\":[null,true,1,-2,1.5,\"\u{22a2}\"],\"a\":{}}";
    let value = parse_json(body.as_bytes()).unwrap();
    let items = value.get("b").unwrap().as_array().unwrap();
    assert_eq!(items.len(), 6);
    assert!(items[0].is_null());
    assert!(matches!(items[1], Json::Bool(true)));
    assert!(matches!(items[2], Json::Number(Number::PosInt(1))));
    assert!(matches!(items[3], Json::Number(Number::NegInt(-2))));
    assert!(matches!(items[4], Json::Number(Number::Float)));
    assert_eq!(items[5].as_str(), Some("\u{22a2}"));
    assert!(matches!(value.get("a"), Some(Json::Object(entries)) if entries.is_empty()));
    assert!(value.get("c").is_none());
    assert!(value.get("b").unwrap().get("b").is_none());
    assert!(parse_json(b"{} {}").is_none());
    assert!(parse_json(b"").is_none());
}

#[test]
fn numbers_are_what_they_fit() {
    let number = |body: &[u8]| parse_json(body).unwrap();
    assert_eq!(number(b"18446744073709551615").as_u64(), Some(u64::MAX));
    assert_eq!(number(b"18446744073709551615").as_i64(), None);
    assert_eq!(number(b"-9223372036854775808").as_i64(), Some(i64::MIN));
    assert_eq!(number(b"-1").as_u64(), None);
    assert_eq!(number(b"18446744073709551616").as_u64(), None);
    assert_eq!(number(b"1.0").as_u64(), None);
    assert_eq!(number(b"\"1\"").as_u64(), None);
}

#[test]
fn a_key_that_occurs_twice_has_its_last_value() {
    let value = parse_json(br#"{"a":1,"a":2}"#).unwrap();
    assert_eq!(value.get("a").unwrap().as_u64(), Some(2));
}

#[test]
fn positions_and_ranges() {
    let position = |body: &[u8]| parse_position(&parse_json(body).unwrap());
    assert_eq!(
        position(br#"{"line":4,"character":2}"#),
        Some(Position { line: 4, character: 2 })
    );
    // Beyond 32 bits the low ones are kept.
    assert_eq!(
        position(br#"{"line":4294967297,"character":4294967295}"#),
        Some(Position { line: 1, character: u32::MAX })
    );
    assert_eq!(position(br#"{"line":4}"#), None);
    assert_eq!(position(br#"{"line":-4,"character":2}"#), None);
    assert_eq!(position(b"7"), None);
    let range = parse_json(
        br#"{"start":{"line":1,"character":0},"end":{"line":1,"character":3}}"#,
    )
    .unwrap();
    assert_eq!(
        parse_range(&range),
        Some(Range {
            start: Position { line: 1, character: 0 },
            end: Position { line: 1, character: 3 },
        })
    );
    assert_eq!(parse_range(&parse_json(br#"{"start":{}}"#).unwrap()), None);
}

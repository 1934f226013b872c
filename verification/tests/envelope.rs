use lean_helix_view::envelope::{Envelope, Id};
use lean_helix_view::json::{Json, Number};

#[test]
fn classifies_the_three_shapes() {
    let notif =
        Envelope::parse(br#"{"jsonrpc":"2.0","method":"textDocument/didChange"}"#).unwrap();
    assert!(notif.is_notification());
    assert!(!notif.is_request() && !notif.is_response());

    let req =
        Envelope::parse(br#"{"jsonrpc":"2.0","id":7,"method":"window/showMessage"}"#).unwrap();
    assert!(req.is_request());
    assert_eq!(req.id, Some(Id::Num(7)));

    let resp = Envelope::parse(br#"{"jsonrpc":"2.0","id":"lhv-3","result":{}}"#).unwrap();
    assert!(resp.is_response());
    assert!(resp.has_result);
    assert_eq!(resp.id, Some(Id::Str("lhv-3".into())));
}

#[test]
fn non_json_is_none() {
    assert!(Envelope::parse(b"not json").is_none());
    assert!(Envelope::parse(b"[1,2,3]").is_none()); // array, not an object
}

#[test]
fn null_id_is_no_id() {
    let e = Envelope::parse(br#"{"jsonrpc":"2.0","id":null,"method":"x"}"#).unwrap();
    assert!(e.is_notification());
}

#[test]
fn ids_beyond_i64_are_no_ids() {
    let id = |body: &[u8]| Envelope::parse(body).unwrap().id;
    assert_eq!(id(br#"{"id":-3}"#), Some(Id::Num(-3)));
    assert_eq!(id(br#"{"id":9223372036854775807}"#), Some(Id::Num(i64::MAX)));
    assert_eq!(id(br#"{"id":9223372036854775808}"#), None);
    assert_eq!(id(br#"{"id":1.5}"#), None);
    assert_eq!(id(br#"{"id":true}"#), None);
    assert_eq!(id(b"{}"), None);
}

#[test]
fn result_and_error_count_by_presence() {
    let e = Envelope::parse(br#"{"id":1,"error":null}"#).unwrap();
    assert!(e.has_error && !e.has_result);
    assert!(e.is_response());
    let e = Envelope::parse(br#"{"id":1,"result":null}"#).unwrap();
    assert!(e.has_result && !e.has_error);
    let e = Envelope::parse(br#"{"id":1,"method":7}"#).unwrap();
    assert_eq!(e.method, None);
    assert!(e.is_response());
}

#[test]
fn envelope_of_a_value() {
    let value = Json::Object(vec![
        ("id".to_string(), Json::Number(Number::PosInt(4))),
        ("method".to_string(), Json::Str("m".to_string())),
    ]);
    let e = Envelope::of_json(&value).unwrap();
    assert_eq!(
        e,
        Envelope {
            id: Some(Id::Num(4)),
            method: Some("m".to_string()),
            has_result: false,
            has_error: false,
        }
    );
    assert!(Envelope::of_json(&Json::Array(vec![])).is_none());
}

use lean_helix_view::codec::Frame;
use lean_helix_view::debounce::DEFAULT_DEBOUNCE_MS;
use lean_helix_view::query::{InjectedIds, Querier};
use lean_helix_view::snoop::SnoopConfig;
use lean_helix_view::tracker::Tracker;
use lean_helix_view::wire::Position;
use tokio::sync::mpsc;

const HOVER: &[u8] = br#"{"id":1,"method":"textDocument/hover","params":{"textDocument":{"uri":"u"},"position":{"line":4,"character":2}}}"#;
const COMPLETION: &[u8] = br#"{"id":2,"method":"textDocument/completion","params":{"textDocument":{"uri":"u"},"position":{"line":5,"character":0}}}"#;

fn opened() -> Tracker {
    let mut tracker = Tracker::new(SnoopConfig::new(&vec![]), DEFAULT_DEBOUNCE_MS);
    for body in [
        r#"{"method":"initialized","params":{}}"#,
        r#"{"method":"textDocument/didOpen","params":{"textDocument":{"uri":"u","version":3}}}"#,
    ] {
        let record = tracker.message(body.as_bytes(), 0, 0);
        assert!(!record.would_focus);
    }
    tracker
}

/// A request in an open document, then silence, ends in both queries for it.
#[test]
fn a_resting_cursor_is_asked_about() {
    let mut tracker = opened();
    let (tx, mut rx) = mpsc::channel(8);
    let mut querier = Querier::new(tx);
    let mut injected = InjectedIds::new();
    assert_eq!(tracker.due(), None);
    assert!(tracker.message(HOVER, 1000, 77).would_focus);
    assert!(tracker.message(COMPLETION, 1050, 78).would_focus);
    // Neither of these moves the focus.
    tracker.message(br#"{"method":"textDocument/didSave","params":{"textDocument":{"uri":"u"}}}"#, 1100, 79);
    tracker.message(b"not json", 1101, 80);
    assert_eq!(tracker.due(), Some(1170));
    assert!(tracker.fire(1169, &mut querier, &mut injected).is_empty());
    assert!(rx.try_recv().is_err());
    let ids = tracker.fire(1170, &mut querier, &mut injected);
    assert_eq!(ids, ["lhv-q0", "lhv-q1"]);
    for id in &ids {
        let pending = injected.get(id).unwrap();
        assert_eq!(pending.doc.uri, "u");
        assert_eq!(pending.doc.version, 3);
        assert_eq!(pending.position, Position { line: 5, character: 0 });
    }
    let frame: Frame = rx.try_recv().unwrap();
    assert!(String::from_utf8_lossy(frame.body()).contains("$/lean/plainGoal"));
    let frame: Frame = rx.try_recv().unwrap();
    assert!(String::from_utf8_lossy(frame.body()).contains("$/lean/plainTermGoal"));
    assert!(tracker.fire(9999, &mut querier, &mut injected).is_empty());
    assert_eq!(tracker.due(), None);
}

#[test]
fn a_message_that_does_not_parse_is_still_recorded() {
    let mut tracker = opened();
    let record = tracker.message(b"not json", 5, 42);
    assert_eq!(record.ts_unix_ms, 42);
    assert_eq!(record.method, None);
    assert!(!record.has_position && !record.is_trigger && !record.would_focus);
    let record = tracker.message(HOVER, 6, 43);
    assert_eq!(record.line, Some(4));
    assert!(record.is_trigger && record.would_focus);
    assert!(tracker.note(None, 7, 44).method.is_none());
    assert_eq!(tracker.tick(126).unwrap().position.line, 4);
    assert!(tracker.tick(127).is_none());
}

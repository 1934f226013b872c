use lean_helix_view::debounce::{Debouncer, DEFAULT_DEBOUNCE_MS};
use lean_helix_view::json::parse_json;
use lean_helix_view::session::{Focus, Session};
use lean_helix_view::snoop::{default_triggers, observe_json, Snoop, SnoopConfig};
use lean_helix_view::wire::{DocRef, Position};

#[test]
fn extracts_position_from_hover() {
    let body = br#"{"jsonrpc":"2.0","id":1,"method":"textDocument/hover","params":{"textDocument":{"uri":"file:///A.lean"},"position":{"line":4,"character":2}}}"#;
    let observed = Snoop.observe(body).unwrap();
    assert_eq!(observed.uri, "file:///A.lean");
    assert_eq!(
        observed.position,
        Position {
            line: 4,
            character: 2
        }
    );
}

#[test]
fn ignores_non_positional_and_garbage() {
    assert!(Snoop.observe(br#"{"method":"textDocument/didChange","params":{}}"#).is_none());
    assert!(Snoop.observe(br#"{"method":"initialize"}"#).is_none());
    assert!(Snoop.observe(b"not json").is_none());
}

#[test]
fn the_default_triggers_are_six() {
    assert_eq!(
        default_triggers(),
        [
            "textDocument/hover",
            "textDocument/completion",
            "textDocument/definition",
            "textDocument/references",
            "textDocument/documentHighlight",
            "textDocument/signatureHelp",
        ]
    );
    for method in default_triggers() {
        let body = format!(
            "{{\"method\":\"{method}\",\"params\":{{\"textDocument\":{{\"uri\":\"u\"}},\"position\":{{\"line\":1,\"character\":0}}}}}}"
        );
        assert_eq!(Snoop.observe(body.as_bytes()).unwrap().uri, "u");
    }
}

#[test]
fn bare_triggers_are_prefixed() {
    assert_eq!(SnoopConfig::new(&vec![]).triggers, default_triggers());
    let config = SnoopConfig::new(&vec![
        "documentHighlight".to_string(),
        "$/lean/plainGoal".to_string(),
    ]);
    assert_eq!(
        config.triggers,
        ["textDocument/documentHighlight", "$/lean/plainGoal"]
    );
    assert!(config.is_trigger("$/lean/plainGoal"));
    assert!(!config.is_trigger("textDocument/hover"));
    let hover = parse_json(
        br#"{"method":"textDocument/hover","params":{"textDocument":{"uri":"u"},"position":{"line":1,"character":0}}}"#,
    )
    .unwrap();
    assert!(observe_json(&hover, &config).is_none());
    assert!(observe_json(&hover, &SnoopConfig::new(&vec![])).is_some());
}

fn open(session: &mut Session) {
    for body in [
        r#"{"id":0,"method":"initialize","params":{}}"#,
        r#"{"method":"initialized","params":{}}"#,
        r#"{"method":"textDocument/didOpen","params":{"textDocument":{"uri":"u","version":1,"text":""}}}"#,
    ] {
        session.note(&parse_json(body.as_bytes()).unwrap());
    }
}

const HOVER: &[u8] = br#"{"id":1,"method":"textDocument/hover","params":{"textDocument":{"uri":"u"},"position":{"line":4,"character":2}}}"#;

#[test]
fn a_focus_needs_an_open_document() {
    let config = SnoopConfig::new(&vec![]);
    let hover = parse_json(HOVER).unwrap();
    let mut session = Session::new();
    assert!(session.focus(&hover, &config).is_none());
    open(&mut session);
    let focus = session.focus(&hover, &config).unwrap();
    assert_eq!(focus.doc, DocRef { uri: "u".into(), version: 1 });
    assert_eq!(focus.position, Position { line: 4, character: 2 });
    session.note(
        &parse_json(
            br#"{"method":"textDocument/didClose","params":{"textDocument":{"uri":"u"}}}"#,
        )
        .unwrap(),
    );
    assert!(session.focus(&hover, &config).is_none());

    // A document that is open in a session that is not initialized is no focus.
    let mut early = Session::default();
    early.note(
        &parse_json(
            br#"{"method":"textDocument/didOpen","params":{"textDocument":{"uri":"u","version":1}}}"#,
        )
        .unwrap(),
    );
    assert!(early.focus(&hover, &config).is_none());
}

#[test]
fn edits_bump_the_version_and_are_the_fallback_focus() {
    let config = SnoopConfig::new(&vec![]);
    let mut session = Session::new();
    open(&mut session);
    let edit = parse_json(
        br#"{"method":"textDocument/didChange","params":{"textDocument":{"uri":"u","version":7},"contentChanges":[{"range":{"start":{"line":0,"character":0},"end":{"line":0,"character":0}},"text":"a"},{"range":{"start":{"line":3,"character":5},"end":{"line":3,"character":6}},"text":""}]}}"#,
    )
    .unwrap();
    session.note(&edit);
    let focus = session.focus(&edit, &config).unwrap();
    assert_eq!(focus.doc.version, 7);
    assert_eq!(focus.position, Position { line: 3, character: 5 });
    let whole = parse_json(
        br#"{"method":"textDocument/didChange","params":{"textDocument":{"uri":"u","version":8},"contentChanges":[{"text":"all of it"}]}}"#,
    )
    .unwrap();
    session.note(&whole);
    assert!(session.focus(&whole, &config).is_none());
    assert_eq!(session.focus(&parse_json(HOVER).unwrap(), &config).unwrap().doc.version, 8);
    // A change to a document that is not open opens nothing.
    session.note(
        &parse_json(
            br#"{"method":"textDocument/didChange","params":{"textDocument":{"uri":"v","version":8},"contentChanges":[]}}"#,
        )
        .unwrap(),
    );
    assert!(session.open.get("v").is_none());
}

#[test]
fn a_capture_says_what_a_message_was() {
    let config = SnoopConfig::new(&vec![]);
    let mut session = Session::new();
    open(&mut session);
    let record = session.capture(&parse_json(HOVER).unwrap(), &config, 1780427190820);
    assert_eq!(record.ts_unix_ms, 1780427190820);
    assert_eq!(record.method.as_deref(), Some("textDocument/hover"));
    assert!(record.has_position);
    assert_eq!(record.uri.as_deref(), Some("u"));
    assert_eq!(record.line, Some(4));
    assert_eq!(record.character, Some(2));
    assert_eq!(record.version, None);
    assert!(record.is_trigger);
    assert!(record.would_focus);

    let save = parse_json(
        br#"{"method":"textDocument/didSave","params":{"textDocument":{"uri":"u","version":2}}}"#,
    )
    .unwrap();
    let record = session.capture(&save, &config, 5);
    assert!(!record.has_position && !record.is_trigger && !record.would_focus);
    assert_eq!(record.line, None);
    assert_eq!(record.version, Some(2));
    let record = session.capture(&parse_json(b"{}").unwrap(), &config, 5);
    assert_eq!(record.method, None);
    assert_eq!(record.uri, None);
}

fn focus_at(line: u32) -> Focus {
    Focus {
        doc: DocRef { uri: "u".into(), version: 1 },
        position: Position { line, character: 0 },
    }
}

#[test]
fn a_burst_fires_its_last_focus_once() {
    let mut debouncer = Debouncer::new(DEFAULT_DEBOUNCE_MS);
    assert_eq!(debouncer.due(), None);
    debouncer.focus(focus_at(1), 1000);
    assert_eq!(debouncer.due(), Some(1120));
    debouncer.focus(focus_at(2), 1100);
    assert_eq!(debouncer.due(), Some(1220));
    assert!(debouncer.poll(1219).is_none());
    let fired = debouncer.poll(1220).unwrap();
    assert_eq!(fired.position.line, 2);
    assert!(debouncer.poll(9999).is_none());
    assert_eq!(debouncer.due(), None);
}

#[test]
fn a_focus_is_due_by_the_end_of_time() {
    let mut debouncer = Debouncer::new(u64::MAX);
    debouncer.focus(focus_at(1), 5);
    assert_eq!(debouncer.due(), Some(u64::MAX));
    assert!(debouncer.poll(u64::MAX).is_some());
}

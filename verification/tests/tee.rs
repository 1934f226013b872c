use lean_helix_view::json::parse_json;
use lean_helix_view::state::StateHandle;
use lean_helix_view::tee::{apply_diagnostics, apply_progress, fold_diagnostics, parse_diagnostic};
use lean_helix_view::wire::{Position, Range, Severity, Snapshot};

#[test]
fn diagnostics_land_keyed_by_uri() {
    let mut state = StateHandle::new();
    apply_diagnostics(
        &mut state,
        br#"{"method":"textDocument/publishDiagnostics","params":{"uri":"file:///A.lean","diagnostics":[{"range":{"start":{"line":1,"character":0},"end":{"line":1,"character":3}},"severity":2,"message":"warn","source":"lean"}]}}"#,
    );
    let snap = state.snapshot();
    let diags = snap.diagnostics.get("file:///A.lean").unwrap();
    assert_eq!(diags.len(), 1);
    assert_eq!(diags[0].severity, Severity::Warning);
    assert_eq!(diags[0].message, "warn");
    assert_eq!(diags[0].source.as_deref(), Some("lean"));
}

#[test]
fn progress_sets_then_clears_elaborating() {
    let mut state = StateHandle::new();
    apply_progress(
        &mut state,
        br#"{"method":"$/lean/fileProgress","params":{"textDocument":{"uri":"file:///A.lean"},"processing":[{"range":{"start":{"line":0,"character":0},"end":{"line":2,"character":0}}}]}}"#,
    );
    assert!(state.snapshot().elaborating);
    apply_progress(
        &mut state,
        br#"{"method":"$/lean/fileProgress","params":{"textDocument":{"uri":"file:///A.lean"},"processing":[]}}"#,
    );
    let snap = state.snapshot();
    assert!(!snap.elaborating);
    assert!(snap.progress.is_empty());
}

#[test]
fn progress_keeps_the_ranges_that_parse() {
    let mut state = StateHandle::new();
    apply_progress(
        &mut state,
        br#"{"params":{"processing":[{"range":{"start":{"line":0,"character":0},"end":{"line":2,"character":5}}},{"range":7},{}]}}"#,
    );
    assert_eq!(
        state.snapshot().progress,
        vec![Range {
            start: Position { line: 0, character: 0 },
            end: Position { line: 2, character: 5 },
        }]
    );
    // Without `processing` there is nothing left to elaborate.
    apply_progress(&mut state, br#"{"params":{}}"#);
    assert!(!state.snapshot().elaborating);
    assert_eq!(state.snapshot().seq, 2);
}

#[test]
fn unusable_messages_change_nothing() {
    let mut state = StateHandle::new();
    apply_diagnostics(&mut state, b"not json");
    apply_diagnostics(&mut state, b"{}");
    apply_diagnostics(&mut state, br#"{"params":{"diagnostics":[]}}"#);
    apply_diagnostics(&mut state, br#"{"params":{"uri":7}}"#);
    apply_progress(&mut state, b"not json");
    apply_progress(&mut state, b"{}");
    assert_eq!(state.snapshot(), Snapshot::default());
}

#[test]
fn diagnostics_touch_their_document_only() {
    let mut state = StateHandle::new();
    let a = br#"{"params":{"uri":"a","diagnostics":[{"range":{"start":{"line":1,"character":0},"end":{"line":1,"character":3}},"message":"m"}]}}"#;
    let b = br#"{"params":{"uri":"b","diagnostics":[]}}"#;
    apply_diagnostics(&mut state, a);
    let before = state.snapshot();
    apply_diagnostics(&mut state, b);
    let after = state.snapshot();
    assert_eq!(after.diagnostics.get("a"), before.diagnostics.get("a"));
    assert_eq!(after.diagnostics.get("b"), Some(&vec![]));
    assert_eq!(after.diagnostics.len(), 2);
    assert_eq!(after.seq, 2);
    // Folding the same message once more changes the counter only.
    apply_diagnostics(&mut state, b);
    let mut again = state.snapshot();
    again.seq = after.seq;
    assert_eq!(again, after);
}

#[test]
fn diagnostic_needs_range_and_message() {
    let parse = |body: &[u8]| parse_diagnostic(&parse_json(body).unwrap());
    let full = parse(br#"{"range":{"start":{"line":1,"character":0},"end":{"line":1,"character":3}},"message":"m"}"#).unwrap();
    assert_eq!(full.severity, Severity::Error);
    assert_eq!(full.source, None);
    assert!(parse(br#"{"message":"m"}"#).is_none());
    assert!(parse(br#"{"range":{"start":{"line":1,"character":0},"end":{"line":1,"character":3}}}"#).is_none());
}

#[test]
fn fold_takes_a_parsed_message() {
    let mut state = StateHandle::new();
    let value = parse_json(br#"{"params":{"uri":"u"}}"#).unwrap();
    fold_diagnostics(&mut state, &value);
    assert_eq!(state.snapshot().diagnostics.get("u"), Some(&vec![]));
}

use lean_helix_view::codec::Frame;
use lean_helix_view::envelope::{Envelope, Id};
use lean_helix_view::json::{parse_json, Json};
use lean_helix_view::query::{
    fold_response, handle_injected_response, settle, InjectedIds, Pending, Querier, QueryKind,
    INJECT_PREFIX,
};
use lean_helix_view::state::StateHandle;
use lean_helix_view::wire::{DocRef, Position, Snapshot};
use tokio::sync::mpsc;

fn doc() -> DocRef {
    DocRef {
        uri: "file:///A.lean".into(),
        version: 1,
    }
}

fn pending(kind: QueryKind) -> Pending {
    Pending {
        kind,
        doc: doc(),
        position: Position {
            line: 0,
            character: 0,
        },
    }
}

#[test]
fn request_registers_two_ids_and_enqueues_two_frames() {
    let (tx, mut rx) = mpsc::channel(8);
    let mut injected = InjectedIds::new();
    let mut q = Querier::new(tx);

    let ids = q.request(&mut injected, doc(), Position { line: 2, character: 3 });
    assert_eq!(ids.len(), 2);
    assert!(ids.iter().all(|i| i.starts_with(INJECT_PREFIX)));
    assert_eq!(injected.len(), 2);

    let f1: Frame = rx.try_recv().unwrap();
    let f2: Frame = rx.try_recv().unwrap();
    let bodies = format!(
        "{}{}",
        String::from_utf8_lossy(f1.body()),
        String::from_utf8_lossy(f2.body())
    );
    assert!(bodies.contains("$/lean/plainGoal"));
    assert!(bodies.contains("$/lean/plainTermGoal"));
}

#[test]
fn request_bodies_are_exact() {
    let (tx, mut rx) = mpsc::channel(8);
    let mut injected = InjectedIds::new();
    let mut q = Querier::new(tx);
    let ids = q.request(&mut injected, doc(), Position { line: 2, character: 3 });
    assert_eq!(ids, vec!["lhv-q0".to_string(), "lhv-q1".to_string()]);
    let frame: Frame = rx.try_recv().unwrap();
    assert_eq!(
        String::from_utf8_lossy(frame.body()),
        r#"{"id":"lhv-q0","jsonrpc":"2.0","method":"$/lean/plainGoal","params":{"position":{"character":3,"line":2},"textDocument":{"uri":"file:///A.lean"}}}"#
    );
    let env = Envelope::parse(frame.body()).unwrap();
    assert!(env.is_request());
    assert_eq!(env.id, Some(Id::Str("lhv-q0".into())));
    let goal = injected.get("lhv-q0").unwrap();
    assert_eq!(goal.kind, QueryKind::PlainGoal);
    assert_eq!(goal.doc, doc());
    assert_eq!(goal.position, Position { line: 2, character: 3 });
    assert_eq!(injected.get("lhv-q1").unwrap().kind, QueryKind::PlainTermGoal);
    // The next request takes the next two numbers.
    let ids = q.request(&mut injected, doc(), Position { line: 0, character: 0 });
    assert_eq!(ids, vec!["lhv-q2".to_string(), "lhv-q3".to_string()]);
    assert_eq!(injected.len(), 4);
}

#[test]
fn uris_are_escaped_and_read_back() {
    let (tx, mut rx) = mpsc::channel(8);
    let mut injected = InjectedIds::new();
    let mut q = Querier::new(tx);
    let uri = "file:///a\"b\\c/\u{22a2}\n.lean";
    let doc = DocRef { uri: uri.into(), version: 3 };
    q.request(&mut injected, doc, Position { line: u32::MAX, character: 0 });
    let frame: Frame = rx.try_recv().unwrap();
    let value = parse_json(frame.body()).unwrap();
    let params = value.get("params").unwrap();
    assert_eq!(params.get("textDocument").unwrap().get("uri").unwrap().as_str(), Some(uri));
    assert_eq!(
        params.get("position").unwrap().get("line").unwrap().as_u64(),
        Some(u32::MAX as u64)
    );
}

#[test]
fn a_full_channel_drops_the_query() {
    let (tx, mut rx) = mpsc::channel(1);
    let mut injected = InjectedIds::new();
    let mut q = Querier::new(tx);
    let ids = q.request(&mut injected, doc(), Position { line: 0, character: 0 });
    assert_eq!(ids, vec!["lhv-q0".to_string()]);
    assert_eq!(injected.len(), 1);
    assert!(injected.get("lhv-q1").is_none());
    let _: Frame = rx.try_recv().unwrap();
    assert!(rx.try_recv().is_err());

    drop(rx);
    let ids = q.request(&mut injected, doc(), Position { line: 0, character: 0 });
    assert!(ids.is_empty());
    assert_eq!(injected.len(), 1);
}

#[test]
fn settle_reports_or_forgets() {
    let mut injected = InjectedIds::new();
    injected.insert("x".into(), pending(QueryKind::PlainGoal));
    let mut ids = Vec::new();
    settle(&mut injected, &mut ids, "x".into(), true);
    assert_eq!(ids, vec!["x".to_string()]);
    assert_eq!(injected.len(), 1);
    settle(&mut injected, &mut ids, "x".into(), false);
    assert_eq!(ids.len(), 1);
    assert_eq!(injected.len(), 0);
}

#[test]
fn plaingoal_response_populates_state() {
    let mut state = StateHandle::new();
    handle_injected_response(
        &mut state,
        Pending {
            kind: QueryKind::PlainGoal,
            doc: doc(),
            position: Position {
                line: 0,
                character: 0,
            },
        },
        r#"{"jsonrpc":"2.0","id":"lhv-q0","result":{"goals":["⊢ True"],"rendered":"r"}}"#
            .as_bytes(),
    );
    let s = state.snapshot();
    assert_eq!(s.goals, vec!["⊢ True".to_string()]);
    assert!(s.in_tactic);
    assert_eq!(s.rendered.as_deref(), Some("r"));
}

#[test]
fn null_plaingoal_is_not_in_tactic() {
    let mut state = StateHandle::new();
    handle_injected_response(
        &mut state,
        Pending {
            kind: QueryKind::PlainGoal,
            doc: doc(),
            position: Position {
                line: 0,
                character: 0,
            },
        },
        br#"{"jsonrpc":"2.0","id":"lhv-q0","result":null}"#,
    );
    let s = state.snapshot();
    assert!(!s.in_tactic);
    assert!(s.goals.is_empty());
}

#[test]
fn term_goal_response_fills_its_part() {
    let mut state = StateHandle::new();
    let goal = parse_json(br#"{"result":{"goals":["a",7,"b"]}}"#).unwrap();
    let term = parse_json(br#"{"result":{"goal":"Nat"}}"#).unwrap();
    fold_response(&mut state, pending(QueryKind::PlainGoal), &goal);
    fold_response(&mut state, pending(QueryKind::PlainTermGoal), &term);
    let s = state.snapshot();
    assert_eq!(s.doc, Some(doc()));
    assert_eq!(s.goals, vec!["a".to_string(), "b".to_string()]);
    assert_eq!(s.rendered, None);
    assert_eq!(s.term_goal.as_deref(), Some("Nat"));
    assert_eq!(s.seq, 2);

    // In the other order the same state comes about.
    let mut other = StateHandle::new();
    fold_response(&mut other, pending(QueryKind::PlainTermGoal), &term);
    fold_response(&mut other, pending(QueryKind::PlainGoal), &goal);
    assert_eq!(other.snapshot(), s);
}

#[test]
fn error_responses_clear_and_garbage_is_ignored() {
    let mut state = StateHandle::new();
    handle_injected_response(&mut state, pending(QueryKind::PlainGoal), b"not json");
    assert_eq!(state.snapshot(), Snapshot::default());
    fold_response(
        &mut state,
        pending(QueryKind::PlainGoal),
        &parse_json(br#"{"result":{"goals":["a"]}}"#).unwrap(),
    );
    fold_response(&mut state, pending(QueryKind::PlainGoal), &Json::Object(vec![]));
    let s = state.snapshot();
    assert!(!s.in_tactic);
    assert!(s.goals.is_empty());
    assert_eq!(s.seq, 2);
}

/// A result that is neither null nor an object is ignored.
#[test]
fn unexpected_results_are_ignored() {
    let mut state = StateHandle::new();
    for body in [
        r#"{"jsonrpc":"2.0","id":"lhv-q0","result":5}"#,
        r#"{"result":"text"}"#,
        r#"{"result":["a"]}"#,
        r#"{"result":true}"#,
    ] {
        handle_injected_response(&mut state, pending(QueryKind::PlainGoal), body.as_bytes());
        assert_eq!(state.snapshot(), Snapshot::default());
        handle_injected_response(&mut state, pending(QueryKind::PlainTermGoal), body.as_bytes());
        assert_eq!(state.snapshot(), Snapshot::default());
    }
    let term = br#"{"result":{"goal":"Nat"}}"#;
    handle_injected_response(&mut state, pending(QueryKind::PlainTermGoal), term);
    let before = state.snapshot();
    handle_injected_response(&mut state, pending(QueryKind::PlainTermGoal), br#"{"result":5}"#);
    assert_eq!(state.snapshot(), before);
    // An error has no result: there is nothing to show.
    let error = br#"{"id":"lhv-q1","error":{"code":-32801,"message":"content modified"}}"#;
    handle_injected_response(&mut state, pending(QueryKind::PlainTermGoal), error);
    assert_eq!(state.snapshot().term_goal, None);
    assert_eq!(state.snapshot().seq, 2);
}

/// Over a run of requests no id is returned twice, and the ids outstanding are
/// those returned, whatever the channel took.
#[test]
fn requests_register_what_they_return() {
    let (tx, mut rx) = mpsc::channel(3);
    let mut injected = InjectedIds::new();
    injected.insert("other".into(), pending(QueryKind::PlainGoal));
    let mut q = Querier::new(tx);
    let mut returned: Vec<String> = Vec::new();
    for line in 0..4 {
        let ids = q.request(&mut injected, doc(), Position { line, character: 0 });
        for id in &ids {
            assert_eq!(injected.get(id).unwrap().position.line, line);
        }
        returned.extend(ids);
    }
    assert_eq!(returned, ["lhv-q0", "lhv-q1", "lhv-q2"]);
    let mut sent: Vec<String> = Vec::new();
    while let Ok(frame) = rx.try_recv() {
        match Envelope::parse(Frame::body(&frame)).unwrap().id {
            Some(Id::Str(id)) => sent.push(id),
            id => panic!("{id:?}"),
        }
    }
    assert_eq!(sent, returned);
    assert_eq!(injected.len(), 4);
    assert_eq!(injected.get("other").unwrap().position.line, 0);
    let ids = q.request(&mut injected, doc(), Position { line: 9, character: 0 });
    assert_eq!(ids, ["lhv-q8", "lhv-q9"]);
}

use lean_helix_view::codec::{read_frame, write_frame, ByteReader, Frame, FrameError};
use lean_helix_view::envelope::{Envelope, Id};
use lean_helix_view::forward::{
    client_step, pump_c2s, pump_s2c, route, server_step, ClientStep, Route, ServerStep, TeeKind,
};
use lean_helix_view::query::{InjectedIds, Pending, Querier, QueryKind};
use lean_helix_view::state::StateHandle;
use lean_helix_view::wire::{DocRef, Position, Snapshot};
use tokio::sync::mpsc;

fn contains(haystack: &[u8], needle: &[u8]) -> bool {
    haystack.windows(needle.len()).any(|w| w == needle)
}

fn pending() -> Pending {
    Pending {
        kind: QueryKind::PlainGoal,
        doc: DocRef {
            uri: "file:///A.lean".into(),
            version: 1,
        },
        position: Position {
            line: 0,
            character: 0,
        },
    }
}

/// The client→server pump over bytes in memory.
fn pump_client(input: &[u8]) -> Vec<u8> {
    let mut reader = ByteReader::new(input);
    let mut sink = Vec::new();
    let copies = pump_c2s(&mut reader, &mut sink);
    let mut written = ByteReader::new(&sink);
    for copy in copies {
        assert_eq!(read_frame(&mut written).unwrap().unwrap().body(), &copy[..]);
    }
    sink
}

/// The server→client pump over bytes in memory.
fn pump_server(input: &[u8], injected: &mut InjectedIds, state: &mut StateHandle) -> Vec<u8> {
    let mut reader = ByteReader::new(input);
    let mut sink = Vec::new();
    pump_s2c(&mut reader, &mut sink, injected, state);
    sink
}

/// Every client byte reaches the server verbatim, every server byte reaches
/// the client verbatim, except a response to an id we injected, which is
/// consumed and never reaches Helix.
#[test]
fn transparent_passthrough_and_injected_consume() {
    let mut state = StateHandle::new();
    let mut injected_ids = InjectedIds::new();

    // Pre-register an injected id, as if the querier had sent a plainGoal.
    injected_ids.insert("lhv-q7".into(), pending());

    // ---- client -> server ----
    let mut client_bytes = Vec::new();
    client_bytes.extend_from_slice(
        Frame::from_body(br#"{"jsonrpc":"2.0","id":1,"method":"initialize","params":{}}"#)
            .as_bytes(),
    );
    client_bytes.extend_from_slice(
        Frame::from_body(br#"{"jsonrpc":"2.0","method":"textDocument/didOpen","params":{}}"#)
            .as_bytes(),
    );
    let got_on_lean = pump_client(&client_bytes);
    assert_eq!(
        got_on_lean, client_bytes,
        "client->server bytes must pass through verbatim"
    );

    // ---- server -> client (one injected response interleaved) ----
    let notif = Frame::from_body(
        br#"{"jsonrpc":"2.0","method":"textDocument/publishDiagnostics","params":{}}"#,
    );
    let response = Frame::from_body(br#"{"jsonrpc":"2.0","id":1,"result":{"ok":true}}"#);
    let injected = Frame::from_body(
        r#"{"jsonrpc":"2.0","id":"lhv-q7","result":{"goals":["⊢ True"],"rendered":"r"}}"#
            .as_bytes(),
    );

    let mut expected_on_helix = Vec::new();
    expected_on_helix.extend_from_slice(notif.as_bytes());
    expected_on_helix.extend_from_slice(response.as_bytes());

    let mut server_bytes = Vec::new();
    server_bytes.extend_from_slice(notif.as_bytes());
    server_bytes.extend_from_slice(injected.as_bytes()); // must be swallowed
    server_bytes.extend_from_slice(response.as_bytes());

    let got_on_helix = pump_server(&server_bytes, &mut injected_ids, &mut state);
    assert_eq!(
        got_on_helix, expected_on_helix,
        "server->client verbatim, minus the consumed injected response"
    );
    assert!(
        !contains(&got_on_helix, b"lhv-q7"),
        "no injected id may ever reach Helix"
    );

    // The consumed response drove the state path.
    let snap = state.snapshot();
    assert_eq!(snap.goals, vec!["⊢ True".to_string()]);
    assert!(snap.in_tactic);
}

#[test]
fn an_id_withholds_one_response_only() {
    let mut state = StateHandle::new();
    let mut injected = InjectedIds::new();
    injected.insert("lhv-q0".into(), pending());
    let answer = Frame::from_body(br#"{"id":"lhv-q0","result":null}"#);
    let mut input = Vec::new();
    input.extend_from_slice(answer.as_bytes());
    input.extend_from_slice(answer.as_bytes());
    let out = pump_server(&input, &mut injected, &mut state);
    assert_eq!(out, answer.as_bytes());
    assert_eq!(injected.len(), 0);
}

#[test]
fn foreign_frames_pass() {
    let mut state = StateHandle::new();
    let mut injected = InjectedIds::new();
    injected.insert("lhv-q0".into(), pending());
    let mut input = Vec::new();
    for body in [
        "not json",
        "[1]",
        r#"{"id":"lhv-q1","result":{}}"#,
        r#"{"id":"lhv-q0","method":"workspace/configuration"}"#,
        r#"{"id":0,"result":{}}"#,
        r#"{"method":"lhv-q0"}"#,
        r#"{"id":null,"result":{}}"#,
    ] {
        input.extend_from_slice(Frame::from_body(body.as_bytes()).as_bytes());
    }
    input.extend_from_slice(b"X-A: b\r\ncontent-length:2\r\n\r\n{}");
    let out = pump_server(&input, &mut injected, &mut state);
    assert_eq!(out, input);
    assert_eq!(injected.len(), 1);
    assert_eq!(state.snapshot(), Snapshot::default());
}

#[test]
fn copies_of_diagnostics_and_progress_are_folded() {
    let mut state = StateHandle::new();
    let mut injected = InjectedIds::new();
    let mut input = Vec::new();
    for body in [
        r#"{"method":"textDocument/publishDiagnostics","params":{"uri":"u","diagnostics":[]}}"#,
        r#"{"method":"$/lean/fileProgress","params":{"processing":[{"range":{"start":{"line":0,"character":0},"end":{"line":2,"character":0}}}]}}"#,
        r#"{"id":4,"method":"$/lean/fileProgress","params":{"processing":[]}}"#,
    ] {
        input.extend_from_slice(Frame::from_body(body.as_bytes()).as_bytes());
    }
    let out = pump_server(&input, &mut injected, &mut state);
    assert_eq!(out, input);
    let s = state.snapshot();
    assert_eq!(s.diagnostics.get("u"), Some(&vec![]));
    assert!(s.elaborating); // the last one is a request, not a notification
    assert_eq!(s.seq, 2);
}

#[test]
fn broken_streams_close() {
    let mut state = StateHandle::new();
    let mut injected = InjectedIds::new();
    assert!(matches!(client_step(Ok(None)), ClientStep::Close));
    assert!(matches!(client_step(Err(FrameError::BodyEof)), ClientStep::Close));
    assert!(matches!(
        server_step(Ok(None), &mut injected, &mut state),
        ServerStep::Close
    ));
    assert!(matches!(
        server_step(Err(FrameError::HeaderEof), &mut injected, &mut state),
        ServerStep::Close
    ));
    // What came before the break is still forwarded.
    let whole = Frame::from_body(b"{}");
    let mut input = whole.as_bytes().to_vec();
    input.extend_from_slice(b"Content-Length: 50\r\n\r\nonly a few bytes");
    assert_eq!(pump_client(&input), whole.as_bytes());
    // What follows a fault in a header is left unread.
    let mut reader = ByteReader::new(b"no colon\r\nrest\n");
    assert!(pump_c2s(&mut reader, &mut Vec::new()).is_empty());
    assert!(matches!(
        read_frame(&mut reader),
        Err(FrameError::MalformedHeader(line)) if line == "rest"
    ));
}

#[test]
fn route_goes_by_the_envelope() {
    let mut injected = InjectedIds::new();
    injected.insert("q".into(), pending());
    let envelope = |id: Option<Id>, method: Option<&str>| {
        Some(Envelope {
            id,
            method: method.map(str::to_owned),
            has_result: false,
            has_error: false,
        })
    };
    assert!(matches!(route(&None, &mut injected), Route::Forward(None)));
    assert!(matches!(
        route(&envelope(Some(Id::Str("q".into())), Some("m")), &mut injected),
        Route::Forward(None)
    ));
    assert!(matches!(
        route(&envelope(None, Some("textDocument/publishDiagnostics")), &mut injected),
        Route::Forward(Some(TeeKind::Diagnostics))
    ));
    assert!(matches!(
        route(&envelope(None, Some("$/lean/fileProgress")), &mut injected),
        Route::Forward(Some(TeeKind::Progress))
    ));
    assert!(matches!(
        route(&envelope(None, Some("window/logMessage")), &mut injected),
        Route::Forward(None)
    ));
    assert_eq!(injected.len(), 1);
    match route(&envelope(Some(Id::Str("q".into())), None), &mut injected) {
        Route::Consume(p) => assert_eq!(p.doc.uri, "file:///A.lean"),
        r => panic!("{r:?}"),
    }
    assert_eq!(injected.len(), 0);
    assert!(matches!(
        route(&envelope(Some(Id::Str("q".into())), None), &mut injected),
        Route::Forward(None)
    ));
}

/// Queries queued between the client's frames are read as frames of their own,
/// and their answers are kept from Helix.
#[test]
fn queries_leave_the_client_stream_intact() {
    let client = [
        Frame::from_body(b"{\"id\":1,\"method\":\"initialize\"}"),
        Frame::from_body(b"not json"),
    ];
    let (tx, mut rx) = mpsc::channel(8);
    let mut injected = InjectedIds::new();
    let mut querier = Querier::new(tx.clone());
    tx.try_send(client[0].clone()).unwrap();
    let ids = querier.request(
        &mut injected,
        DocRef { uri: "u".into(), version: 1 },
        Position { line: 1, character: 2 },
    );
    tx.try_send(client[1].clone()).unwrap();

    let mut lean_in = Vec::new();
    while let Ok(frame) = rx.try_recv() {
        write_frame(&mut lean_in, &frame);
    }
    let mut reader = ByteReader::new(&lean_in);
    let mut from_helix = Vec::new();
    let mut asked = Vec::new();
    while let Some(frame) = read_frame(&mut reader).unwrap() {
        match Envelope::parse(frame.body()) {
            Some(Envelope { id: Some(Id::Str(id)), .. }) => asked.push(id),
            _ => from_helix.push(frame),
        }
    }
    assert_eq!(from_helix, client);
    assert_eq!(asked, ids);

    let mut state = StateHandle::new();
    let mut answers = Vec::new();
    for id in &ids {
        let body = format!("{{\"id\":\"{id}\",\"result\":null}}");
        answers.extend_from_slice(Frame::from_body(body.as_bytes()).as_bytes());
    }
    assert!(pump_server(&answers, &mut injected, &mut state).is_empty());
    assert_eq!(injected.len(), 0);
    assert_eq!(state.snapshot().seq, 2);
}

/// The elaborating flag is right in every state that a stream leads to.
#[test]
fn elaborating_is_always_gated() {
    let mut state = StateHandle::new();
    let mut injected = InjectedIds::new();
    injected.insert("q".into(), pending());
    for body in [
        r#"{"method":"$/lean/fileProgress","params":{"processing":[{"range":{"start":{"line":0,"character":0},"end":{"line":2,"character":0}}}]}}"#,
        r#"{"id":"q","result":{"goals":[]}}"#,
        r#"{"method":"textDocument/publishDiagnostics","params":{"uri":"u"}}"#,
        r#"{"method":"$/lean/fileProgress","params":{"processing":[{}]}}"#,
    ] {
        let frame = Frame::from_body(body.as_bytes());
        assert_eq!(
            pump_server(frame.as_bytes(), &mut injected, &mut state).is_empty(),
            body.contains("goals")
        );
        let s = state.snapshot();
        assert_eq!(s.elaborating, !s.progress.is_empty(), "{body}");
    }
    assert_eq!(state.snapshot().seq, 4);
}

use lean_helix_view::query::{handle_injected_response, Pending, QueryKind};
use lean_helix_view::state::StateHandle;
use lean_helix_view::tee::{apply_diagnostics, apply_progress};
use lean_helix_view::wire::{DocRef, Position, Snapshot};

#[test]
fn update_bumps_seq_and_persists_for_late_subscribers() {
    let mut state = StateHandle::new();
    state.update(|s: &mut Snapshot| s.goals = vec!["⊢ A".into()]);
    state.update(|s: &mut Snapshot| s.term_goal = Some("A".into()));
    // A subscriber that arrives *after* the updates still sees the latest.
    let rx = state.subscribe();
    let snap = rx.borrow().clone();
    assert_eq!(snap.goals, vec!["⊢ A".to_string()]);
    assert_eq!(snap.term_goal.as_deref(), Some("A"));
    assert_eq!(snap.seq, 2);
}

#[test]
fn subscribers_are_notified_and_see_the_latest_only() {
    let mut state = StateHandle::default();
    let mut rx = state.subscribe();
    assert!(!rx.has_changed().unwrap());
    assert_eq!(*rx.borrow_and_update(), Snapshot::default());
    state.update(|s: &mut Snapshot| s.in_tactic = true);
    state.update(|_: &mut Snapshot| {});
    assert!(rx.has_changed().unwrap());
    assert_eq!(rx.borrow_and_update().seq, 2);
    assert!(!rx.has_changed().unwrap());
    assert_eq!(*rx.borrow(), state.snapshot());
    drop(state);
    assert!(rx.has_changed().is_err());
}

#[test]
fn updates_without_subscribers_are_kept() {
    let mut state = StateHandle::new();
    for _ in 0..100 {
        state.update(|_: &mut Snapshot| {});
    }
    assert_eq!(state.snapshot().seq, 100);
}

/// A subscription starts from the current snapshot: earlier updates are no
/// news to it, later ones are.
#[test]
fn a_subscription_starts_from_the_current_snapshot() {
    let mut state = StateHandle::new();
    state.update(|s: &mut Snapshot| s.goals = vec!["⊢ A".into()]);
    let rx = state.subscribe();
    assert!(!rx.has_changed().unwrap());
    assert_eq!(*rx.borrow(), state.snapshot());
    assert_eq!(rx.borrow().goals, vec!["⊢ A".to_string()]);
    state.update(|_: &mut Snapshot| {});
    assert!(rx.has_changed().unwrap());
    assert_eq!(*rx.borrow(), state.snapshot());
    assert!(!state.subscribe().has_changed().unwrap());
}

/// A receiver follows its handle through every way of changing the state.
#[test]
fn subscribers_hear_of_folded_messages() {
    let mut state = StateHandle::new();
    let mut rx = state.subscribe();
    apply_diagnostics(&mut state, br#"{"params":{"uri":"u"}}"#);
    assert!(rx.has_changed().unwrap());
    assert_eq!(rx.borrow_and_update().seq, 1);
    apply_progress(&mut state, br#"{"params":{}}"#);
    assert_eq!(rx.borrow_and_update().seq, 2);
    let pending = Pending {
        kind: QueryKind::PlainTermGoal,
        doc: DocRef { uri: "u".into(), version: 1 },
        position: Position { line: 0, character: 0 },
    };
    handle_injected_response(&mut state, pending, br#"{"result":{"goal":"Nat"}}"#);
    assert_eq!(rx.borrow_and_update().term_goal.as_deref(), Some("Nat"));
    apply_progress(&mut state, b"not json");
    assert!(!rx.has_changed().unwrap());
}

/// A subscription that is read late shows the latest snapshot only, and then
/// has seen it.
#[test]
fn a_late_read_shows_the_latest() {
    let mut state = StateHandle::new();
    let mut rx = state.subscribe();
    assert_eq!(state.read(&mut rx), Snapshot::default());
    for i in 0..50 {
        state.update(|s: &mut Snapshot| s.goals = vec![format!("{i}")]);
    }
    assert!(rx.has_changed().unwrap());
    let s = state.read(&mut rx);
    assert_eq!(s.goals, ["49"]);
    assert_eq!(s.seq, 50);
    assert!(!rx.has_changed().unwrap());
    assert_eq!(state.read(&mut rx), s);
}

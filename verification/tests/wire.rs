use lean_helix_view::strmap::StrMap;
use lean_helix_view::viewer::render;
use lean_helix_view::wire::{Diagnostic, DocRef, Position, Range, Severity, Snapshot};

fn diagnostic(message: &str) -> Diagnostic {
    Diagnostic {
        range: Range {
            start: Position { line: 0, character: 0 },
            end: Position { line: 0, character: 1 },
        },
        severity: Severity::Hint,
        message: message.into(),
        source: Some("lean".into()),
    }
}

#[test]
fn severities_follow_lsp() {
    assert_eq!(Severity::from_lsp(Some(1)), Severity::Error);
    assert_eq!(Severity::from_lsp(Some(2)), Severity::Warning);
    assert_eq!(Severity::from_lsp(Some(3)), Severity::Information);
    assert_eq!(Severity::from_lsp(Some(4)), Severity::Hint);
    assert_eq!(Severity::from_lsp(Some(0)), Severity::Error);
    assert_eq!(Severity::from_lsp(Some(-2)), Severity::Error);
    assert_eq!(Severity::from_lsp(Some(5)), Severity::Error);
    assert_eq!(Severity::from_lsp(None), Severity::Error);
}

#[test]
fn snapshots_are_equal_by_value() {
    let mut a = Snapshot::default();
    let mut b = Snapshot::default();
    assert_eq!(a, b);
    // The order in which documents came makes no difference.
    a.diagnostics.insert("x".into(), vec![diagnostic("1")]);
    a.diagnostics.insert("y".into(), vec![]);
    b.diagnostics.insert("y".into(), vec![]);
    b.diagnostics.insert("x".into(), vec![diagnostic("1")]);
    assert_eq!(a, b);
    assert_eq!(a.clone(), a);
    b.diagnostics.insert("x".into(), vec![diagnostic("2")]);
    assert_ne!(a, b);
    let mut c = a.clone();
    c.diagnostics.remove("y");
    assert_ne!(a, c);
    assert_ne!(c, a);
    let mut c = a.clone();
    c.doc = Some(DocRef { uri: "x".into(), version: 1 });
    assert_ne!(a, c);
    assert_eq!(c, c.clone());
    let mut c = a.clone();
    c.goals = vec!["g".into()];
    assert_ne!(a, c);
    let mut c = a.clone();
    c.rendered = Some("g".into());
    assert_ne!(a, c);
    let mut c = a.clone();
    c.progress = vec![diagnostic("").range];
    assert_ne!(a, c);
    assert_eq!(c, c.clone());
    let mut c = a.clone();
    c.seq = 1;
    assert_ne!(a, c);
}

#[test]
fn maps_keep_one_value_for_each_key() {
    let mut map: StrMap<u8> = StrMap::new();
    assert_eq!(map.len(), 0);
    map.insert("a".into(), 1);
    map.insert("b".into(), 2);
    map.insert("a".into(), 3);
    assert_eq!(map.len(), 2);
    assert_eq!(map.get("a"), Some(&3));
    assert_eq!(map.get("c"), None);
    assert_eq!(map.entries().len(), 2);
    assert_eq!(map.remove("a"), Some(3));
    assert_eq!(map.remove("a"), None);
    assert_eq!(map.len(), 1);
}

#[test]
fn snapshots_are_rendered() {
    let mut s = Snapshot::default();
    assert_eq!(render(&s), "── goals (0) ──\n");
    s.goals = vec!["⊢ A".into(), "h : B\n⊢ C".into()];
    s.term_goal = Some("Nat".into());
    assert_eq!(
        render(&s),
        "── goals (2) ──\n⊢ A\nh : B\n⊢ C\n── expected type ──\nNat\n"
    );
}

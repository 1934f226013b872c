//! The proxy → viewer state: a single source of truth for both ends.
//!
//! The proxy holds one authoritative [`Snapshot`] and ships full snapshots
//! (never deltas) on every change. Snapshots are small and idempotent, so a
//! reconnecting viewer needs no bookkeeping: it renders the latest one.

use crate::strmap::StrMap;
use crate::text;
use vstd::prelude::*;
use vstd::std_specs::cmp::PartialEqSpecImpl;

verus! {

/// A zero-based position (LSP semantics: UTF-16 code units for `character`).
#[derive(Debug, Clone, Copy, PartialEq, Eq, Structural)]
pub struct Position {
    pub line: u32,
    pub character: u32,
}

/// From one position to another.
#[derive(Debug, Clone, Copy, PartialEq, Eq, Structural)]
pub struct Range {
    pub start: Position,
    pub end: Position,
}

/// How grave a diagnostic is.
#[derive(Debug, Clone, Copy, PartialEq, Eq, Structural)]
pub enum Severity {
    Error,
    Warning,
    Information,
    Hint,
}

impl Severity {
    /// The severity of an LSP `DiagnosticSeverity`; an absent or unknown one
    /// counts as an error.
    pub open spec fn of_lsp(n: Option<i64>) -> Severity {
        if n == Some(2i64) {
            Severity::Warning
        } else if n == Some(3i64) {
            Severity::Information
        } else if n == Some(4i64) {
            Severity::Hint
        } else {
            Severity::Error
        }
    }

    /// Map an LSP `DiagnosticSeverity` integer (1..=4), defaulting to `Error`
    /// for the absent or unknown case.
    pub fn from_lsp(n: Option<i64>) -> (r: Severity)
        ensures
            r == Severity::of_lsp(n),
    {
        match n {
            Some(2) => Severity::Warning,
            Some(3) => Severity::Information,
            Some(4) => Severity::Hint,
            _ => Severity::Error,
        }
    }
}

/// The value of optional text.
pub open spec fn string_view(s: Option<String>) -> Option<Seq<char>> {
    match s {
        Some(s) => Some(s@),
        None => None,
    }
}

/// The values of a list of texts.
pub open spec fn strings_view(v: Seq<String>) -> Seq<Seq<char>> {
    v.map_values(|s: String| s@)
}

/// A document URI paired with the LSP version the state was computed against.
#[derive(Debug, PartialEq, Eq)]
pub struct DocRef {
    pub uri: String,
    pub version: i32,
}

/// The value of a [`DocRef`].
pub struct DocRefView {
    pub uri: Seq<char>,
    pub version: i32,
}

impl View for DocRef {
    type V = DocRefView;

    open spec fn view(&self) -> DocRefView {
        DocRefView { uri: self.uri@, version: self.version }
    }
}

impl Clone for DocRef {
    fn clone(&self) -> (r: DocRef)
        ensures
            r == *self,
    {
        DocRef { uri: self.uri.clone(), version: self.version }
    }
}

/// The value of an optional document.
pub open spec fn doc_view(doc: Option<DocRef>) -> Option<DocRefView> {
    match doc {
        Some(doc) => Some(doc@),
        None => None,
    }
}

/// A diagnostic, trimmed to the fields the viewer renders.
#[derive(Debug, PartialEq, Eq)]
pub struct Diagnostic {
    pub range: Range,
    pub severity: Severity,
    pub message: String,
    pub source: Option<String>,
}

/// The value of a [`Diagnostic`].
pub struct DiagnosticView {
    pub range: Range,
    pub severity: Severity,
    pub message: Seq<char>,
    pub source: Option<Seq<char>>,
}

impl View for Diagnostic {
    type V = DiagnosticView;

    open spec fn view(&self) -> DiagnosticView {
        DiagnosticView {
            range: self.range,
            severity: self.severity,
            message: self.message@,
            source: string_view(self.source),
        }
    }
}

impl Clone for Diagnostic {
    fn clone(&self) -> (r: Diagnostic)
        ensures
            r@ == self@,
    {
        Diagnostic {
            range: self.range,
            severity: self.severity,
            message: self.message.clone(),
            source: clone_text(&self.source),
        }
    }
}

/// The values of a list of diagnostics.
pub open spec fn diagnostics_view(v: Seq<Diagnostic>) -> Seq<DiagnosticView> {
    v.map_values(|d: Diagnostic| d@)
}

/// The values of the diagnostics of each document.
pub open spec fn table_view(m: Map<Seq<char>, Vec<Diagnostic>>) -> Map<
    Seq<char>,
    Seq<DiagnosticView>,
> {
    m.map_values(|v: Vec<Diagnostic>| diagnostics_view(v@))
}

/// The complete state the viewer renders. The default is the empty state shown
/// before any goal query has resolved.
#[derive(Debug)]
pub struct Snapshot {
    /// The document + version the goal fields describe, if known.
    pub doc: Option<DocRef>,
    /// `$/lean/plainGoal` goals. Empty = proof complete at this position; the
    /// distinction from "no tactic goals here" is carried by `in_tactic`.
    pub goals: Vec<String>,
    /// `$/lean/plainGoal.rendered`, the pre-rendered combined goal block.
    pub rendered: Option<String>,
    /// `$/lean/plainTermGoal.goal`: the expected type at the position.
    pub term_goal: Option<String>,
    /// Whether the position is inside tactic mode at all (plainGoal non-null).
    pub in_tactic: bool,
    /// True while `$/lean/fileProgress` reports regions still elaborating.
    pub elaborating: bool,
    /// `textDocument/publishDiagnostics`, keyed by document URI.
    pub diagnostics: StrMap<Vec<Diagnostic>>,
    /// `$/lean/fileProgress` ranges currently being elaborated.
    pub progress: Vec<Range>,
    /// Monotonic counter, bumped on every state change.
    pub seq: u64,
}

/// The value of a [`Snapshot`].
pub struct SnapshotView {
    pub doc: Option<DocRefView>,
    pub goals: Seq<Seq<char>>,
    pub rendered: Option<Seq<char>>,
    pub term_goal: Option<Seq<char>>,
    pub in_tactic: bool,
    pub elaborating: bool,
    pub diagnostics: Map<Seq<char>, Seq<DiagnosticView>>,
    pub progress: Seq<Range>,
    pub seq: u64,
}

impl View for Snapshot {
    type V = SnapshotView;

    open spec fn view(&self) -> SnapshotView {
        SnapshotView {
            doc: doc_view(self.doc),
            goals: strings_view(self.goals@),
            rendered: string_view(self.rendered),
            term_goal: string_view(self.term_goal),
            in_tactic: self.in_tactic,
            elaborating: self.elaborating,
            diagnostics: table_view(self.diagnostics@),
            progress: self.progress@,
            seq: self.seq,
        }
    }
}

impl SnapshotView {
    /// The empty state.
    pub open spec fn empty() -> SnapshotView {
        SnapshotView {
            doc: None,
            goals: Seq::empty(),
            rendered: None,
            term_goal: None,
            in_tactic: false,
            elaborating: false,
            diagnostics: Map::empty(),
            progress: Seq::empty(),
            seq: 0,
        }
    }
}

impl Default for Snapshot {
    fn default() -> (r: Snapshot)
        ensures
            r@ == SnapshotView::empty(),
    {
        let r: Snapshot = Snapshot {
            doc: None,
            goals: Vec::new(),
            rendered: None,
            term_goal: None,
            in_tactic: false,
            elaborating: false,
            diagnostics: StrMap::new(),
            progress: Vec::new(),
            seq: 0,
        };
        proof {
            assert(r@.goals =~= Seq::<Seq<char>>::empty());
            assert(r@.diagnostics =~= Map::<Seq<char>, Seq<DiagnosticView>>::empty());
        }
        r
    }
}

/// A copy of optional text.
pub fn clone_text(s: &Option<String>) -> (r: Option<String>)
    ensures
        string_view(r) == string_view(*s),
{
    match s {
        Some(s) => Some(s.clone()),
        None => None,
    }
}

fn clone_texts(v: &Vec<String>) -> (r: Vec<String>)
    ensures
        strings_view(r@) == strings_view(v@),
{
    let mut out: Vec<String> = Vec::new();
    let mut i: usize = 0;
    while i < v.len()
        invariant
            i <= v@.len(),
            out@.len() == i,
            forall|k: int| 0 <= k < i ==> (#[trigger] out@[k])@ == v@[k]@,
        decreases v.len() - i,
    {
        out.push(v[i].clone());
        i = i + 1;
    }
    assert(strings_view(out@) =~= strings_view(v@));
    out
}

fn clone_diagnostics(v: &Vec<Diagnostic>) -> (r: Vec<Diagnostic>)
    ensures
        diagnostics_view(r@) == diagnostics_view(v@),
{
    let mut out: Vec<Diagnostic> = Vec::new();
    let mut i: usize = 0;
    while i < v.len()
        invariant
            i <= v@.len(),
            out@.len() == i,
            forall|k: int| 0 <= k < i ==> (#[trigger] out@[k])@ == v@[k]@,
        decreases v.len() - i,
    {
        out.push(v[i].clone());
        i = i + 1;
    }
    assert(diagnostics_view(out@) =~= diagnostics_view(v@));
    out
}

fn clone_table(m: &StrMap<Vec<Diagnostic>>) -> (r: StrMap<Vec<Diagnostic>>)
    ensures
        table_view(r@) == table_view(m@),
{
    let entries: &Vec<(String, Vec<Diagnostic>)> = m.entries();
    let mut out: StrMap<Vec<Diagnostic>> = StrMap::new();
    let mut i: usize = 0;
    while i < entries.len()
        invariant
            i <= entries@.len(),
            forall|k: int|
                0 <= k < entries@.len() ==> m@.contains_key((#[trigger] entries@[k]).0@)
                    && m@[entries@[k].0@] == entries@[k].1,
            forall|key: Seq<char>|
                #[trigger] out@.contains_key(key) <==> exists|k: int|
                    0 <= k < i && (#[trigger] entries@[k]).0@ == key,
            forall|key: Seq<char>| #[trigger]
                out@.contains_key(key) ==> diagnostics_view(out@[key]@) == diagnostics_view(
                    m@[key]@,
                ),
        decreases entries.len() - i,
    {
        let ghost before = out@;
        let copy: Vec<Diagnostic> = clone_diagnostics(&entries[i].1);
        out.insert(entries[i].0.clone(), copy);
        proof {
            let key0 = entries@[i as int].0@;
            assert(out@ == before.insert(key0, copy));
            assert forall|key: Seq<char>|
                #[trigger] out@.contains_key(key) <==> exists|k: int|
                    0 <= k < i + 1 && (#[trigger] entries@[k]).0@ == key by {
                if out@.contains_key(key) {
                    if key == key0 {
                        assert(entries@[i as int].0@ == key);
                    } else {
                        assert(before.contains_key(key));
                        let k = choose|k: int| 0 <= k < i && (#[trigger] entries@[k]).0@ == key;
                        assert(0 <= k < i + 1 && entries@[k].0@ == key);
                    }
                }
            }
        }
        i = i + 1;
    }
    proof {
        assert forall|key: Seq<char>| out@.contains_key(key) == m@.contains_key(key) by {
            if m@.contains_key(key) {
                let k = choose|k: int| 0 <= k < entries@.len() && (#[trigger] entries@[k]).0@ == key;
                assert(out@.contains_key(key));
            }
        }
        assert(table_view(out@) =~= table_view(m@));
    }
    out
}

impl Clone for Snapshot {
    fn clone(&self) -> (r: Snapshot)
        ensures
            r@ == self@,
    {
        Snapshot {
            doc: match &self.doc {
                Some(doc) => Some(doc.clone()),
                None => None,
            },
            goals: clone_texts(&self.goals),
            rendered: clone_text(&self.rendered),
            term_goal: clone_text(&self.term_goal),
            in_tactic: self.in_tactic,
            elaborating: self.elaborating,
            diagnostics: clone_table(&self.diagnostics),
            progress: vstd::slice::slice_to_vec(self.progress.as_slice()),
            seq: self.seq,
        }
    }
}

fn same_text(a: &Option<String>, b: &Option<String>) -> (r: bool)
    ensures
        r == (string_view(*a) == string_view(*b)),
{
    match (a, b) {
        (Some(a), Some(b)) => text::str_eq(a.as_str(), b.as_str()),
        (None, None) => true,
        _ => false,
    }
}

fn same_texts(a: &Vec<String>, b: &Vec<String>) -> (r: bool)
    ensures
        r == (strings_view(a@) == strings_view(b@)),
{
    let ghost x = strings_view(a@);
    let ghost y = strings_view(b@);
    if a.len() != b.len() {
        assert(x.len() != y.len());
        return false;
    }
    let mut i: usize = 0;
    while i < a.len()
        invariant
            i <= a@.len(),
            a@.len() == b@.len(),
            x == strings_view(a@),
            y == strings_view(b@),
            forall|k: int| 0 <= k < i ==> x[k] == y[k],
        decreases a.len() - i,
    {
        if !text::str_eq(a[i].as_str(), b[i].as_str()) {
            assert(x[i as int] != y[i as int]);
            return false;
        }
        i = i + 1;
    }
    assert(x =~= y);
    true
}

fn same_diagnostic(a: &Diagnostic, b: &Diagnostic) -> (r: bool)
    ensures
        r == (a@ == b@),
{
    a.range == b.range && a.severity == b.severity && text::str_eq(
        a.message.as_str(),
        b.message.as_str(),
    ) && same_text(&a.source, &b.source)
}

fn same_diagnostics(a: &Vec<Diagnostic>, b: &Vec<Diagnostic>) -> (r: bool)
    ensures
        r == (diagnostics_view(a@) == diagnostics_view(b@)),
{
    let ghost x = diagnostics_view(a@);
    let ghost y = diagnostics_view(b@);
    if a.len() != b.len() {
        assert(x.len() != y.len());
        return false;
    }
    let mut i: usize = 0;
    while i < a.len()
        invariant
            i <= a@.len(),
            a@.len() == b@.len(),
            x == diagnostics_view(a@),
            y == diagnostics_view(b@),
            forall|k: int| 0 <= k < i ==> x[k] == y[k],
        decreases a.len() - i,
    {
        if !same_diagnostic(&a[i], &b[i]) {
            assert(x[i as int] != y[i as int]);
            return false;
        }
        i = i + 1;
    }
    assert(x =~= y);
    true
}

/// Whether every entry of `a` is in `b`.
fn table_within(a: &StrMap<Vec<Diagnostic>>, b: &StrMap<Vec<Diagnostic>>) -> (r: bool)
    ensures
        r == forall|key: Seq<char>| #[trigger]
            a@.contains_key(key) ==> b@.contains_key(key) && diagnostics_view(a@[key]@)
                == diagnostics_view(b@[key]@),
{
    let entries: &Vec<(String, Vec<Diagnostic>)> = a.entries();
    let mut i: usize = 0;
    while i < entries.len()
        invariant
            i <= entries@.len(),
            forall|k: int|
                0 <= k < entries@.len() ==> a@.contains_key((#[trigger] entries@[k]).0@)
                    && a@[entries@[k].0@] == entries@[k].1,
            forall|k: int|
                0 <= k < i ==> b@.contains_key((#[trigger] entries@[k]).0@) && diagnostics_view(
                    entries@[k].1@,
                ) == diagnostics_view(b@[entries@[k].0@]@),
        decreases entries.len() - i,
    {
        let same: bool = match b.get(entries[i].0.as_str()) {
            Some(other) => same_diagnostics(&entries[i].1, other),
            None => false,
        };
        if !same {
            assert(a@.contains_key(entries@[i as int].0@));
            return false;
        }
        i = i + 1;
    }
    proof {
        assert forall|key: Seq<char>| #[trigger] a@.contains_key(key) implies b@.contains_key(key)
            && diagnostics_view(a@[key]@) == diagnostics_view(b@[key]@) by {
            let k = choose|k: int| 0 <= k < entries@.len() && (#[trigger] entries@[k]).0@ == key;
            assert(entries@[k].0@ == key);
        }
    }
    true
}

fn same_table(a: &StrMap<Vec<Diagnostic>>, b: &StrMap<Vec<Diagnostic>>) -> (r: bool)
    ensures
        r == (table_view(a@) == table_view(b@)),
{
    let r: bool = table_within(a, b) && table_within(b, a);
    proof {
        let x = table_view(a@);
        let y = table_view(b@);
        if r {
            assert(x =~= y);
        }
        if x == y {
            assert forall|key: Seq<char>| #[trigger] a@.contains_key(key) implies b@.contains_key(
                key,
            ) && diagnostics_view(a@[key]@) == diagnostics_view(b@[key]@) by {
                assert(x.contains_key(key) && x[key] == y[key]);
            }
            assert forall|key: Seq<char>| #[trigger] b@.contains_key(key) implies a@.contains_key(
                key,
            ) && diagnostics_view(b@[key]@) == diagnostics_view(a@[key]@) by {
                assert(y.contains_key(key) && x[key] == y[key]);
            }
        }
    }
    r
}

fn same_ranges(a: &Vec<Range>, b: &Vec<Range>) -> (r: bool)
    ensures
        r == (a@ == b@),
{
    if a.len() != b.len() {
        return false;
    }
    let mut i: usize = 0;
    while i < a.len()
        invariant
            i <= a@.len(),
            a@.len() == b@.len(),
            forall|k: int| 0 <= k < i ==> a@[k] == b@[k],
        decreases a.len() - i,
    {
        if a[i] != b[i] {
            return false;
        }
        i = i + 1;
    }
    assert(a@ =~= b@);
    true
}

fn same_doc(a: &Option<DocRef>, b: &Option<DocRef>) -> (r: bool)
    ensures
        r == (doc_view(*a) == doc_view(*b)),
{
    match (a, b) {
        (Some(a), Some(b)) => a.version == b.version && text::str_eq(
            a.uri.as_str(),
            b.uri.as_str(),
        ),
        (None, None) => true,
        _ => false,
    }
}

/// Two snapshots are equal if they have the same value; in which order the
/// diagnostics of the documents came makes no difference.
impl PartialEq for Snapshot {
    fn eq(&self, other: &Snapshot) -> (r: bool) {
        same_doc(&self.doc, &other.doc) && same_texts(&self.goals, &other.goals) && same_text(
            &self.rendered,
            &other.rendered,
        ) && same_text(&self.term_goal, &other.term_goal) && self.in_tactic == other.in_tactic
            && self.elaborating == other.elaborating && same_table(
            &self.diagnostics,
            &other.diagnostics,
        ) && same_ranges(&self.progress, &other.progress) && self.seq == other.seq
    }
}

impl PartialEqSpecImpl for Snapshot {
    open spec fn obeys_eq_spec() -> bool {
        true
    }

    open spec fn eq_spec(&self, other: &Snapshot) -> bool {
        self@ == other@
    }
}

impl Eq for Snapshot {

}

/// A message from the proxy (socket server) to a viewer (socket client).
#[derive(Debug, Clone)]
pub enum ServerMsg {
    /// The current authoritative state. Sent on connect (replay) and on change.
    Snapshot(Snapshot),
}

// ---------------------------------------------------------------------------
// Laws
// ---------------------------------------------------------------------------

/// Severities are LSP's: 2 to 4 are warning, information and hint, and
/// everything else, or nothing, is an error.
pub proof fn severities_by_number(n: i64)
    ensures
        Severity::of_lsp(Some(n)) == if n == 2 {
            Severity::Warning
        } else if n == 3 {
            Severity::Information
        } else if n == 4 {
            Severity::Hint
        } else {
            Severity::Error
        },
        Severity::of_lsp(None) == Severity::Error,
{
}

/// The empty state has nothing to show.
pub proof fn the_empty_state_is_empty()
    ensures
        ({
            let s = SnapshotView::empty();
            &&& s.doc is None && s.rendered is None && s.term_goal is None
            &&& !s.in_tactic && !s.elaborating
            &&& s.goals.len() == 0 && s.progress.len() == 0
            &&& forall|uri: Seq<char>| !s.diagnostics.contains_key(uri)
            &&& s.seq == 0
        }),
{
}

/// The value of a snapshot shows all that it holds.
pub proof fn snapshots_show_all_they_hold(s: Snapshot, uri: Seq<char>)
    ensures
        s@.goals.len() == s.goals@.len(),
        forall|i: int| 0 <= i < s.goals@.len() ==> #[trigger] s@.goals[i] == s.goals@[i]@,
        s.doc matches Some(d) ==> s@.doc == Some(
            DocRefView { uri: d.uri@, version: d.version },
        ),
        s.doc is None ==> s@.doc is None,
        s.rendered matches Some(t) ==> s@.rendered == Some(t@),
        s.rendered is None ==> s@.rendered is None,
        s.term_goal matches Some(t) ==> s@.term_goal == Some(t@),
        s.term_goal is None ==> s@.term_goal is None,
        s@.in_tactic == s.in_tactic,
        s@.elaborating == s.elaborating,
        s@.progress == s.progress@,
        s@.seq == s.seq,
        s@.diagnostics.contains_key(uri) == s.diagnostics@.contains_key(uri),
        s.diagnostics@.contains_key(uri) ==> {
            let list = s.diagnostics@[uri]@;
            &&& s@.diagnostics[uri].len() == list.len()
            &&& forall|i: int|
                0 <= i < list.len() ==> {
                    let d = #[trigger] s@.diagnostics[uri][i];
                    &&& d.range == list[i].range && d.severity == list[i].severity
                    &&& d.message == list[i].message@
                    &&& list[i].source matches Some(t) ==> d.source == Some(t@)
                    &&& list[i].source is None ==> d.source is None
                }
        },
{
}

/// Two snapshots are equal exactly if they agree in everything they show.
pub proof fn equality_is_agreement(a: Snapshot, b: Snapshot)
    ensures
        vstd::std_specs::cmp::PartialEqSpec::eq_spec(&a, &b) <==> {
            &&& a@.doc == b@.doc && a@.goals == b@.goals
            &&& a@.rendered == b@.rendered && a@.term_goal == b@.term_goal
            &&& a@.in_tactic == b@.in_tactic && a@.elaborating == b@.elaborating
            &&& a@.diagnostics == b@.diagnostics && a@.progress == b@.progress
            &&& a@.seq == b@.seq
        },
{
}

} // verus!

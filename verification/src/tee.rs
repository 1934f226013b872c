//! Tee handlers. `textDocument/publishDiagnostics` and `$/lean/fileProgress`
//! belong to Helix and keep flowing verbatim; these fold a copy into the
//! shared state so that the viewer sees them too. Anything unparseable is
//! ignored.

use crate::json::{self, parse_range, Json};
use crate::state::{self, StateHandle};
use crate::wire::{self, Diagnostic, Range, Severity, Snapshot};
use vstd::prelude::*;

verus! {

/// The diagnostic that a JSON value gives: it must have a range and a message.
pub open spec fn diagnostic_of(t: json::Tree) -> Option<wire::DiagnosticView> {
    match (t.get("range"@), json::member_text(Some(t), "message"@)) {
        (Some(range), Some(message)) => match json::range_of(range) {
            Some(range) => Some(
                wire::DiagnosticView {
                    range,
                    severity: Severity::of_lsp(
                        match t.get("severity"@) {
                            Some(s) => s.to_i64(),
                            None => None,
                        },
                    ),
                    message,
                    source: json::member_text(Some(t), "source"@),
                },
            ),
            None => None,
        },
        _ => None,
    }
}

/// The items of a member that is an array; none if it is missing or not one.
pub open spec fn member_items(t: json::Tree, key: Seq<char>) -> Seq<json::Tree> {
    match t.get(key) {
        Some(list) => match list.items() {
            Some(items) => items,
            None => Seq::empty(),
        },
        None => Seq::empty(),
    }
}

/// The diagnostics of a `publishDiagnostics` message's `params`, in order;
/// items that give none are skipped.
pub open spec fn diagnostics_of(params: json::Tree) -> Seq<wire::DiagnosticView> {
    member_items(params, "diagnostics"@).filter_map(|t: json::Tree| diagnostic_of(t))
}

/// The ranges of a `fileProgress` message's `params`, in order; items that
/// give none are skipped.
pub open spec fn progress_of(params: json::Tree) -> Seq<Range> {
    member_items(params, "processing"@).filter_map(|t: json::Tree| progress_range_of(t))
}

/// The range of one item of `processing`.
pub open spec fn progress_range_of(t: json::Tree) -> Option<Range> {
    match t.get("range"@) {
        Some(range) => json::range_of(range),
        None => None,
    }
}

/// The state after a `publishDiagnostics` message: the diagnostics of its
/// document replaced. A message without `params` or without a `uri` changes
/// nothing.
pub open spec fn after_diagnostics(s: wire::SnapshotView, t: json::Tree) -> wire::SnapshotView {
    match (t.get("params"@), json::member_text(t.get("params"@), "uri"@)) {
        (Some(params), Some(uri)) => state::bumped(
            wire::SnapshotView {
                diagnostics: s.diagnostics.insert(uri, diagnostics_of(params)),
                ..s
            },
        ),
        _ => s,
    }
}

/// The state after a `fileProgress` message: its ranges, and whether there
/// are any. A message without `params` changes nothing.
pub open spec fn after_progress(s: wire::SnapshotView, t: json::Tree) -> wire::SnapshotView {
    match t.get("params"@) {
        Some(params) => state::bumped(
            wire::SnapshotView {
                progress: progress_of(params),
                elaborating: progress_of(params).len() > 0,
                ..s
            },
        ),
        None => s,
    }
}

/// Fold a `publishDiagnostics` notification into the state.
pub fn apply_diagnostics(state: &mut StateHandle, body: &[u8])
    requires
        old(state)@.seq < u64::MAX,
    ensures
        final(state)@ == match json::json_of(body@) {
            Some(t) => after_diagnostics(old(state)@, t),
            None => old(state)@,
        },
        state::same_followers(*old(state), *final(state)),
{
    match json::parse_json(body) {
        Some(value) => fold_diagnostics(state, &value),
        None => {},
    }
}

/// Fold a parsed `publishDiagnostics` notification into the state.
pub fn fold_diagnostics(state: &mut StateHandle, value: &Json)
    requires
        old(state)@.seq < u64::MAX,
    ensures
        final(state)@ == after_diagnostics(old(state)@, value@),
        state::same_followers(*old(state), *final(state)),
{
    let params: &Json = match value.get("params") {
        Some(params) => params,
        None => return,
    };
    let uri: &str = match json::get_text(Some(params), "uri") {
        Some(uri) => uri,
        None => return,
    };
    let diagnostics: Vec<Diagnostic> = parse_diagnostics(params);
    let mut s: Snapshot = state.snapshot();
    let ghost before = s.diagnostics@;
    s.diagnostics.insert(uri.to_owned(), diagnostics);
    assert(wire::table_view(s.diagnostics@) =~= wire::table_view(before).insert(
        uri@,
        diagnostics_of(params@),
    ));
    state.commit(s);
}

/// Fold a `$/lean/fileProgress` notification into the state, with the coarse
/// `elaborating` gate.
pub fn apply_progress(state: &mut StateHandle, body: &[u8])
    requires
        old(state)@.seq < u64::MAX,
    ensures
        final(state)@ == match json::json_of(body@) {
            Some(t) => after_progress(old(state)@, t),
            None => old(state)@,
        },
        state::same_followers(*old(state), *final(state)),
{
    match json::parse_json(body) {
        Some(value) => fold_progress(state, &value),
        None => {},
    }
}

/// Fold a parsed `$/lean/fileProgress` notification into the state.
pub fn fold_progress(state: &mut StateHandle, value: &Json)
    requires
        old(state)@.seq < u64::MAX,
    ensures
        final(state)@ == after_progress(old(state)@, value@),
        state::same_followers(*old(state), *final(state)),
{
    let params: &Json = match value.get("params") {
        Some(params) => params,
        None => return,
    };
    let ranges: Vec<Range> = parse_progress(params);
    let mut s: Snapshot = state.snapshot();
    s.elaborating = ranges.len() > 0;
    s.progress = ranges;
    state.commit(s);
}

/// The items of a member that is an array.
fn array_member<'a>(v: &'a Json, key: &str) -> (r: Option<&'a Vec<Json>>)
    ensures
        match r {
            Some(items) => {
                &&& items@.len() == member_items(v@, key@).len()
                &&& forall|i: int|
                    0 <= i < items@.len() ==> #[trigger] member_items(v@, key@)[i] == items@[i]@
            },
            None => member_items(v@, key@).len() == 0,
        },
{
    match v.get(key) {
        Some(list) => list.as_array(),
        None => None,
    }
}

fn parse_diagnostics(params: &Json) -> (r: Vec<Diagnostic>)
    ensures
        wire::diagnostics_view(r@) == diagnostics_of(params@),
{
    let ghost trees = member_items(params@, "diagnostics"@);
    let ghost f = |t: json::Tree| diagnostic_of(t);
    let mut out: Vec<Diagnostic> = Vec::new();
    match array_member(params, "diagnostics") {
        Some(items) => {
            let mut i: usize = 0;
            assert(wire::diagnostics_view(out@) =~= trees.take(0).filter_map(f));
            while i < items.len()
                invariant
                    i <= items@.len(),
                    items@.len() == trees.len(),
                    forall|k: int| 0 <= k < items@.len() ==> #[trigger] trees[k] == items@[k]@,
                    f == (|t: json::Tree| diagnostic_of(t)),
                    wire::diagnostics_view(out@) == trees.take(i as int).filter_map(f),
                decreases items.len() - i,
            {
                assert(trees.take(i + 1).drop_last() =~= trees.take(i as int));
                assert(trees[i as int] == items@[i as int]@);
                let ghost before = out@;
                match parse_diagnostic(&items[i]) {
                    Some(d) => {
                        out.push(d);
                        assert(wire::diagnostics_view(out@) =~= wire::diagnostics_view(before).push(
                            d@,
                        ));
                    },
                    None => {},
                }
                i = i + 1;
            }
            assert(trees.take(i as int) =~= trees);
        },
        None => {
            assert(wire::diagnostics_view(out@) =~= trees.filter_map(f));
        },
    }
    out
}

fn parse_progress(params: &Json) -> (r: Vec<Range>)
    ensures
        r@ == progress_of(params@),
{
    let ghost trees = member_items(params@, "processing"@);
    let ghost f = |t: json::Tree| progress_range_of(t);
    let mut out: Vec<Range> = Vec::new();
    match array_member(params, "processing") {
        Some(items) => {
            let mut i: usize = 0;
            assert(out@ =~= trees.take(0).filter_map(f));
            while i < items.len()
                invariant
                    i <= items@.len(),
                    items@.len() == trees.len(),
                    forall|k: int| 0 <= k < items@.len() ==> #[trigger] trees[k] == items@[k]@,
                    f == (|t: json::Tree| progress_range_of(t)),
                    out@ == trees.take(i as int).filter_map(f),
                decreases items.len() - i,
            {
                assert(trees.take(i + 1).drop_last() =~= trees.take(i as int));
                assert(trees[i as int] == items@[i as int]@);
                match items[i].get("range") {
                    Some(range) => match parse_range(range) {
                        Some(range) => out.push(range),
                        None => {},
                    },
                    None => {},
                }
                i = i + 1;
            }
            assert(trees.take(i as int) =~= trees);
        },
        None => {
            assert(out@ =~= trees.filter_map(f));
        },
    }
    out
}

/// The value of an optional diagnostic.
pub open spec fn opt_diagnostic(d: Option<Diagnostic>) -> Option<wire::DiagnosticView> {
    match d {
        Some(d) => Some(d@),
        None => None,
    }
}

/// The diagnostic that a JSON value gives; `None` if it gives none.
pub fn parse_diagnostic(v: &Json) -> (r: Option<Diagnostic>)
    ensures
        opt_diagnostic(r) == diagnostic_of(v@),
{
    let range: Range = parse_range(v.get("range")?)?;
    let severity: Option<i64> = match v.get("severity") {
        Some(s) => s.as_i64(),
        None => None,
    };
    let message: String = json::get_text(Some(v), "message")?.to_owned();
    let source: Option<String> = match json::get_text(Some(v), "source") {
        Some(s) => Some(s.to_owned()),
        None => None,
    };
    Some(Diagnostic { range, severity: Severity::from_lsp(severity), message, source })
}

/// Diagnostics replace those of their own document and touch nothing else but
/// the counter: not the goals, not another document's diagnostics.
pub proof fn diagnostics_touch_their_document_only(
    s: wire::SnapshotView,
    t: json::Tree,
    uri: Seq<char>,
)
    requires
        json::member_text(t.get("params"@), "uri"@) != Some(uri),
    ensures
        ({
            let after = after_diagnostics(s, t);
            &&& after.diagnostics.contains_key(uri) == s.diagnostics.contains_key(uri)
            &&& s.diagnostics.contains_key(uri) ==> after.diagnostics[uri] == s.diagnostics[uri]
            &&& after == (wire::SnapshotView {
                diagnostics: after.diagnostics,
                seq: after.seq,
                ..s
            })
        }),
{
}

/// After a progress message the file is elaborating exactly if a range is left
/// to process, and nothing but the progress and the counter has changed.
pub proof fn progress_gates_elaborating(s: wire::SnapshotView, t: json::Tree)
    requires
        t.get("params"@) is Some,
    ensures
        ({
            let after = after_progress(s, t);
            &&& after.elaborating <==> after.progress.len() > 0
            &&& after == (wire::SnapshotView {
                progress: after.progress,
                elaborating: after.elaborating,
                seq: after.seq,
                ..s
            })
        }),
{
}

/// Whether the elaborating flag is right: it is set exactly if a range is
/// left to process.
pub open spec fn gated(s: wire::SnapshotView) -> bool {
    s.elaborating == (s.progress.len() > 0)
}

/// Snapshots are idempotent: folding the same message twice leaves the same
/// state as folding it once, but for the counter.
pub proof fn folding_twice_is_folding_once(s: wire::SnapshotView, t: json::Tree)
    ensures
        ({
            let once = after_diagnostics(s, t);
            let twice = after_diagnostics(once, t);
            twice == (wire::SnapshotView { seq: twice.seq, ..once })
        }),
        ({
            let once = after_progress(s, t);
            let twice = after_progress(once, t);
            twice == (wire::SnapshotView { seq: twice.seq, ..once })
        }),
{
    match (t.get("params"@), json::member_text(t.get("params"@), "uri"@)) {
        (Some(params), Some(uri)) => {
            let d = diagnostics_of(params);
            assert(s.diagnostics.insert(uri, d).insert(uri, d) =~= s.diagnostics.insert(uri, d));
        },
        _ => {},
    }
}

// ---------------------------------------------------------------------------
// What messages say
// ---------------------------------------------------------------------------

/// `t` is this diagnostic in LSP's JSON: a range, a message, and optionally a
/// severity number and a source. Members of another kind count as missing.
pub open spec fn says_diagnostic(t: json::Tree, d: wire::DiagnosticView) -> bool {
    &&& t is Object
    &&& json::lookup(t->Object_0, "range"@) matches Some(range) && json::says_range(
        range,
        d.range,
    )
    &&& json::lookup(t->Object_0, "message"@) == Some(json::Tree::Str(d.message))
    &&& match json::lookup(t->Object_0, "source"@) {
        Some(json::Tree::Str(source)) => d.source == Some(source),
        _ => d.source is None,
    }
    &&& match json::lookup(t->Object_0, "severity"@) {
        Some(json::Tree::Number(json::Number::PosInt(n))) => match n {
            2u64 => d.severity is Warning,
            3u64 => d.severity is Information,
            4u64 => d.severity is Hint,
            _ => d.severity is Error,
        },
        Some(json::Tree::Number(json::Number::NegInt(n))) => n < 0 && d.severity is Error,
        _ => d.severity is Error,
    }
}

/// A diagnostic is read exactly as it is written.
pub proof fn diagnostics_read_back(t: json::Tree, d: wire::DiagnosticView)
    requires
        says_diagnostic(t, d),
    ensures
        diagnostic_of(t) == Some(d),
{
    let range = json::lookup(t->Object_0, "range"@)->0;
    json::ranges_read_back(range, d.range);
    match json::lookup(t->Object_0, "severity"@) {
        Some(json::Tree::Number(json::Number::PosInt(n))) => {
            if n == 2 {
                assert(n as i64 == 2);
            } else if n == 3 {
                assert(n as i64 == 3);
            } else if n == 4 {
                assert(n as i64 == 4);
            }
        },
        _ => {},
    }
    assert(diagnostic_of(t)->0.severity == d.severity);
    assert(diagnostic_of(t)->0.source == d.source);
}

/// A diagnostic needs a message and a range.
pub proof fn diagnostics_need_range_and_message(t: json::Tree)
    ensures
        diagnostic_of(t) is Some <==> t is Object && (json::lookup(
            t->Object_0,
            "message"@,
        ) matches Some(json::Tree::Str(_))) && (json::lookup(t->Object_0, "range"@) matches Some(
            range,
        ) && json::range_of(range) is Some),
        diagnostic_of(t) matches Some(d) ==> {
            &&& json::lookup(t->Object_0, "message"@) == Some(json::Tree::Str(d.message))
            &&& json::range_of(json::lookup(t->Object_0, "range"@)->0) == Some(d.range)
        },
{
}

/// The diagnostics of a message are those of its list, in their order: one
/// more item at the end adds its diagnostic at the end, or nothing if it is
/// none. An empty list, and anything that is no list, has none.
pub proof fn diagnostics_are_listed_in_order(
    params: json::Tree,
    longer: json::Tree,
    items: Seq<json::Tree>,
    item: json::Tree,
)
    ensures
        json::has(params, "diagnostics"@, json::Tree::Array(items)) && json::has(
            longer,
            "diagnostics"@,
            json::Tree::Array(items.push(item)),
        ) ==> diagnostics_of(longer) == match diagnostic_of(item) {
            Some(d) => diagnostics_of(params).push(d),
            None => diagnostics_of(params),
        },
        json::has(params, "diagnostics"@, json::Tree::Array(Seq::empty())) || json::lacks(
            params,
            "diagnostics"@,
        ) || !(params is Object) ==> diagnostics_of(params).len() == 0,
        (json::lookup(params->Object_0, "diagnostics"@) matches Some(v) && params is Object && !(
        v is Array)) ==> diagnostics_of(params).len() == 0,
{
    assert(items.push(item).drop_last() =~= items);
}

/// After a message for the document `uri`, that document's diagnostics are the
/// ones that the message lists, whatever was known of it before: two states
/// that differ agree on it afterwards, and a message that lists none clears it.
pub proof fn diagnostics_are_replaced(
    s: wire::SnapshotView,
    other: wire::SnapshotView,
    t: json::Tree,
    params: json::Tree,
    uri: Seq<char>,
)
    requires
        json::has(t, "params"@, params),
        json::has(params, "uri"@, json::Tree::Str(uri)),
    ensures
        ({
            let after = after_diagnostics(s, t);
            &&& after.diagnostics.contains_key(uri)
            &&& after.diagnostics[uri] == diagnostics_of(params)
            &&& after.diagnostics[uri] == after_diagnostics(other, t).diagnostics[uri]
            &&& json::has(params, "diagnostics"@, json::Tree::Array(Seq::empty())) || json::lacks(
                params,
                "diagnostics"@,
            ) ==> after.diagnostics[uri].len() == 0
            &&& s.seq < u64::MAX ==> after.seq == s.seq + 1
            &&& forall|u: Seq<char>|
                u != uri ==> {
                    &&& #[trigger] after.diagnostics.contains_key(u) == s.diagnostics.contains_key(
                        u,
                    )
                    &&& s.diagnostics.contains_key(u) ==> after.diagnostics[u]
                        == s.diagnostics[u]
                }
            &&& (after.doc, after.goals, after.rendered, after.term_goal, after.in_tactic) == (
                s.doc,
                s.goals,
                s.rendered,
                s.term_goal,
                s.in_tactic,
            )
            &&& (after.elaborating, after.progress) == (s.elaborating, s.progress)
        }),
{
    diagnostics_are_listed_in_order(params, params, Seq::empty(), json::Tree::Null);
}

/// A message that names no document changes nothing.
pub proof fn diagnostics_need_a_document(s: wire::SnapshotView, t: json::Tree)
    requires
        !(t is Object) || json::lacks(t, "params"@) || (json::lookup(
            t->Object_0,
            "params"@,
        ) matches Some(params) && (!(params is Object) || !(json::lookup(
            params->Object_0,
            "uri"@,
        ) matches Some(json::Tree::Str(_))))),
    ensures
        after_diagnostics(s, t) == s,
{
}

/// The ranges of a progress message are those of its list, in their order.
pub proof fn progress_is_listed_in_order(
    params: json::Tree,
    longer: json::Tree,
    items: Seq<json::Tree>,
    item: json::Tree,
    range: json::Tree,
    r: Range,
)
    requires
        json::has(params, "processing"@, json::Tree::Array(items)),
        json::has(longer, "processing"@, json::Tree::Array(items.push(item))),
    ensures
        json::has(item, "range"@, range) && json::says_range(range, r) ==> progress_of(longer)
            == progress_of(params).push(r),
        !(item is Object) || json::lacks(item, "range"@) || (json::has(item, "range"@, range)
            && json::range_of(range) is None) ==> progress_of(longer) == progress_of(params),
        items.len() == 0 ==> progress_of(params).len() == 0,
{
    assert(items.push(item).drop_last() =~= items);
    if json::has(item, "range"@, range) && json::says_range(range, r) {
        json::ranges_read_back(range, r);
    }
}

/// A progress message replaces the ranges, whatever they were, and the flag
/// with them; without a list of ranges nothing is left to process. It touches
/// nothing else, and without `params` nothing at all.
pub proof fn progress_is_replaced(
    s: wire::SnapshotView,
    other: wire::SnapshotView,
    t: json::Tree,
    params: json::Tree,
)
    ensures
        json::has(t, "params"@, params) ==> {
            let after = after_progress(s, t);
            &&& after.progress == progress_of(params)
            &&& after.progress == after_progress(other, t).progress
            &&& after.elaborating <==> progress_of(params).len() > 0
            &&& !(params is Object) || json::lacks(params, "processing"@) ==> after.progress.len()
                == 0
            &&& s.seq < u64::MAX ==> after.seq == s.seq + 1
            &&& (after.doc, after.goals, after.rendered, after.term_goal, after.in_tactic) == (
                s.doc,
                s.goals,
                s.rendered,
                s.term_goal,
                s.in_tactic,
            )
            &&& after.diagnostics == s.diagnostics
        },
        json::lacks(t, "params"@) || !(t is Object) ==> after_progress(s, t) == s,
{
}

} // verus!

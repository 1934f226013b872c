//! The session as the client has set it up: whether it is initialized, and
//! which documents are open at which version. A focus is legal only for an
//! open document of an initialized session.

use crate::json::{self, Json};
use crate::snoop::{self, observe_json, Observed, SnoopConfig};
use crate::strmap::StrMap;
use crate::text;
use crate::wire::{self, DocRef, Position};
use vstd::prelude::*;

verus! {

// ---------------------------------------------------------------------------
// Session
// ---------------------------------------------------------------------------

/// What the client has told the server so far.
#[derive(Debug)]
pub struct Session {
    /// Whether the client has sent `initialized`.
    pub initialized: bool,
    /// The open documents, with their versions.
    pub open: StrMap<i32>,
}

/// The value of a [`Session`].
#[verifier::ext_equal]
pub struct SessionView {
    pub initialized: bool,
    pub open: Map<Seq<char>, i32>,
}

impl View for Session {
    type V = SessionView;

    open spec fn view(&self) -> SessionView {
        SessionView { initialized: self.initialized, open: self.open@ }
    }
}

/// The version in `params.textDocument` of a message, if it is a 32-bit one.
pub open spec fn version_of(t: json::Tree) -> Option<i32> {
    match json::member(json::member(t.get("params"@), "textDocument"@), "version"@) {
        Some(v) => match v.to_i64() {
            Some(n) => if i32::MIN <= n <= i32::MAX {
                Some(n as i32)
            } else {
                None
            },
            None => None,
        },
        None => None,
    }
}

/// The session after the client message `t`. A document opened without a
/// version starts at 0; a change without one leaves it as it was, and so does
/// a change to a document that is not open.
pub open spec fn session_after(s: SessionView, t: json::Tree) -> SessionView {
    let method = snoop::method_of(t);
    if method == Some("initialized"@) {
        SessionView { initialized: true, ..s }
    } else {
        match snoop::uri_of(t) {
            Some(uri) => if method == Some("textDocument/didOpen"@) {
                let version = match version_of(t) {
                    Some(v) => v,
                    None => 0i32,
                };
                SessionView { open: s.open.insert(uri, version), ..s }
            } else if method == Some("textDocument/didChange"@) && s.open.contains_key(uri)
                && version_of(t) is Some {
                SessionView { open: s.open.insert(uri, version_of(t)->0), ..s }
            } else if method == Some("textDocument/didClose"@) {
                SessionView { open: s.open.remove(uri), ..s }
            } else {
                s
            },
            None => s,
        }
    }
}

fn version_in(value: &Json) -> (r: Option<i32>)
    ensures
        r == version_of(value@),
{
    let version: Option<&Json> = json::get_member(
        json::get_member(value.get("params"), "textDocument"),
        "version",
    );
    let n: i64 = version?.as_i64()?;
    if i32::MIN as i64 <= n && n <= i32::MAX as i64 {
        Some(n as i32)
    } else {
        None
    }
}

impl Session {
    /// A session that has not begun.
    pub fn new() -> (r: Session)
        ensures
            r@ == (SessionView { initialized: false, open: Map::empty() }),
    {
        Session { initialized: false, open: StrMap::new() }
    }

    /// Take note of a client message.
    pub fn note(&mut self, value: &Json)
        ensures
            final(self)@ == session_after(old(self)@, value@),
    {
        let method: &str = match json::get_text(Some(value), "method") {
            Some(method) => method,
            None => return,
        };
        if text::str_eq(method, "initialized") {
            self.initialized = true;
            return;
        }
        let uri: &str = match snoop::uri_in(value) {
            Some(uri) => uri,
            None => return,
        };
        proof {
            reveal_strlit("textDocument/didOpen");
            reveal_strlit("textDocument/didChange");
            reveal_strlit("textDocument/didClose");
            assert("textDocument/didOpen"@.len() != "textDocument/didChange"@.len());
            assert("textDocument/didClose"@.len() != "textDocument/didOpen"@.len());
            assert("textDocument/didClose"@.len() != "textDocument/didChange"@.len());
        }
        if text::str_eq(method, "textDocument/didOpen") {
            let version: i32 = match version_in(value) {
                Some(version) => version,
                None => 0,
            };
            self.open.insert(uri.to_owned(), version);
        } else if text::str_eq(method, "textDocument/didChange") {
            match (self.open.get(uri), version_in(value)) {
                (Some(_), Some(version)) => self.open.insert(uri.to_owned(), version),
                _ => {},
            }
        } else if text::str_eq(method, "textDocument/didClose") {
            self.open.remove(uri);
        }
    }
}

impl Default for Session {
    fn default() -> (r: Session)
        ensures
            r@ == (SessionView { initialized: false, open: Map::empty() }),
    {
        Session::new()
    }
}

// ---------------------------------------------------------------------------
// Focus
// ---------------------------------------------------------------------------

/// Where goal queries are made for.
#[derive(Debug)]
pub struct Focus {
    pub doc: DocRef,
    pub position: Position,
}

/// The value of a [`Focus`].
pub struct FocusView {
    pub doc: wire::DocRefView,
    pub position: Position,
}

impl View for Focus {
    type V = FocusView;

    open spec fn view(&self) -> FocusView {
        FocusView { doc: self.doc@, position: self.position }
    }
}

/// The value of an optional [`Focus`].
pub open spec fn opt_focus(f: Option<Focus>) -> Option<FocusView> {
    match f {
        Some(f) => Some(f@),
        None => None,
    }
}

/// Where an edit was made: the start of the range that the last content change
/// replaces. A change that replaces the whole document has no such point.
pub open spec fn edit_point(t: json::Tree) -> Option<Position> {
    match json::member(t.get("params"@), "contentChanges"@) {
        Some(list) => match list.items() {
            Some(changes) => if changes.len() == 0 {
                None
            } else {
                match changes.last().get("range"@) {
                    Some(range) => match json::range_of(range) {
                        Some(range) => Some(range.start),
                        None => None,
                    },
                    None => None,
                }
            },
            None => None,
        },
        None => None,
    }
}

/// The cursor that a client message suggests: that of a triggering request,
/// or else the point of an edit.
pub open spec fn suggested(t: json::Tree, methods: Seq<Seq<char>>) -> Option<snoop::ObservedView> {
    match snoop::observed_of(t, methods) {
        Some(o) => Some(o),
        None => if snoop::method_of(t) == Some("textDocument/didChange"@) {
            match (snoop::uri_of(t), edit_point(t)) {
                (Some(uri), Some(position)) => Some(snoop::ObservedView { uri, position }),
                _ => None,
            }
        } else {
            None
        },
    }
}

/// The focus that a client message produces in session `s`: the cursor that it
/// suggests, if that is legal.
pub open spec fn focus_of(s: SessionView, t: json::Tree, methods: Seq<Seq<char>>) -> Option<
    FocusView,
> {
    match suggested(t, methods) {
        Some(o) => if s.initialized && s.open.contains_key(o.uri) {
            Some(
                FocusView {
                    doc: wire::DocRefView { uri: o.uri, version: s.open[o.uri] },
                    position: o.position,
                },
            )
        } else {
            None
        },
        None => None,
    }
}

fn edit_point_in(value: &Json) -> (r: Option<Position>)
    ensures
        r == edit_point(value@),
{
    let changes: &Vec<Json> = json::get_member(
        value.get("params"),
        "contentChanges",
    )?.as_array()?;
    if changes.len() == 0 {
        return None;
    }
    let last: &Json = &changes[changes.len() - 1];
    let range: &Json = last.get("range")?;
    match json::parse_range(range) {
        Some(range) => Some(range.start),
        None => None,
    }
}

fn suggestion(value: &Json, config: &SnoopConfig) -> (r: Option<Observed>)
    ensures
        snoop::opt_observed(r) == suggested(value@, wire::strings_view(config.triggers@)),
{
    match observe_json(value, config) {
        Some(o) => return Some(o),
        None => {},
    }
    let method: &str = json::get_text(Some(value), "method")?;
    if !text::str_eq(method, "textDocument/didChange") {
        return None;
    }
    let uri: &str = snoop::uri_in(value)?;
    let position: Position = edit_point_in(value)?;
    Some(Observed { uri: uri.to_owned(), position })
}

impl Session {
    /// The focus that a client message produces in this session.
    pub fn focus(&self, value: &Json, config: &SnoopConfig) -> (r: Option<Focus>)
        ensures
            opt_focus(r) == focus_of(self@, value@, wire::strings_view(config.triggers@)),
    {
        let o: Observed = suggestion(value, config)?;
        if !self.initialized {
            return None;
        }
        let version: i32 = *self.open.get(o.uri.as_str())?;
        Some(Focus { doc: DocRef { uri: o.uri, version }, position: o.position })
    }
}

/// A session stays initialized, whatever the client sends.
pub proof fn initialized_is_kept(s: SessionView, t: json::Tree)
    requires
        s.initialized,
    ensures
        session_after(s, t).initialized,
{
}

/// A focus is legal: it needs an initialized session, and it names an open
/// document at the version that the session has for it.
pub proof fn focus_is_legal(s: SessionView, t: json::Tree, methods: Seq<Seq<char>>)
    ensures
        focus_of(s, t, methods) matches Some(f) ==> {
            &&& s.initialized
            &&& s.open.contains_key(f.doc.uri)
            &&& f.doc.version == s.open[f.doc.uri]
        },
{
}

/// The session after a run of client messages.
pub open spec fn session_after_all(s: SessionView, messages: Seq<json::Tree>) -> SessionView
    decreases messages.len(),
{
    if messages.len() == 0 {
        s
    } else {
        session_after(session_after_all(s, messages.drop_last()), messages.last())
    }
}

/// Whether a message opens the document `uri`.
pub open spec fn opens(t: json::Tree, uri: Seq<char>) -> bool {
    snoop::method_of(t) == Some("textDocument/didOpen"@) && snoop::uri_of(t) == Some(uri)
}

/// Once a document is closed no message produces a focus in it, until it is
/// opened again.
pub proof fn closed_document_has_no_focus(
    s: SessionView,
    close: json::Tree,
    messages: Seq<json::Tree>,
    t: json::Tree,
    methods: Seq<Seq<char>>,
    uri: Seq<char>,
)
    requires
        snoop::method_of(close) == Some("textDocument/didClose"@),
        snoop::uri_of(close) == Some(uri),
        forall|i: int| 0 <= i < messages.len() ==> !opens(#[trigger] messages[i], uri),
    ensures
        focus_of(session_after_all(session_after(s, close), messages), t, methods) matches Some(f)
            ==> f.doc.uri != uri,
{
    reveal_strlit("initialized");
    reveal_strlit("textDocument/didOpen");
    reveal_strlit("textDocument/didChange");
    reveal_strlit("textDocument/didClose");
    assert("textDocument/didClose"@.len() != "initialized"@.len());
    assert("textDocument/didClose"@.len() != "textDocument/didOpen"@.len());
    assert("textDocument/didClose"@.len() != "textDocument/didChange"@.len());
    lemma_stays_closed(session_after(s, close), messages, uri);
}

proof fn lemma_stays_closed(s: SessionView, messages: Seq<json::Tree>, uri: Seq<char>)
    requires
        !s.open.contains_key(uri),
        forall|i: int| 0 <= i < messages.len() ==> !opens(#[trigger] messages[i], uri),
    ensures
        !session_after_all(s, messages).open.contains_key(uri),
    decreases messages.len(),
{
    if messages.len() > 0 {
        assert forall|i: int| 0 <= i < messages.drop_last().len() implies !opens(
            #[trigger] messages.drop_last()[i],
            uri,
        ) by {
            assert(messages.drop_last()[i] == messages[i]);
        }
        lemma_stays_closed(s, messages.drop_last(), uri);
        assert(!opens(messages[messages.len() - 1], uri));
    }
}

/// Nothing is a focus before the client has said that it is initialized.
pub proof fn no_focus_before_initialized(
    s: SessionView,
    messages: Seq<json::Tree>,
    t: json::Tree,
    methods: Seq<Seq<char>>,
)
    requires
        !s.initialized,
        forall|i: int|
            0 <= i < messages.len() ==> snoop::method_of(#[trigger] messages[i]) != Some(
                "initialized"@,
            ),
    ensures
        focus_of(session_after_all(s, messages), t, methods) is None,
        !session_after_all(s, messages).initialized,
    decreases messages.len(),
{
    if messages.len() > 0 {
        assert forall|i: int| 0 <= i < messages.drop_last().len() implies snoop::method_of(
            #[trigger] messages.drop_last()[i],
        ) != Some("initialized"@) by {
            assert(messages.drop_last()[i] == messages[i]);
        }
        no_focus_before_initialized(s, messages.drop_last(), t, methods);
        assert(snoop::method_of(messages[messages.len() - 1]) != Some("initialized"@));
    }
}

// ---------------------------------------------------------------------------
// Capture
// ---------------------------------------------------------------------------

/// One line of a cadence capture: what one client message was.
#[derive(Debug)]
pub struct CaptureRecord {
    pub ts_unix_ms: u64,
    pub method: Option<String>,
    pub has_position: bool,
    pub uri: Option<String>,
    pub line: Option<u32>,
    pub character: Option<u32>,
    pub version: Option<i32>,
    /// The method is in the active trigger set.
    pub is_trigger: bool,
    /// It produced a legal focus: a goal query fires for it after the debounce.
    pub would_focus: bool,
}

/// The value of a [`CaptureRecord`].
pub struct CaptureView {
    pub ts_unix_ms: u64,
    pub method: Option<Seq<char>>,
    pub has_position: bool,
    pub uri: Option<Seq<char>>,
    pub line: Option<u32>,
    pub character: Option<u32>,
    pub version: Option<i32>,
    pub is_trigger: bool,
    pub would_focus: bool,
}

impl View for CaptureRecord {
    type V = CaptureView;

    open spec fn view(&self) -> CaptureView {
        CaptureView {
            ts_unix_ms: self.ts_unix_ms,
            method: wire::string_view(self.method),
            has_position: self.has_position,
            uri: wire::string_view(self.uri),
            line: self.line,
            character: self.character,
            version: self.version,
            is_trigger: self.is_trigger,
            would_focus: self.would_focus,
        }
    }
}

/// The record of the client message `t`, which left the session as `s`.
pub open spec fn record_of(
    s: SessionView,
    t: json::Tree,
    methods: Seq<Seq<char>>,
    ts_unix_ms: u64,
) -> CaptureView {
    let cursor = snoop::cursor_of(t);
    CaptureView {
        ts_unix_ms,
        method: snoop::method_of(t),
        has_position: cursor is Some,
        uri: snoop::uri_of(t),
        line: match cursor {
            Some(p) => Some(p.line),
            None => None,
        },
        character: match cursor {
            Some(p) => Some(p.character),
            None => None,
        },
        version: version_of(t),
        is_trigger: snoop::method_of(t) is Some && methods.contains(snoop::method_of(t)->0),
        would_focus: focus_of(s, t, methods) is Some,
    }
}

impl Session {
    /// The record of a client message that this session has taken note of.
    pub fn capture(&self, value: &Json, config: &SnoopConfig, ts_unix_ms: u64) -> (r: CaptureRecord)
        ensures
            r@ == record_of(self@, value@, wire::strings_view(config.triggers@), ts_unix_ms),
    {
        let method: Option<&str> = json::get_text(Some(value), "method");
        let is_trigger: bool = match method {
            Some(method) => config.is_trigger(method),
            None => false,
        };
        let cursor: Option<Position> = snoop::cursor_in(value);
        let line: Option<u32> = match cursor {
            Some(p) => Some(p.line),
            None => None,
        };
        let character: Option<u32> = match cursor {
            Some(p) => Some(p.character),
            None => None,
        };
        CaptureRecord {
            ts_unix_ms,
            method: json::owned_text(method),
            has_position: cursor.is_some(),
            uri: json::owned_text(snoop::uri_in(value)),
            line,
            character,
            version: version_in(value),
            is_trigger,
            would_focus: self.focus(value, config).is_some(),
        }
    }
}

// ---------------------------------------------------------------------------
// What messages do
// ---------------------------------------------------------------------------

/// `t` gives its document this version.
pub open spec fn says_version(t: json::Tree, version: i32) -> bool {
    &&& t is Object
    &&& json::lookup(t->Object_0, "params"@) matches Some(params) && params is Object && (
    json::lookup(params->Object_0, "textDocument"@) matches Some(doc) && if version >= 0 {
        json::has(doc, "version"@, json::Tree::Number(json::Number::PosInt(version as u64)))
    } else {
        json::has(doc, "version"@, json::Tree::Number(json::Number::NegInt(version as i64)))
    })
}

/// `t` gives its document no version.
pub open spec fn says_no_version(t: json::Tree) -> bool {
    &&& t is Object
    &&& json::lookup(t->Object_0, "params"@) matches Some(params) && params is Object && (
    json::lookup(params->Object_0, "textDocument"@) matches Some(doc) && json::lacks(
        doc,
        "version"@,
    ))
}

proof fn lemma_lifecycle_methods_differ()
    ensures
        "initialized"@ != "textDocument/didOpen"@,
        "initialized"@ != "textDocument/didChange"@,
        "initialized"@ != "textDocument/didClose"@,
        "textDocument/didOpen"@ != "textDocument/didChange"@,
        "textDocument/didOpen"@ != "textDocument/didClose"@,
        "textDocument/didChange"@ != "textDocument/didClose"@,
{
    reveal_strlit("initialized");
    reveal_strlit("textDocument/didOpen");
    reveal_strlit("textDocument/didChange");
    reveal_strlit("textDocument/didClose");
    assert("initialized"@.len() == 11);
    assert("textDocument/didOpen"@.len() == 20);
    assert("textDocument/didChange"@.len() == 22);
    assert("textDocument/didClose"@.len() == 21);
}

/// A version is read exactly as it is written.
pub proof fn versions_read_back(t: json::Tree, version: i32)
    ensures
        says_version(t, version) ==> version_of(t) == Some(version),
        says_no_version(t) ==> version_of(t) is None,
{
    if says_version(t, version) && version >= 0 {
        assert((version as u64) as i64 == version);
    }
}

/// Opening a document opens it at its version, at 0 if it has none, whatever
/// was known of it before; changing it gives an open document its new version;
/// closing it closes it. No other document is touched, nor is the rest of the
/// session.
pub proof fn documents_come_and_go(
    s: SessionView,
    t: json::Tree,
    uri: Seq<char>,
    version: i32,
)
    requires
        snoop::says_document(t, uri),
    ensures
        ({
            let after = session_after(s, t);
            let opens = snoop::says_method(t, "textDocument/didOpen"@);
            let changes = snoop::says_method(t, "textDocument/didChange"@);
            let closes = snoop::says_method(t, "textDocument/didClose"@);
            &&& opens && says_version(t, version) ==> after.open.contains_key(uri)
                && after.open[uri] == version
            &&& opens && says_no_version(t) ==> after.open.contains_key(uri) && after.open[uri]
                == 0
            &&& changes && s.open.contains_key(uri) && says_version(t, version)
                ==> after.open.contains_key(uri) && after.open[uri] == version
            &&& changes && (!s.open.contains_key(uri) || says_no_version(t)) ==> after == s
            &&& closes ==> !after.open.contains_key(uri)
            &&& opens || changes || closes ==> after.initialized == s.initialized
            &&& opens || changes || closes ==> forall|u: Seq<char>|
                u != uri ==> {
                    &&& #[trigger] after.open.contains_key(u) == s.open.contains_key(u)
                    &&& s.open.contains_key(u) ==> after.open[u] == s.open[u]
                }
        }),
{
    versions_read_back(t, version);
    lemma_lifecycle_methods_differ();
}

/// `initialized` initializes the session and nothing else does; no message but
/// the four touches the session at all.
pub proof fn sessions_are_initialized_once(s: SessionView, t: json::Tree)
    ensures
        snoop::says_method(t, "initialized"@) ==> {
            &&& session_after(s, t).initialized
            &&& session_after(s, t).open == s.open
        },
        !snoop::says_method(t, "initialized"@) ==> session_after(s, t).initialized
            == s.initialized,
        !snoop::says_method(t, "initialized"@) && !snoop::says_method(t, "textDocument/didOpen"@)
            && !snoop::says_method(t, "textDocument/didChange"@) && !snoop::says_method(
            t,
            "textDocument/didClose"@,
        ) ==> session_after(s, t) == s,
{
    lemma_lifecycle_methods_differ();
}

/// A triggering message in an open document of an initialized session is the
/// focus: its document, at the version that the session has, and its position.
pub proof fn triggers_focus(
    s: SessionView,
    t: json::Tree,
    methods: Seq<Seq<char>>,
    method: Seq<char>,
    uri: Seq<char>,
    p: Position,
)
    requires
        snoop::says_method(t, method),
        methods.contains(method),
        snoop::says_document(t, uri),
        snoop::says_cursor(t, p),
    ensures
        s.initialized && s.open.contains_key(uri) ==> focus_of(s, t, methods) == Some(
            FocusView {
                doc: wire::DocRefView { uri, version: s.open[uri] },
                position: p,
            },
        ),
        !s.initialized || !s.open.contains_key(uri) ==> focus_of(s, t, methods) is None,
{
    snoop::cursors_are_observed_exactly(t, methods, method, uri, p);
}

/// An edit in an open document of an initialized session is the focus too, if
/// edits are no trigger of their own: at the start of the range that its last
/// change replaces. One that replaces the whole document is none.
pub proof fn edits_focus(
    s: SessionView,
    t: json::Tree,
    methods: Seq<Seq<char>>,
    uri: Seq<char>,
    changes: Seq<json::Tree>,
    range: json::Tree,
    r: wire::Range,
)
    requires
        snoop::says_method(t, "textDocument/didChange"@),
        !methods.contains("textDocument/didChange"@),
        snoop::says_document(t, uri),
        json::has(
            json::lookup(t->Object_0, "params"@)->0,
            "contentChanges"@,
            json::Tree::Array(changes),
        ),
        s.initialized,
        s.open.contains_key(uri),
    ensures
        changes.len() > 0 && json::has(changes.last(), "range"@, range) && json::says_range(
            range,
            r,
        ) ==> focus_of(s, t, methods) == Some(
            FocusView {
                doc: wire::DocRefView { uri, version: s.open[uri] },
                position: r.start,
            },
        ),
        changes.len() == 0 || json::lacks(changes.last(), "range"@) ==> focus_of(s, t, methods)
            is None,
{
    if json::says_range(range, r) {
        json::ranges_read_back(range, r);
    }
}

/// Nothing else is a focus: a message that neither triggers nor is an edit
/// produces none.
pub proof fn nothing_else_focuses(s: SessionView, t: json::Tree, methods: Seq<Seq<char>>)
    requires
        forall|m: Seq<char>| #[trigger] methods.contains(m) ==> !snoop::says_method(t, m),
        !snoop::says_method(t, "textDocument/didChange"@),
    ensures
        focus_of(s, t, methods) is None,
{
    snoop::only_what_is_said_is_observed(t, methods);
}

/// A capture record says of a message what it says: its method, document,
/// cursor and version, whether its method triggers, and whether it produced a
/// focus.
pub proof fn records_say_what_messages_say(
    s: SessionView,
    t: json::Tree,
    methods: Seq<Seq<char>>,
    ts: u64,
    method: Seq<char>,
    uri: Seq<char>,
    p: Position,
    version: i32,
)
    ensures
        ({
            let r = record_of(s, t, methods, ts);
            &&& r.ts_unix_ms == ts
            &&& snoop::says_method(t, method) ==> r.method == Some(method) && r.is_trigger
                == methods.contains(method)
            &&& json::lacks(t, "method"@) ==> r.method is None && !r.is_trigger
            &&& snoop::says_document(t, uri) ==> r.uri == Some(uri)
            &&& snoop::says_cursor(t, p) ==> r.has_position && r.line == Some(p.line)
                && r.character == Some(p.character)
            &&& json::lacks(t, "params"@) ==> !r.has_position && r.line is None && r.character
                is None && r.uri is None && r.version is None
            &&& says_version(t, version) ==> r.version == Some(version)
            &&& r.would_focus <==> focus_of(s, t, methods) is Some
        }),
{
    versions_read_back(t, version);
    if snoop::says_cursor(t, p) {
        let params = json::lookup(t->Object_0, "params"@)->0;
        json::positions_read_back(json::lookup(params->Object_0, "position"@)->0, p);
    }
}

} // verus!

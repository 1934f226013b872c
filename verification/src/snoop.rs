//! Best-effort reading of the client stream: the cursor position that a
//! request carries, the session as the client has set it up, and the focus
//! that goal queries are made for.
//!
//! Everything here works on a copy of a client frame, after it was forwarded.
//! An edit bumps the version of its document; its position is used only as a
//! fallback cursor.

use crate::json::{self, Json};
use crate::text;
use crate::wire::{self, Position};
use vstd::prelude::*;
use vstd::string::StringExecFns;

verus! {

// ---------------------------------------------------------------------------
// Triggers
// ---------------------------------------------------------------------------

/// The position-carrying methods that trigger goal queries by default.
pub open spec fn default_methods() -> Seq<Seq<char>> {
    seq![
        "textDocument/hover"@,
        "textDocument/completion"@,
        "textDocument/definition"@,
        "textDocument/references"@,
        "textDocument/documentHighlight"@,
        "textDocument/signatureHelp"@,
    ]
}

/// The method that a trigger names: a bare name stands for a method of
/// `textDocument/`; one with a slash is a full method name.
pub open spec fn trigger_method(name: Seq<char>) -> Seq<char> {
    if name.contains('/') {
        name
    } else {
        "textDocument/"@ + name
    }
}

/// The methods that the given triggers name; without any, the default ones.
pub open spec fn trigger_methods(names: Seq<Seq<char>>) -> Seq<Seq<char>> {
    if names.len() == 0 {
        default_methods()
    } else {
        names.map_values(|name: Seq<char>| trigger_method(name))
    }
}

/// The position-carrying methods that trigger goal queries by default.
pub fn default_triggers() -> (r: Vec<String>)
    ensures
        wire::strings_view(r@) == default_methods(),
{
    let mut r: Vec<String> = Vec::new();
    r.push("textDocument/hover".to_owned());
    r.push("textDocument/completion".to_owned());
    r.push("textDocument/definition".to_owned());
    r.push("textDocument/references".to_owned());
    r.push("textDocument/documentHighlight".to_owned());
    r.push("textDocument/signatureHelp".to_owned());
    assert(wire::strings_view(r@) =~= default_methods());
    r
}

fn has_slash(name: &str) -> (r: bool)
    ensures
        r == name@.contains('/'),
{
    let chars: Vec<char> = text::chars_of(name);
    let mut i: usize = 0;
    while i < chars.len()
        invariant
            i <= chars@.len(),
            chars@ == name@,
            forall|k: int| 0 <= k < i ==> chars@[k] != '/',
        decreases chars.len() - i,
    {
        if chars[i] == '/' {
            assert(name@[i as int] == '/');
            return true;
        }
        i = i + 1;
    }
    false
}

/// What the snoop watches for.
#[derive(Debug)]
pub struct SnoopConfig {
    /// The methods whose positions become the focus.
    pub triggers: Vec<String>,
}

impl SnoopConfig {
    /// The configuration that the given triggers ask for.
    pub fn new(names: &Vec<String>) -> (r: SnoopConfig)
        ensures
            wire::strings_view(r.triggers@) == trigger_methods(wire::strings_view(names@)),
    {
        if names.len() == 0 {
            return SnoopConfig { triggers: default_triggers() };
        }
        let mut triggers: Vec<String> = Vec::new();
        let mut i: usize = 0;
        while i < names.len()
            invariant
                i <= names@.len(),
                triggers@.len() == i,
                forall|k: int|
                    0 <= k < i ==> (#[trigger] triggers@[k])@ == trigger_method(names@[k]@),
            decreases names.len() - i,
        {
            let method: String = if has_slash(names[i].as_str()) {
                names[i].clone()
            } else {
                let mut full: String = "textDocument/".to_owned();
                full.append(names[i].as_str());
                full
            };
            triggers.push(method);
            i = i + 1;
        }
        assert(wire::strings_view(triggers@) =~= trigger_methods(wire::strings_view(names@)));
        SnoopConfig { triggers }
    }

    /// Whether `method` is in the trigger set.
    pub fn is_trigger(&self, method: &str) -> (r: bool)
        ensures
            r == wire::strings_view(self.triggers@).contains(method@),
    {
        let ghost methods = wire::strings_view(self.triggers@);
        let mut i: usize = 0;
        while i < self.triggers.len()
            invariant
                i <= self.triggers@.len(),
                methods == wire::strings_view(self.triggers@),
                forall|k: int| 0 <= k < i ==> methods[k] != method@,
            decreases self.triggers.len() - i,
        {
            if text::str_eq(self.triggers[i].as_str(), method) {
                assert(methods[i as int] == method@);
                return true;
            }
            i = i + 1;
        }
        false
    }
}

// ---------------------------------------------------------------------------
// Positions
// ---------------------------------------------------------------------------

/// A document and a position in it.
#[derive(Debug, Clone, PartialEq, Eq)]
pub struct Observed {
    pub uri: String,
    pub position: Position,
}

/// The value of an [`Observed`].
pub struct ObservedView {
    pub uri: Seq<char>,
    pub position: Position,
}

impl View for Observed {
    type V = ObservedView;

    open spec fn view(&self) -> ObservedView {
        ObservedView { uri: self.uri@, position: self.position }
    }
}

/// The value of an optional [`Observed`].
pub open spec fn opt_observed(o: Option<Observed>) -> Option<ObservedView> {
    match o {
        Some(o) => Some(o@),
        None => None,
    }
}

/// The method of a message.
pub open spec fn method_of(t: json::Tree) -> Option<Seq<char>> {
    json::member_text(Some(t), "method"@)
}

/// The URI in `params.textDocument` of a message.
pub open spec fn uri_of(t: json::Tree) -> Option<Seq<char>> {
    json::member_text(json::member(t.get("params"@), "textDocument"@), "uri"@)
}

/// The position in `params.position` of a message.
pub open spec fn cursor_of(t: json::Tree) -> Option<Position> {
    match json::member(t.get("params"@), "position"@) {
        Some(p) => json::position_of(p),
        None => None,
    }
}

/// What a message shows of the cursor, if its method is one of `methods`.
pub open spec fn observed_of(t: json::Tree, methods: Seq<Seq<char>>) -> Option<ObservedView> {
    match (method_of(t), uri_of(t), cursor_of(t)) {
        (Some(method), Some(uri), Some(position)) => if methods.contains(method) {
            Some(ObservedView { uri, position })
        } else {
            None
        },
        _ => None,
    }
}

/// The URI in `params.textDocument` of a message.
pub fn uri_in(value: &Json) -> (r: Option<&str>)
    ensures
        json::opt_text(r) == uri_of(value@),
{
    json::get_text(json::get_member(value.get("params"), "textDocument"), "uri")
}

/// The position in `params.position` of a message.
pub fn cursor_in(value: &Json) -> (r: Option<Position>)
    ensures
        r == cursor_of(value@),
{
    match json::get_member(value.get("params"), "position") {
        Some(p) => json::parse_position(p),
        None => None,
    }
}

/// Stateless classifier over client message bodies.
#[derive(Debug, Default, Clone, Copy)]
pub struct Snoop;

impl Snoop {
    /// Extract the URI and position if `body` is one of the position-carrying
    /// requests. `None` for anything else (including unparseable bytes).
    pub fn observe(&self, body: &[u8]) -> (r: Option<Observed>)
        ensures
            opt_observed(r) == match json::json_of(body@) {
                Some(t) => observed_of(t, default_methods()),
                None => None,
            },
    {
        match json::parse_json(body) {
            Some(value) => {
                let config: SnoopConfig = SnoopConfig { triggers: default_triggers() };
                observe_json(&value, &config)
            },
            None => None,
        }
    }
}

/// Extract the URI and position of a parsed message, if its method is in the
/// trigger set.
pub fn observe_json(value: &Json, config: &SnoopConfig) -> (r: Option<Observed>)
    ensures
        opt_observed(r) == observed_of(value@, wire::strings_view(config.triggers@)),
{
    let method: &str = json::get_text(Some(value), "method")?;
    if !config.is_trigger(method) {
        return None;
    }
    let uri: &str = uri_in(value)?;
    let position: Position = cursor_in(value)?;
    Some(Observed { uri: uri.to_owned(), position })
}

// ---------------------------------------------------------------------------
// Laws
// ---------------------------------------------------------------------------

/// `t` is a message with this method.
pub open spec fn says_method(t: json::Tree, method: Seq<char>) -> bool {
    json::has(t, "method"@, json::Tree::Str(method))
}

/// `t` is a message about this document: it stands in `params.textDocument`.
pub open spec fn says_document(t: json::Tree, uri: Seq<char>) -> bool {
    &&& t is Object
    &&& json::lookup(t->Object_0, "params"@) matches Some(params) && params is Object && (
    json::lookup(params->Object_0, "textDocument"@) matches Some(doc) && json::has(
        doc,
        "uri"@,
        json::Tree::Str(uri),
    ))
}

/// `t` is a message with this cursor: it stands in `params.position`.
pub open spec fn says_cursor(t: json::Tree, p: Position) -> bool {
    &&& t is Object
    &&& json::lookup(t->Object_0, "params"@) matches Some(params) && params is Object && (
    json::lookup(params->Object_0, "position"@) matches Some(at) && json::says_position(at, p))
}

/// A triggering message is observed as exactly the document and the position
/// that it names, for every document and all 32-bit coordinates.
pub proof fn cursors_are_observed_exactly(
    t: json::Tree,
    methods: Seq<Seq<char>>,
    method: Seq<char>,
    uri: Seq<char>,
    p: Position,
)
    requires
        says_method(t, method),
        methods.contains(method),
        says_document(t, uri),
        says_cursor(t, p),
    ensures
        observed_of(t, methods) == Some(ObservedView { uri, position: p }),
        cursor_of(t) == Some(p),
        uri_of(t) == Some(uri),
        method_of(t) == Some(method),
{
    let params = json::lookup(t->Object_0, "params"@)->0;
    json::positions_read_back(json::lookup(params->Object_0, "position"@)->0, p);
}

/// What is observed, a message has said: its method triggers, it names the
/// document, and its position is the one under `params.position`.
pub proof fn only_what_is_said_is_observed(t: json::Tree, methods: Seq<Seq<char>>)
    ensures
        observed_of(t, methods) matches Some(o) ==> {
            let params = json::lookup(t->Object_0, "params"@)->0;
            &&& exists|method: Seq<char>|
                says_method(t, method) && #[trigger] methods.contains(method)
            &&& says_document(t, o.uri)
            &&& json::lookup(params->Object_0, "position"@) matches Some(at) && json::position_of(
                at,
            ) == Some(o.position)
        },
{
    if observed_of(t, methods) is Some {
        let method = method_of(t)->0;
        assert(says_method(t, method) && methods.contains(method));
    }
}

/// The six default triggers, in their order.
pub proof fn default_triggers_are_spelled_out()
    ensures
        default_methods().len() == 6,
        default_methods()[0] == "textDocument/hover"@,
        default_methods()[1] == "textDocument/completion"@,
        default_methods()[2] == "textDocument/definition"@,
        default_methods()[3] == "textDocument/references"@,
        default_methods()[4] == "textDocument/documentHighlight"@,
        default_methods()[5] == "textDocument/signatureHelp"@,
{
}

/// Given triggers replace the default ones, one method for each name and in
/// their order; a name with a slash is taken as it is, a bare one is a method
/// of `textDocument/`. Without any the default ones stand.
pub proof fn triggers_name_methods(names: Seq<Seq<char>>, i: int)
    ensures
        names.len() == 0 ==> trigger_methods(names) == default_methods(),
        names.len() > 0 ==> trigger_methods(names).len() == names.len(),
        0 <= i < names.len() && names[i].contains('/') ==> trigger_methods(names)[i] == names[i],
        0 <= i < names.len() && !names[i].contains('/') ==> trigger_methods(names)[i]
            == "textDocument/"@ + names[i],
{
}

} // verus!

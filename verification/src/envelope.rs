//! A thin, best-effort parse of a JSON-RPC message: just enough to classify
//! it. Decoding failure is never fatal: [`Envelope::parse`] returns `None` and
//! the caller forwards verbatim.

use crate::json::{self, Json};
use vstd::prelude::*;

verus! {

/// A JSON-RPC request/response id. Lean and Helix use numeric ids; the proxy
/// injects string ids, so both shapes matter.
#[derive(Debug, Clone, PartialEq, Eq)]
pub enum Id {
    Num(i64),
    Str(String),
}

/// The value of an [`Id`].
pub enum IdView {
    Num(i64),
    Str(Seq<char>),
}

impl View for Id {
    type V = IdView;

    open spec fn view(&self) -> IdView {
        match self {
            Id::Num(n) => IdView::Num(*n),
            Id::Str(s) => IdView::Str(s@),
        }
    }
}

/// The classifying fields of a JSON-RPC message. Other fields are ignored.
#[derive(Debug, Clone, Default, PartialEq, Eq)]
pub struct Envelope {
    pub id: Option<Id>,
    pub method: Option<String>,
    pub has_result: bool,
    pub has_error: bool,
}

/// The value of an [`Envelope`].
pub struct EnvelopeView {
    pub id: Option<IdView>,
    pub method: Option<Seq<char>>,
    pub has_result: bool,
    pub has_error: bool,
}

impl View for Envelope {
    type V = EnvelopeView;

    open spec fn view(&self) -> EnvelopeView {
        EnvelopeView {
            id: match self.id {
                Some(id) => Some(id@),
                None => None,
            },
            method: match self.method {
                Some(m) => Some(m@),
                None => None,
            },
            has_result: self.has_result,
            has_error: self.has_error,
        }
    }
}

impl EnvelopeView {
    /// method, no id.
    pub open spec fn notification(self) -> bool {
        self.method is Some && self.id is None
    }

    /// method and id.
    pub open spec fn request(self) -> bool {
        self.method is Some && self.id is Some
    }

    /// id, no method.
    pub open spec fn response(self) -> bool {
        self.method is None && self.id is Some
    }
}

/// The id that a member `id` gives: an integer within 64 bits with sign, or
/// text. Anything else, `null` included, is no id.
pub open spec fn id_of(t: Option<json::Tree>) -> Option<IdView> {
    match t {
        Some(json::Tree::Number(n)) => match n.to_i64() {
            Some(n) => Some(IdView::Num(n)),
            None => None,
        },
        Some(json::Tree::Str(s)) => Some(IdView::Str(s)),
        _ => None,
    }
}

/// The classifying fields of a JSON value; `None` if it is not an object.
pub open spec fn envelope_of(t: json::Tree) -> Option<EnvelopeView> {
    if t is Object {
        Some(
            EnvelopeView {
                id: id_of(t.get("id"@)),
                method: json::member_text(Some(t), "method"@),
                has_result: t.get("result"@) is Some,
                has_error: t.get("error"@) is Some,
            },
        )
    } else {
        None
    }
}

/// The classifying fields of a message body; `None` if it is not a JSON object.
pub open spec fn body_envelope(body: Seq<u8>) -> Option<EnvelopeView> {
    match json::json_of(body) {
        Some(t) => envelope_of(t),
        None => None,
    }
}

/// The value of an optional [`Envelope`].
pub open spec fn opt_envelope(e: Option<Envelope>) -> Option<EnvelopeView> {
    match e {
        Some(e) => Some(e@),
        None => None,
    }
}

impl Envelope {
    /// Best-effort decode of a message body. `None` if the bytes are not a
    /// JSON object; the caller then forwards verbatim.
    pub fn parse(body: &[u8]) -> (r: Option<Envelope>)
        ensures
            opt_envelope(r) == body_envelope(body@),
    {
        match json::parse_json(body) {
            Some(j) => Envelope::of_json(&j),
            None => None,
        }
    }

    /// The classifying fields of a JSON value; `None` if it is not an object.
    pub fn of_json(value: &Json) -> (r: Option<Envelope>)
        ensures
            opt_envelope(r) == envelope_of(value@),
    {
        match value {
            Json::Object(_) => {},
            _ => return None,
        }
        let id: Option<Id> = match value.get("id") {
            Some(Json::Number(n)) => match Json::Number(*n).as_i64() {
                Some(n) => Some(Id::Num(n)),
                None => None,
            },
            Some(Json::Str(s)) => Some(Id::Str(s.clone())),
            _ => None,
        };
        let method: Option<String> = match json::get_text(Some(value), "method") {
            Some(m) => Some(m.to_owned()),
            None => None,
        };
        Some(
            Envelope {
                id,
                method,
                has_result: value.get("result").is_some(),
                has_error: value.get("error").is_some(),
            },
        )
    }

    /// method, no id.
    pub fn is_notification(&self) -> (r: bool)
        ensures
            r == self@.notification(),
    {
        self.method.is_some() && self.id.is_none()
    }

    /// method and id (a request, in either direction).
    pub fn is_request(&self) -> (r: bool)
        ensures
            r == self@.request(),
    {
        self.method.is_some() && self.id.is_some()
    }

    /// id, no method (a response to some earlier request).
    pub fn is_response(&self) -> (r: bool)
        ensures
            r == self@.response(),
    {
        self.method.is_none() && self.id.is_some()
    }
}

/// A message is at most one of notification, request and response, and it is
/// none of them exactly if it has neither a method nor an id.
pub proof fn shapes_are_exclusive(e: EnvelopeView)
    ensures
        !(e.notification() && e.request()),
        !(e.notification() && e.response()),
        !(e.request() && e.response()),
        (e.notification() || e.request() || e.response()) == (e.method is Some || e.id is Some),
{
}

/// Every JSON object is classified, whatever else it holds: its id is the text
/// or the integer under `id`, its method the text under `method`, and `result`
/// and `error` count by presence. Nothing else is classified.
pub proof fn every_object_is_classified(t: json::Tree)
    ensures
        envelope_of(t) is Some <==> t is Object,
        t matches json::Tree::Object(entries) ==> {
            let e = envelope_of(t)->0;
            let id = json::lookup(entries, "id"@);
            let method = json::lookup(entries, "method"@);
            &&& id matches Some(json::Tree::Str(i)) ==> e.id == Some(IdView::Str(i))
            &&& id matches Some(json::Tree::Number(json::Number::NegInt(n))) ==> e.id == Some(
                IdView::Num(n),
            )
            &&& id matches Some(json::Tree::Number(json::Number::PosInt(n))) ==> (if n
                <= 0x7fff_ffff_ffff_ffff {
                e.id is Some && (e.id->0 matches IdView::Num(m) && m == n)
            } else {
                e.id is None
            })
            &&& id matches Some(json::Tree::Number(json::Number::Float)) ==> e.id is None
            &&& !(id matches Some(json::Tree::Str(_))) && !(id matches Some(
                json::Tree::Number(_),
            )) ==> e.id is None
            &&& method matches Some(json::Tree::Str(m)) ==> e.method == Some(m)
            &&& !(method matches Some(json::Tree::Str(_))) ==> e.method is None
            &&& e.has_result <==> json::lookup(entries, "result"@) is Some
            &&& e.has_error <==> json::lookup(entries, "error"@) is Some
        },
{
}

/// The shapes: a response has an id and no method, a request both, and a
/// notification a method only.
pub proof fn shapes_by_id_and_method(e: EnvelopeView)
    ensures
        e.response() <==> e.id is Some && e.method is None,
        e.request() <==> e.id is Some && e.method is Some,
        e.notification() <==> e.id is None && e.method is Some,
{
}

/// A body is classified by the value it parses to, and not at all if it does
/// not parse.
pub proof fn bodies_are_classified_by_value(body: Seq<u8>)
    ensures
        json::json_of(body) matches Some(t) ==> body_envelope(body) == envelope_of(t),
        json::json_of(body) is None ==> body_envelope(body) is None,
{
}

/// An object with a text id and no method is a response to that id, whatever
/// its other members are: a result or an error of any shape, both or neither.
pub proof fn text_id_without_method_is_a_response(t: json::Tree, id: Seq<char>)
    requires
        json::has(t, "id"@, json::Tree::Str(id)),
        json::lacks(t, "method"@),
    ensures
        envelope_of(t) matches Some(e) && e.response() && e.id == Some(IdView::Str(id)),
{
}

} // verus!

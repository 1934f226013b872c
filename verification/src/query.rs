//! The goal querier: injects `$/lean/plainGoal` and `$/lean/plainTermGoal`
//! into the Lean stream and tracks the ids it issues so that their responses
//! can be intercepted and never leak to Helix.

use crate::codec::{self, Frame};
use crate::envelope;
use crate::json::{self, Json};
use crate::state::{self, StateHandle};
use crate::strmap::StrMap;
use crate::text;
use crate::wire::{self, DocRef, Position, Snapshot};
use serde_json::Value;
use tokio::sync::mpsc;
use vstd::prelude::*;
use vstd::string::StringExecFns;

verus! {

/// Prefix on every injected id. Interception is by exact match against
/// [`InjectedIds`], so the prefix is a convenience: a stray client id sharing
/// it still cannot be misrouted.
pub const INJECT_PREFIX: &'static str = "lhv-q";

/// Which goal query an injected request makes.
#[derive(Debug, Clone, Copy, PartialEq, Eq, Structural)]
pub enum QueryKind {
    PlainGoal,
    PlainTermGoal,
}

/// What an outstanding injected id is waiting for, so that its response can be
/// interpreted (responses carry only `id` + `result`, never the method).
#[derive(Debug, Clone)]
pub struct Pending {
    pub kind: QueryKind,
    pub doc: DocRef,
    pub position: Position,
}

/// The outstanding injected ids: the querier inserts, the server→client pump
/// matches and removes.
pub type InjectedIds = StrMap<Pending>;

// ---------------------------------------------------------------------------
// Requests
// ---------------------------------------------------------------------------

/// The LSP method of a query.
pub open spec fn query_method(kind: QueryKind) -> Seq<char> {
    match kind {
        QueryKind::PlainGoal => "$/lean/plainGoal"@,
        QueryKind::PlainTermGoal => "$/lean/plainTermGoal"@,
    }
}

/// The id with this number.
pub open spec fn injected_id(n: u64) -> Seq<char> {
    INJECT_PREFIX@ + text::decimal(n as nat)
}

/// The JSON-RPC request of a query.
pub open spec fn query_tree(
    id: Seq<char>,
    kind: QueryKind,
    uri: Seq<char>,
    position: Position,
) -> json::Tree {
    json::Tree::Object(
        seq![
            ("id"@, json::Tree::Str(id)),
            ("jsonrpc"@, json::Tree::Str("2.0"@)),
            ("method"@, json::Tree::Str(query_method(kind))),
            (
                "params"@,
                json::Tree::Object(
                    seq![
                        (
                            "position"@,
                            json::Tree::Object(
                                seq![
                                    (
                                        "character"@,
                                        json::Tree::Number(
                                            json::Number::PosInt(position.character as u64),
                                        ),
                                    ),
                                    (
                                        "line"@,
                                        json::Tree::Number(
                                            json::Number::PosInt(position.line as u64),
                                        ),
                                    ),
                                ],
                            ),
                        ),
                        (
                            "textDocument"@,
                            json::Tree::Object(seq![("uri"@, json::Tree::Str(uri))]),
                        ),
                    ],
                ),
            ),
        ],
    )
}

/// The envelope of a query: a request with its id and method.
pub open spec fn query_envelope(id: Seq<char>, kind: QueryKind) -> envelope::EnvelopeView {
    envelope::EnvelopeView {
        id: Some(envelope::IdView::Str(id)),
        method: Some(query_method(kind)),
        has_result: false,
        has_error: false,
    }
}

proof fn lemma_query_keys()
    ensures
        json::key_before("id"@, "jsonrpc"@),
        json::key_before("id"@, "method"@),
        json::key_before("id"@, "params"@),
        json::key_before("jsonrpc"@, "method"@),
        json::key_before("jsonrpc"@, "params"@),
        json::key_before("method"@, "params"@),
        json::key_before("position"@, "textDocument"@),
        json::key_before("character"@, "line"@),
{
    reveal_strlit("id");
    reveal_strlit("jsonrpc");
    reveal_strlit("method");
    reveal_strlit("params");
    reveal_strlit("position");
    reveal_strlit("textDocument");
    reveal_strlit("character");
    reveal_strlit("line");
}

/// A query's request is recognised by its own reader: it is a request with the
/// query's id and method, and names the document and the position.
pub proof fn query_is_a_request(id: Seq<char>, kind: QueryKind, uri: Seq<char>, position: Position)
    ensures
        envelope::envelope_of(query_tree(id, kind, uri, position)) == Some(
            query_envelope(id, kind),
        ),
        query_envelope(id, kind).request(),
        ({
            let params = query_tree(id, kind, uri, position).get("params"@);
            &&& json::member_text(json::member(params, "textDocument"@), "uri"@) == Some(uri)
            &&& json::member(params, "position"@) is Some
            &&& json::position_of(json::member(params, "position"@)->0) == Some(position)
        }),
{
    reveal_strlit("id");
    reveal_strlit("jsonrpc");
    reveal_strlit("method");
    reveal_strlit("params");
    reveal_strlit("position");
    reveal_strlit("textDocument");
    reveal_strlit("character");
    reveal_strlit("line");
    reveal_strlit("uri");
    reveal_strlit("result");
    reveal_strlit("error");
    let message = query_tree(id, kind, uri, position)->Object_0;
    let params = message[3].1->Object_0;
    let at = params[0].1->Object_0;
    assert("error"@.len() == 5 && "id"@.len() == 2 && "jsonrpc"@.len() == 7);
    assert("method"@.len() == 6 && "params"@.len() == 6 && "result"@.len() == 6);
    assert("position"@.len() == 8 && "textDocument"@.len() == 12);
    assert("character"@.len() == 9 && "line"@.len() == 4);
    assert("method"@[0] != "params"@[0]);
    assert("method"@[0] != "result"@[0]);
    assert("params"@[0] != "result"@[0]);
    json::lookup_finds(message, 0);
    json::lookup_finds(message, 2);
    json::lookup_finds(message, 3);
    json::lookup_misses(message, "result"@);
    json::lookup_misses(message, "error"@);
    json::lookup_finds(params, 0);
    json::lookup_finds(params, 1);
    json::lookup_finds(params[1].1->Object_0, 0);
    json::lookup_finds(at, 0);
    json::lookup_finds(at, 1);
    assert(json::low32(position.line as u64) == position.line);
    assert(json::low32(position.character as u64) == position.character);
}

/// The body of a query's request.
fn query_body(id: &str, kind: QueryKind, uri: &str, position: Position) -> (body: Vec<u8>)
    ensures
        body@ == json::json_bytes(query_tree(id@, kind, uri@, position)),
        json::json_of(body@) == Some(query_tree(id@, kind, uri@, position)),
{
    proof {
        lemma_query_keys();
    }
    let method: &str = match kind {
        QueryKind::PlainGoal => "$/lean/plainGoal",
        QueryKind::PlainTermGoal => "$/lean/plainTermGoal",
    };
    let mut at: Vec<(String, Value)> = Vec::new();
    at.push(("character".to_owned(), json::number_value(position.character as u64)));
    at.push(("line".to_owned(), json::number_value(position.line as u64)));
    let position_value: Value = json::object_value(at);

    let mut document: Vec<(String, Value)> = Vec::new();
    document.push(("uri".to_owned(), json::text_value(uri)));
    let document_value: Value = json::object_value(document);

    let mut params: Vec<(String, Value)> = Vec::new();
    params.push(("position".to_owned(), position_value));
    params.push(("textDocument".to_owned(), document_value));
    let params_value: Value = json::object_value(params);

    let mut message: Vec<(String, Value)> = Vec::new();
    message.push(("id".to_owned(), json::text_value(id)));
    message.push(("jsonrpc".to_owned(), json::text_value("2.0")));
    message.push(("method".to_owned(), json::text_value(method)));
    message.push(("params".to_owned(), params_value));
    let value: Value = json::object_value(message);
    proof {
        let t = query_tree(id@, kind, uri@, position);
        let p = t->Object_0[3].1;
        assert(json::value_tree(position_value)->Object_0 =~= p->Object_0[0].1->Object_0);
        assert(json::value_tree(document_value)->Object_0 =~= p->Object_0[1].1->Object_0);
        assert(json::value_tree(params_value)->Object_0 =~= p->Object_0);
        assert(json::value_tree(value)->Object_0 =~= t->Object_0);
        reveal_with_fuel(json::Tree::bounded, 5);
    }
    json::print_value(&value)
}

/// `tokio::sync::mpsc::Sender`, opaque here.
#[verifier::external_type_specification]
#[verifier::external_body]
#[verifier::reject_recursive_types(T)]
pub struct ExMpscSender<T>(mpsc::Sender<T>);

/// The frames that a channel has taken from this sender so far.
pub uninterp spec fn queued(tx: mpsc::Sender<Frame>) -> Seq<codec::FrameView>;

/// `tokio::sync::mpsc::error::TrySendError`, opaque here.
#[verifier::external_type_specification]
#[verifier::external_body]
#[verifier::reject_recursive_types(T)]
pub struct ExTrySendError<T>(mpsc::error::TrySendError<T>);

/// The frame that a channel gives back when it refuses it.
pub uninterp spec fn given_back(e: mpsc::error::TrySendError<Frame>) -> codec::FrameView;

/// What a channel answers to a frame that is offered to it: it takes the
/// frame, or gives it back.
pub type Answer = Result<(), mpsc::error::TrySendError<Frame>>;

/// `mpsc::Sender::try_send`: offer a frame to the channel without waiting. The
/// channel takes it, or gives it back in the error. Which of the two happens
/// depends on how much room the receiving task has left, and is not stated.
#[verifier::external_body]
fn try_send(tx: &mut mpsc::Sender<Frame>, frame: Frame) -> (answer: Answer)
    ensures
        match answer {
            Ok(_) => queued(*final(tx)) == queued(*old(tx)).push(frame@),
            Err(e) => given_back(e) == frame@ && queued(*final(tx)) == queued(*old(tx)),
        },
{
    tx.try_send(frame)
}

/// Whether `answer` can be what a channel answered to `frame`.
pub open spec fn answers(answer: Answer, frame: codec::FrameView) -> bool {
    match answer {
        Ok(_) => true,
        Err(e) => given_back(e) == frame,
    }
}

/// Whether `answer` are what a channel answered to the two frames of a request.
pub open spec fn request_answered(
    n: u64,
    uri: Seq<char>,
    position: Position,
    answer: (Answer, Answer),
) -> bool {
    &&& answers(answer.0, query_frame(n, QueryKind::PlainGoal, uri, position))
    &&& answers(answer.1, query_frame(next_number(n), QueryKind::PlainTermGoal, uri, position))
}

/// Which of the two frames of a request were taken.
pub open spec fn taken(answer: (Answer, Answer)) -> (bool, bool) {
    (answer.0 is Ok, answer.1 is Ok)
}

/// Issues goal queries and registers their ids.
pub struct Querier {
    to_lean: mpsc::Sender<Frame>,
    next: u64,
}

/// The number after `n`, wrapping.
pub open spec fn next_number(n: u64) -> u64 {
    if n == u64::MAX {
        0
    } else {
        (n + 1) as u64
    }
}

/// The ids outstanding after the query `id` was registered, and then dropped
/// again if it could not be sent.
pub open spec fn settled(
    injected: Map<Seq<char>, Pending>,
    id: Seq<char>,
    pending: Pending,
    sent: bool,
) -> Map<Seq<char>, Pending> {
    if sent {
        injected.insert(id, pending)
    } else {
        injected.remove(id)
    }
}

/// The ids outstanding after both queries, given which of them were sent.
pub open spec fn requested(
    injected: Map<Seq<char>, Pending>,
    n: u64,
    doc: DocRef,
    position: Position,
    sent: (bool, bool),
) -> Map<Seq<char>, Pending> {
    settled(
        settled(
            injected,
            injected_id(n),
            Pending { kind: QueryKind::PlainGoal, doc, position },
            sent.0,
        ),
        injected_id(next_number(n)),
        Pending { kind: QueryKind::PlainTermGoal, doc, position },
        sent.1,
    )
}

/// The ids that a request reports, given which of its queries were sent.
pub open spec fn reported(n: u64, sent: (bool, bool)) -> Seq<Seq<char>> {
    (if sent.0 {
        seq![injected_id(n)]
    } else {
        Seq::empty()
    }) + (if sent.1 {
        seq![injected_id(next_number(n))]
    } else {
        Seq::empty()
    })
}

/// The frame of the query with this number.
pub open spec fn query_frame(
    n: u64,
    kind: QueryKind,
    uri: Seq<char>,
    position: Position,
) -> codec::FrameView {
    codec::canonical_frame(json::json_bytes(query_tree(injected_id(n), kind, uri, position)))
}

/// The frames that a request sends, given which of its queries were taken.
pub open spec fn sent_frames(
    n: u64,
    uri: Seq<char>,
    position: Position,
    sent: (bool, bool),
) -> Seq<codec::FrameView> {
    (if sent.0 {
        seq![query_frame(n, QueryKind::PlainGoal, uri, position)]
    } else {
        Seq::empty()
    }) + (if sent.1 {
        seq![query_frame(next_number(n), QueryKind::PlainTermGoal, uri, position)]
    } else {
        Seq::empty()
    })
}

impl Querier {
    /// The frames sent so far.
    pub closed spec fn queued(self) -> Seq<codec::FrameView> {
        queued(self.to_lean)
    }

    /// The number of the next id.
    pub closed spec fn next(self) -> u64 {
        self.next
    }

    /// A querier that sends on `to_lean`.
    pub fn new(to_lean: mpsc::Sender<Frame>) -> (r: Querier)
        ensures
            r.next() == 0,
            r.queued() == queued(to_lean),
    {
        Querier { to_lean, next: 0 }
    }

    /// Inject both goal queries for a position, returning the ids registered.
    ///
    /// Both are offered to the to-Lean channel. Best-effort: one that the
    /// channel gives back, since it is full, is dropped (a newer one will
    /// supersede it) rather than waited for, and its id is forgotten, so that no
    /// response to it is awaited.
    pub fn request(&mut self, injected: &mut InjectedIds, doc: DocRef, position: Position) -> (ids:
        Vec<String>)
        ensures
            exists|answer: (Answer, Answer)|
                {
                    &&& #[trigger] request_answered(
                        old(self).next(),
                        doc.uri@,
                        position,
                        answer,
                    )
                    &&& wire::strings_view(ids@) == reported(old(self).next(), taken(answer))
                    &&& final(injected)@ == requested(
                        old(injected)@,
                        old(self).next(),
                        doc,
                        position,
                        taken(answer),
                    )
                    &&& final(self).queued() == old(self).queued() + sent_frames(
                        old(self).next(),
                        doc.uri@,
                        position,
                        taken(answer),
                    )
                },
            final(self).next() == next_number(next_number(old(self).next())),
    {
        let mut ids: Vec<String> = Vec::new();
        let ghost n = self.next;
        let (id, frame): (String, Frame) = self.register(
            injected,
            QueryKind::PlainGoal,
            &doc,
            position,
        );
        let first: Answer = try_send(&mut self.to_lean, frame);
        settle(injected, &mut ids, id, first.is_ok());
        let (id, frame): (String, Frame) = self.register(
            injected,
            QueryKind::PlainTermGoal,
            &doc,
            position,
        );
        let second: Answer = try_send(&mut self.to_lean, frame);
        settle(injected, &mut ids, id, second.is_ok());
        proof {
            let answer = (first, second);
            let sent = taken(answer);
            assert(request_answered(n, doc.uri@, position, answer));
            assert(reported(n, sent) =~= wire::strings_view(ids@));
            assert(injected@ =~= requested(old(injected)@, n, doc, position, sent));
            assert(self.queued() =~= old(self).queued() + sent_frames(n, doc.uri@, position, sent));
        }
        ids
    }

    /// Take a fresh id for a query, register it, and give the frame to send.
    pub fn register(
        &mut self,
        injected: &mut InjectedIds,
        kind: QueryKind,
        doc: &DocRef,
        position: Position,
    ) -> (r: (String, Frame))
        ensures
            r.0@ == injected_id(old(self).next()),
            r.1@ == query_frame(old(self).next(), kind, doc.uri@, position),
            json::json_of(r.1@.body()) == Some(query_tree(r.0@, kind, doc.uri@, position)),
            envelope::body_envelope(r.1@.body()) == Some(query_envelope(r.0@, kind)),
            final(injected)@ == old(injected)@.insert(
                r.0@,
                Pending { kind, doc: *doc, position },
            ),
            final(self).next() == next_number(old(self).next()),
            final(self).queued() == old(self).queued(),
    {
        let id: String = self.fresh_id();
        let body: Vec<u8> = query_body(id.as_str(), kind, doc.uri.as_str(), position);
        let frame: Frame = Frame::from_body(body.as_slice());
        injected.insert(id.clone(), Pending { kind, doc: doc.clone(), position });
        proof {
            query_is_a_request(id@, kind, doc.uri@, position);
            assert(codec::canonical_frame(body@).body() =~= body@);
        }
        (id, frame)
    }

    fn fresh_id(&mut self) -> (id: String)
        ensures
            id@ == injected_id(old(self).next()),
            final(self).next() == next_number(old(self).next()),
            final(self).queued() == old(self).queued(),
    {
        let n: u64 = self.next;
        self.next = if n == u64::MAX {
            0
        } else {
            n + 1
        };
        let mut id: String = INJECT_PREFIX.to_owned();
        id.append(text::decimal_string(n).as_str());
        id
    }
}

/// What a send has come to: the id of a query that was sent is reported; that
/// of one that was not is forgotten, so that a stray response is not eaten.
pub fn settle(injected: &mut InjectedIds, ids: &mut Vec<String>, id: String, sent: bool)
    ensures
        sent ==> final(injected)@ == old(injected)@ && final(ids)@ == old(ids)@.push(id),
        !sent ==> final(injected)@ == old(injected)@.remove(id@) && final(ids)@ == old(ids)@,
{
    if sent {
        ids.push(id);
    } else {
        injected.remove(id.as_str());
    }
}

/// Ids with different numbers are different, so an id is issued again only
/// once the counter has wrapped.
pub proof fn ids_are_distinct(m: u64, n: u64)
    ensures
        injected_id(m) == injected_id(n) ==> m == n,
{
    if injected_id(m) == injected_id(n) {
        let k = INJECT_PREFIX@.len() as int;
        assert(injected_id(m).skip(k) =~= text::decimal(m as nat));
        assert(injected_id(n).skip(k) =~= text::decimal(n as nat));
        text::lemma_decimal_injective(m as nat, n as nat);
    }
}

/// A request registers exactly the ids it reports: each of its two ids is
/// outstanding afterwards if and only if its query was sent, with what the
/// response is for; every other id is as it was.
pub proof fn request_registers_what_it_reports(
    injected: Map<Seq<char>, Pending>,
    n: u64,
    doc: DocRef,
    position: Position,
    sent: (bool, bool),
)
    ensures
        ({
            let after = requested(injected, n, doc, position, sent);
            let goal = injected_id(n);
            let term = injected_id(next_number(n));
            &&& goal != term
            &&& after.contains_key(goal) == sent.0
            &&& reported(n, sent).contains(goal) == sent.0
            &&& after.contains_key(term) == sent.1
            &&& reported(n, sent).contains(term) == sent.1
            &&& sent.0 ==> after[goal] == (Pending { kind: QueryKind::PlainGoal, doc, position })
            &&& sent.1 ==> after[term] == (Pending {
                kind: QueryKind::PlainTermGoal,
                doc,
                position,
            })
            &&& forall|id: Seq<char>|
                id != goal && id != term ==> {
                    &&& #[trigger] after.contains_key(id) == injected.contains_key(id)
                    &&& after.contains_key(id) ==> after[id] == injected[id]
                }
        }),
{
    ids_are_distinct(n, next_number(n));
    let goal = injected_id(n);
    let term = injected_id(next_number(n));
    let ids = reported(n, sent);
    if sent.0 {
        assert(ids[0] == goal);
    }
    if sent.1 {
        assert(ids[ids.len() - 1] == term);
    }
}

/// One request of a run, with what the channel made of its two queries.
pub struct Ask {
    pub doc: DocRef,
    pub position: Position,
    pub sent: (bool, bool),
}

/// One query that was sent.
pub struct SentQuery {
    pub number: u64,
    pub kind: QueryKind,
    pub doc: DocRef,
    pub position: Position,
}

/// The number of the next id after a run of requests.
pub open spec fn run_next(n: u64, asks: Seq<Ask>) -> u64
    decreases asks.len(),
{
    if asks.len() == 0 {
        n
    } else {
        next_number(next_number(run_next(n, asks.drop_last())))
    }
}

/// The ids that the requests of a run return, one after the other.
pub open spec fn run_ids(n: u64, asks: Seq<Ask>) -> Seq<Seq<char>>
    decreases asks.len(),
{
    if asks.len() == 0 {
        Seq::empty()
    } else {
        run_ids(n, asks.drop_last()) + reported(run_next(n, asks.drop_last()), asks.last().sent)
    }
}

/// The frames that the requests of a run send, one after the other.
pub open spec fn run_frames(n: u64, asks: Seq<Ask>) -> Seq<codec::FrameView>
    decreases asks.len(),
{
    if asks.len() == 0 {
        Seq::empty()
    } else {
        let ask = asks.last();
        run_frames(n, asks.drop_last()) + sent_frames(
            run_next(n, asks.drop_last()),
            ask.doc.uri@,
            ask.position,
            ask.sent,
        )
    }
}

/// The ids outstanding after a run of requests.
pub open spec fn run_injected(
    injected: Map<Seq<char>, Pending>,
    n: u64,
    asks: Seq<Ask>,
) -> Map<Seq<char>, Pending>
    decreases asks.len(),
{
    if asks.len() == 0 {
        injected
    } else {
        let ask = asks.last();
        requested(
            run_injected(injected, n, asks.drop_last()),
            run_next(n, asks.drop_last()),
            ask.doc,
            ask.position,
            ask.sent,
        )
    }
}

/// The queries that a request with this number sends.
pub open spec fn ask_queries(n: u64, ask: Ask) -> Seq<SentQuery> {
    (if ask.sent.0 {
        seq![
            SentQuery {
                number: n,
                kind: QueryKind::PlainGoal,
                doc: ask.doc,
                position: ask.position,
            },
        ]
    } else {
        Seq::empty()
    }) + (if ask.sent.1 {
        seq![
            SentQuery {
                number: next_number(n),
                kind: QueryKind::PlainTermGoal,
                doc: ask.doc,
                position: ask.position,
            },
        ]
    } else {
        Seq::empty()
    })
}

/// The queries that the requests of a run send, one after the other.
pub open spec fn run_queries(n: u64, asks: Seq<Ask>) -> Seq<SentQuery>
    decreases asks.len(),
{
    if asks.len() == 0 {
        Seq::empty()
    } else {
        run_queries(n, asks.drop_last()) + ask_queries(
            run_next(n, asks.drop_last()),
            asks.last(),
        )
    }
}

/// The id of a query.
pub open spec fn query_id(q: SentQuery) -> Seq<char> {
    injected_id(q.number)
}

/// A request of which nothing was sent reports nothing, sends nothing, and
/// leaves the outstanding ids as they were.
pub proof fn refused_request_changes_nothing(
    injected: Map<Seq<char>, Pending>,
    n: u64,
    doc: DocRef,
    position: Position,
)
    requires
        !injected.contains_key(injected_id(n)),
        !injected.contains_key(injected_id(next_number(n))),
    ensures
        reported(n, (false, false)) == Seq::<Seq<char>>::empty(),
        sent_frames(n, doc.uri@, position, (false, false)) == Seq::<codec::FrameView>::empty(),
        requested(injected, n, doc, position, (false, false)) == injected,
{
    assert(reported(n, (false, false)) =~= Seq::<Seq<char>>::empty());
    assert(sent_frames(n, doc.uri@, position, (false, false)) =~= Seq::<
        codec::FrameView,
    >::empty());
    assert(requested(injected, n, doc, position, (false, false)) =~= injected);
}

/// Over any run of requests, until the counter wraps: each id that a request
/// returns is that of a query that it sent, in exactly one frame; all of them
/// begin with the prefix, and none is returned twice. If none of the numbers
/// to come was outstanding before, the ids outstanding afterwards are those
/// returned, each with what its request was for, and those outstanding before,
/// as they were.
pub proof fn requests_register_what_they_return(
    injected: Map<Seq<char>, Pending>,
    n: u64,
    asks: Seq<Ask>,
)
    requires
        n + 2 * asks.len() <= u64::MAX + 1,
        forall|k: u64| n <= k ==> !injected.contains_key(#[trigger] injected_id(k)),
    ensures
        ({
            let queries = run_queries(n, asks);
            let ids = run_ids(n, asks);
            let after = run_injected(injected, n, asks);
            &&& ids == queries.map_values(|q: SentQuery| query_id(q))
            &&& run_frames(n, asks) == queries.map_values(
                |q: SentQuery| query_frame(q.number, q.kind, q.doc.uri@, q.position),
            )
            &&& ids.no_duplicates()
            &&& forall|k: int|
                0 <= k < ids.len() ==> INJECT_PREFIX@.is_prefix_of(#[trigger] ids[k])
            &&& forall|id: Seq<char>| #[trigger]
                after.contains_key(id) <==> injected.contains_key(id) || ids.contains(id)
            &&& forall|id: Seq<char>| #[trigger]
                injected.contains_key(id) ==> after[id] == injected[id]
            &&& forall|k: int|
                0 <= k < queries.len() ==> after[query_id(#[trigger] queries[k])] == (Pending {
                    kind: queries[k].kind,
                    doc: queries[k].doc,
                    position: queries[k].position,
                })
        }),
{
    lemma_run_numbers(n, asks);
    lemma_run_lists(n, asks);
    lemma_run_injected(injected, n, asks);
    let queries = run_queries(n, asks);
    let ids = run_ids(n, asks);
    assert forall|k: int| 0 <= k < ids.len() implies INJECT_PREFIX@.is_prefix_of(
        #[trigger] ids[k],
    ) by {
        assert(ids[k] == query_id(queries[k]));
        assert(INJECT_PREFIX@ =~= ids[k].subrange(0, INJECT_PREFIX@.len() as int));
    }
    assert forall|i: int, j: int| 0 <= i < j < ids.len() implies ids[i] != ids[j] by {
        assert(ids[i] == query_id(queries[i]) && ids[j] == query_id(queries[j]));
        ids_are_distinct(queries[i].number, queries[j].number);
    }
}

/// The numbers of a run ascend, without a gap between requests.
proof fn lemma_run_numbers(n: u64, asks: Seq<Ask>)
    requires
        n + 2 * asks.len() <= u64::MAX + 1,
    ensures
        n + 2 * asks.len() <= u64::MAX ==> run_next(n, asks) == n + 2 * asks.len(),
        forall|k: int|
            0 <= k < run_queries(n, asks).len() ==> n <= (#[trigger] run_queries(
                n,
                asks,
            )[k]).number < n + 2 * asks.len(),
        forall|i: int, j: int|
            0 <= i < j < run_queries(n, asks).len() ==> (#[trigger] run_queries(n, asks)[i]).number
                < (#[trigger] run_queries(n, asks)[j]).number,
    decreases asks.len(),
{
    if asks.len() > 0 {
        let before = asks.drop_last();
        lemma_run_numbers(n, before);
        let c = run_next(n, before);
        assert(c == n + 2 * before.len());
        assert(next_number(c) == c + 1);
        let old_queries = run_queries(n, before);
        let last_queries = ask_queries(c, asks.last());
        let queries = run_queries(n, asks);
        assert(queries =~= old_queries + last_queries);
        assert forall|k: int| 0 <= k < queries.len() implies n <= (#[trigger] queries[k]).number < n
            + 2 * asks.len() by {
            if k < old_queries.len() {
                assert(queries[k] == old_queries[k]);
            } else {
                assert(queries[k] == last_queries[k - old_queries.len()]);
            }
        }
        assert forall|i: int, j: int| 0 <= i < j < queries.len() implies (
        #[trigger] queries[i]).number < (#[trigger] queries[j]).number by {
            if j < old_queries.len() {
                assert(queries[i] == old_queries[i] && queries[j] == old_queries[j]);
            } else {
                assert(queries[j] == last_queries[j - old_queries.len()]);
                if i < old_queries.len() {
                    assert(queries[i] == old_queries[i]);
                } else {
                    assert(queries[i] == last_queries[i - old_queries.len()]);
                }
            }
        }
    }
}

/// The ids and the frames of a run are those of its queries.
proof fn lemma_run_lists(n: u64, asks: Seq<Ask>)
    ensures
        run_ids(n, asks) == run_queries(n, asks).map_values(|q: SentQuery| query_id(q)),
        run_frames(n, asks) == run_queries(n, asks).map_values(
            |q: SentQuery| query_frame(q.number, q.kind, q.doc.uri@, q.position),
        ),
    decreases asks.len(),
{
    if asks.len() > 0 {
        let before = asks.drop_last();
        lemma_run_lists(n, before);
    }
    assert(run_ids(n, asks) =~= run_queries(n, asks).map_values(|q: SentQuery| query_id(q)));
    assert(run_frames(n, asks) =~= run_queries(n, asks).map_values(
        |q: SentQuery| query_frame(q.number, q.kind, q.doc.uri@, q.position),
    ));
}

/// The ids outstanding after a run.
proof fn lemma_run_injected(injected: Map<Seq<char>, Pending>, n: u64, asks: Seq<Ask>)
    requires
        n + 2 * asks.len() <= u64::MAX + 1,
        forall|k: u64| n <= k ==> !injected.contains_key(#[trigger] injected_id(k)),
    ensures
        ({
            let queries = run_queries(n, asks);
            let ids = run_ids(n, asks);
            let after = run_injected(injected, n, asks);
            &&& forall|id: Seq<char>| #[trigger]
                after.contains_key(id) <==> injected.contains_key(id) || ids.contains(id)
            &&& forall|id: Seq<char>| #[trigger]
                injected.contains_key(id) ==> after[id] == injected[id]
            &&& forall|k: int|
                0 <= k < queries.len() ==> after[query_id(#[trigger] queries[k])] == (Pending {
                    kind: queries[k].kind,
                    doc: queries[k].doc,
                    position: queries[k].position,
                })
        }),
    decreases asks.len(),
{
    let ids = run_ids(n, asks);
    if asks.len() > 0 {
        let before = asks.drop_last();
        let ask = asks.last();
        let c = run_next(n, before);
        lemma_run_numbers(n, before);
        lemma_run_lists(n, before);
        lemma_run_injected(injected, n, before);
        assert(c == n + 2 * before.len());
        let m = run_injected(injected, n, before);
        let after = run_injected(injected, n, asks);
        request_registers_what_it_reports(m, c, ask.doc, ask.position, ask.sent);
        let goal = injected_id(c);
        let term = injected_id(next_number(c));
        let old_ids = run_ids(n, before);
        let new_ids = reported(c, ask.sent);
        let old_queries = run_queries(n, before);
        let last_queries = ask_queries(c, ask);
        let queries = run_queries(n, asks);
        assert(queries =~= old_queries + last_queries);
        assert forall|k: int| 0 <= k < old_queries.len() implies query_id(
            #[trigger] old_queries[k],
        ) != goal && query_id(old_queries[k]) != term by {
            ids_are_distinct(old_queries[k].number, c);
            ids_are_distinct(old_queries[k].number, next_number(c));
        }
        assert(!old_ids.contains(goal) && !old_ids.contains(term)) by {
            assert forall|k: int| 0 <= k < old_ids.len() implies old_ids[k] != goal && old_ids[k]
                != term by {
                assert(old_ids[k] == query_id(old_queries[k]));
            }
        }
        assert forall|id: Seq<char>| ids.contains(id) <==> old_ids.contains(id)
            || new_ids.contains(id) by {
            if old_ids.contains(id) {
                let k = old_ids.index_of(id);
                assert(ids[k] == id);
            }
            if new_ids.contains(id) {
                let k = new_ids.index_of(id);
                assert(ids[old_ids.len() + k] == id);
            }
            if ids.contains(id) {
                let k = ids.index_of(id);
                if k < old_ids.len() {
                    assert(old_ids[k] == id);
                } else {
                    assert(new_ids[k - old_ids.len()] == id);
                }
            }
        }
        assert forall|id: Seq<char>| #[trigger] after.contains_key(id) <==> injected.contains_key(
            id,
        ) || ids.contains(id) by {
            assert(new_ids.contains(id) ==> id == goal || id == term);
            assert(m.contains_key(id) <==> injected.contains_key(id) || old_ids.contains(id));
        }
        assert forall|k: int| 0 <= k < queries.len() implies after[query_id(
            #[trigger] queries[k],
        )] == (Pending {
            kind: queries[k].kind,
            doc: queries[k].doc,
            position: queries[k].position,
        }) by {
            if k < old_queries.len() {
                assert(queries[k] == old_queries[k]);
                assert(old_ids[k] == query_id(old_queries[k]));
                assert(old_ids.contains(query_id(old_queries[k])));
                assert(m.contains_key(query_id(old_queries[k])));
                assert(after.contains_key(query_id(old_queries[k])));
            } else {
                assert(queries[k] == last_queries[k - old_queries.len()]);
            }
        }
        assert forall|id: Seq<char>| #[trigger] injected.contains_key(id) implies after[id]
            == injected[id] by {
            assert(m.contains_key(id));
            assert(after.contains_key(id));
        }
    } else {
        assert(forall|id: Seq<char>| !ids.contains(id));
    }
}

// ---------------------------------------------------------------------------
// Responses
// ---------------------------------------------------------------------------

/// The goals of a plain-goal result: the texts of its `goals`, in order; items
/// that are no text are skipped.
pub open spec fn goals_of(result: Option<json::Tree>) -> Seq<Seq<char>> {
    match json::member(result, "goals"@) {
        Some(list) => match list.items() {
            Some(items) => items.filter_map(|t: json::Tree| t.text()),
            None => Seq::empty(),
        },
        None => Seq::empty(),
    }
}

/// Whether a response has a result of the shape that a goal query expects: an
/// object or null. A response without a result, which is how an error comes,
/// counts as one with a null result.
pub open spec fn expected_result(t: json::Tree) -> bool {
    match t.get("result"@) {
        Some(result) => result is Null || result is Object,
        None => true,
    }
}

/// The state after the response `t` to the query `pending`. A missing or null
/// `result` of a plain goal means that the position is not in tactic mode. An
/// unexpected one is ignored.
pub open spec fn after_response(
    s: wire::SnapshotView,
    pending: Pending,
    t: json::Tree,
) -> wire::SnapshotView {
    let result = t.get("result"@);
    if !expected_result(t) {
        s
    } else {
        match pending.kind {
            QueryKind::PlainGoal => state::bumped(
                wire::SnapshotView {
                    doc: Some(pending.doc@),
                    in_tactic: result is Some && !(result->0 is Null),
                    goals: goals_of(result),
                    rendered: json::member_text(result, "rendered"@),
                    ..s
                },
            ),
            QueryKind::PlainTermGoal => state::bumped(
                wire::SnapshotView {
                    doc: Some(pending.doc@),
                    term_goal: json::member_text(result, "goal"@),
                    ..s
                },
            ),
        }
    }
}

/// Fold a consumed injected response into the state. Best-effort: an
/// unparseable or unexpected result is ignored.
pub fn handle_injected_response(state: &mut StateHandle, pending: Pending, body: &[u8])
    requires
        old(state)@.seq < u64::MAX,
    ensures
        final(state)@ == match json::json_of(body@) {
            Some(t) => after_response(old(state)@, pending, t),
            None => old(state)@,
        },
        state::same_followers(*old(state), *final(state)),
{
    match json::parse_json(body) {
        Some(value) => fold_response(state, pending, &value),
        None => {},
    }
}

/// Fold a parsed injected response into the state.
pub fn fold_response(state: &mut StateHandle, pending: Pending, value: &Json)
    requires
        old(state)@.seq < u64::MAX,
    ensures
        final(state)@ == after_response(old(state)@, pending, value@),
        state::same_followers(*old(state), *final(state)),
{
    let result: Option<&Json> = value.get("result");
    match result {
        Some(Json::Null) => {},
        Some(Json::Object(_)) => {},
        Some(_) => return,
        None => {},
    }
    let mut s: Snapshot = state.snapshot();
    match pending.kind {
        QueryKind::PlainGoal => {
            s.in_tactic = match result {
                Some(r) => !r.is_null(),
                None => false,
            };
            s.goals = parse_goals(result);
            s.rendered = json::owned_text(json::get_text(result, "rendered"));
        },
        QueryKind::PlainTermGoal => {
            s.term_goal = json::owned_text(json::get_text(result, "goal"));
        },
    }
    s.doc = Some(pending.doc);
    state.commit(s);
}

fn parse_goals(result: Option<&Json>) -> (r: Vec<String>)
    ensures
        wire::strings_view(r@) == goals_of(json::opt_view(result)),
{
    let mut out: Vec<String> = Vec::new();
    let ghost f = |t: json::Tree| t.text();
    let list: Option<&Vec<Json>> = match json::get_member(result, "goals") {
        Some(list) => list.as_array(),
        None => None,
    };
    match list {
        Some(items) => {
            let ghost trees = json::member(json::opt_view(result), "goals"@)->0.items()->0;
            let mut i: usize = 0;
            assert(wire::strings_view(out@) =~= trees.take(0).filter_map(f));
            while i < items.len()
                invariant
                    i <= items@.len(),
                    items@.len() == trees.len(),
                    forall|k: int| 0 <= k < items@.len() ==> #[trigger] trees[k] == items@[k]@,
                    f == (|t: json::Tree| t.text()),
                    wire::strings_view(out@) == trees.take(i as int).filter_map(f),
                decreases items.len() - i,
            {
                assert(trees.take(i + 1).drop_last() =~= trees.take(i as int));
                assert(trees[i as int] == items@[i as int]@);
                let ghost before = out@;
                match items[i].as_str() {
                    Some(goal) => {
                        out.push(goal.to_owned());
                        assert(wire::strings_view(out@) =~= wire::strings_view(before).push(goal@));
                    },
                    None => {},
                }
                i = i + 1;
            }
            assert(trees.take(i as int) =~= trees);
        },
        None => {
            assert(wire::strings_view(out@) =~= Seq::<Seq<char>>::empty());
        },
    }
    out
}

/// The two queries of a position fill different parts of the state, so their
/// responses may come in either order: both orders leave the same state.
pub proof fn responses_commute(
    s: wire::SnapshotView,
    doc: DocRef,
    position: Position,
    goal: json::Tree,
    term: json::Tree,
)
    ensures
        ({
            let g = Pending { kind: QueryKind::PlainGoal, doc, position };
            let t = Pending { kind: QueryKind::PlainTermGoal, doc, position };
            after_response(after_response(s, g, goal), t, term) == after_response(
                after_response(s, t, term),
                g,
                goal,
            )
        }),
{
}

/// A response that a plain-goal query expects tells whether the position is in
/// tactic mode by its result alone: it is exactly if there is one that is not
/// null. So a finished proof, an object with an empty list of goals, is in
/// tactic mode with no goals, and a null or missing result is neither. What it
/// sets does not depend on the state before, and it touches nothing else.
pub proof fn plain_goal_responses(
    s: wire::SnapshotView,
    other: wire::SnapshotView,
    pending: Pending,
    t: json::Tree,
    result: json::Tree,
)
    requires
        pending.kind is PlainGoal,
        t is Object,
    ensures
        ({
            let after = after_response(s, pending, t);
            let again = after_response(other, pending, t);
            let object = json::has(t, "result"@, result) && result is Object;
            let null = json::has(t, "result"@, json::Tree::Null) || json::lacks(t, "result"@);
            &&& object ==> after.in_tactic
            &&& null ==> !after.in_tactic && after.goals.len() == 0 && after.rendered is None
            &&& object && (json::has(result, "goals"@, json::Tree::Array(Seq::empty()))
                || json::lacks(result, "goals"@)) ==> after.goals.len() == 0
            &&& object ==> after.goals == goals_of(Some(result))
            &&& object ==> (match json::lookup(result->Object_0, "rendered"@) {
                Some(json::Tree::Str(text)) => after.rendered == Some(text),
                _ => after.rendered is None,
            })
            &&& object || null ==> {
                &&& after.doc == Some(pending.doc@)
                &&& s.seq < u64::MAX ==> after.seq == s.seq + 1
                &&& (after.in_tactic, after.goals, after.rendered) == (
                    again.in_tactic,
                    again.goals,
                    again.rendered,
                )
                &&& (after.term_goal, after.elaborating) == (s.term_goal, s.elaborating)
                &&& (after.diagnostics, after.progress) == (s.diagnostics, s.progress)
            }
            &&& json::has(t, "result"@, result) && !(result is Object) && !(result is Null)
                ==> after == s
        }),
{
    let r: Option<json::Tree> = Some(result);
    goals_are_listed_in_order(result, result, Seq::empty(), json::Tree::Null);
    assert(goals_of(None) =~= Seq::<Seq<char>>::empty());
    assert(goals_of(Some(json::Tree::Null)) =~= Seq::<Seq<char>>::empty());
}

/// The goals of a result are the texts of its list, in their order: one more
/// text at the end is one more goal at the end, and an item that is no text
/// adds nothing. An empty list, and anything that is no list, has none.
pub proof fn goals_are_listed_in_order(
    result: json::Tree,
    longer: json::Tree,
    items: Seq<json::Tree>,
    item: json::Tree,
)
    ensures
        json::has(result, "goals"@, json::Tree::Array(items)) && json::has(
            longer,
            "goals"@,
            json::Tree::Array(items.push(item)),
        ) ==> goals_of(Some(longer)) == match item {
            json::Tree::Str(goal) => goals_of(Some(result)).push(goal),
            _ => goals_of(Some(result)),
        },
        json::has(result, "goals"@, json::Tree::Array(Seq::empty())) || json::lacks(
            result,
            "goals"@,
        ) || !(result is Object) ==> goals_of(Some(result)).len() == 0,
        (json::lookup(result->Object_0, "goals"@) matches Some(v) && result is Object && !(
        v is Array)) ==> goals_of(Some(result)).len() == 0,
        goals_of(None).len() == 0,
{
    assert(items.push(item).drop_last() =~= items);
}

/// A response that a term-goal query expects sets the expected type to the text
/// under `goal`, or to none, whatever it was, and touches nothing else but the
/// document.
pub proof fn term_goal_responses(
    s: wire::SnapshotView,
    pending: Pending,
    t: json::Tree,
    result: json::Tree,
)
    requires
        pending.kind is PlainTermGoal,
        t is Object,
    ensures
        ({
            let after = after_response(s, pending, t);
            let object = json::has(t, "result"@, result) && result is Object;
            let null = json::has(t, "result"@, json::Tree::Null) || json::lacks(t, "result"@);
            &&& object ==> (match json::lookup(result->Object_0, "goal"@) {
                Some(json::Tree::Str(goal)) => after.term_goal == Some(goal),
                _ => after.term_goal is None,
            })
            &&& null ==> after.term_goal is None
            &&& object || null ==> {
                &&& after.doc == Some(pending.doc@)
                &&& s.seq < u64::MAX ==> after.seq == s.seq + 1
                &&& (after.goals, after.rendered, after.in_tactic) == (
                    s.goals,
                    s.rendered,
                    s.in_tactic,
                )
                &&& (after.elaborating, after.diagnostics, after.progress) == (
                    s.elaborating,
                    s.diagnostics,
                    s.progress,
                )
            }
            &&& json::has(t, "result"@, result) && !(result is Object) && !(result is Null)
                ==> after == s
        }),
{
}

/// A query is spelled out as JSON-RPC: its version, its id and method, and the
/// document and position it is about.
pub proof fn queries_are_spelled_out(
    id: Seq<char>,
    kind: QueryKind,
    uri: Seq<char>,
    position: Position,
)
    ensures
        ({
            let t = query_tree(id, kind, uri, position);
            let params = json::lookup(t->Object_0, "params"@)->0;
            &&& json::has(t, "jsonrpc"@, json::Tree::Str("2.0"@))
            &&& json::has(t, "id"@, json::Tree::Str(id))
            &&& kind is PlainGoal ==> json::has(
                t,
                "method"@,
                json::Tree::Str("$/lean/plainGoal"@),
            )
            &&& kind is PlainTermGoal ==> json::has(
                t,
                "method"@,
                json::Tree::Str("$/lean/plainTermGoal"@),
            )
            &&& json::has(t, "params"@, params)
            &&& json::lookup(params->Object_0, "textDocument"@) matches Some(doc) && params
                is Object && json::has(doc, "uri"@, json::Tree::Str(uri))
            &&& json::lookup(params->Object_0, "position"@) matches Some(at)
                && json::says_position(at, position)
        }),
{
    reveal_strlit("id");
    reveal_strlit("jsonrpc");
    reveal_strlit("method");
    reveal_strlit("params");
    reveal_strlit("position");
    reveal_strlit("textDocument");
    reveal_strlit("character");
    reveal_strlit("line");
    let message = query_tree(id, kind, uri, position)->Object_0;
    let params = message[3].1->Object_0;
    let at = params[0].1->Object_0;
    assert("id"@.len() == 2 && "jsonrpc"@.len() == 7);
    assert("method"@.len() == 6 && "params"@.len() == 6);
    assert("position"@.len() == 8 && "textDocument"@.len() == 12);
    assert("character"@.len() == 9 && "line"@.len() == 4);
    assert("method"@[0] != "params"@[0]);
    json::lookup_finds(message, 0);
    json::lookup_finds(message, 1);
    json::lookup_finds(message, 2);
    json::lookup_finds(message, 3);
    json::lookup_finds(params, 0);
    json::lookup_finds(params, 1);
    json::lookup_finds(params[1].1->Object_0, 0);
    json::lookup_finds(at, 0);
    json::lookup_finds(at, 1);
}

/// Ids are the prefix and a number, which counts up and wraps to 0.
pub proof fn ids_count_up(n: u64)
    ensures
        injected_id(n) == "lhv-q"@ + text::decimal(n as nat),
        n < u64::MAX ==> next_number(n) == n + 1,
        next_number(u64::MAX) == 0,
{
}

/// The frame of a query is that of its JSON-RPC request, under its own id.
pub proof fn query_frames_are_spelled_out(
    n: u64,
    kind: QueryKind,
    uri: Seq<char>,
    position: Position,
)
    ensures
        query_frame(n, kind, uri, position).body() == json::json_bytes(
            query_tree("lhv-q"@ + text::decimal(n as nat), kind, uri, position),
        ),
        query_frame(n, kind, uri, position) == codec::canonical_frame(
            query_frame(n, kind, uri, position).body(),
        ),
{
    let body = json::json_bytes(query_tree(injected_id(n), kind, uri, position));
    codec::canonical_frames_are_spelled_out(body);
}

/// A request sends the goal query before the term query, under consecutive
/// ids, and reports them in that order; one that was not taken is left out of
/// both.
pub proof fn requests_send_goal_then_term(
    n: u64,
    uri: Seq<char>,
    position: Position,
    sent: (bool, bool),
)
    requires
        n < u64::MAX,
    ensures
        ({
            let next = (n + 1) as u64;
            let goal = query_frame(n, QueryKind::PlainGoal, uri, position);
            let term = query_frame(next, QueryKind::PlainTermGoal, uri, position);
            let frames = sent_frames(n, uri, position, sent);
            let ids = reported(n, sent);
            &&& sent.0 && sent.1 ==> frames == seq![goal, term] && ids == seq![
                injected_id(n),
                injected_id(next),
            ]
            &&& sent.0 && !sent.1 ==> frames == seq![goal] && ids == seq![injected_id(n)]
            &&& !sent.0 && sent.1 ==> frames == seq![term] && ids == seq![injected_id(next)]
            &&& !sent.0 && !sent.1 ==> frames.len() == 0 && ids.len() == 0
        }),
{
    let next = (n + 1) as u64;
    let goal = query_frame(n, QueryKind::PlainGoal, uri, position);
    let term = query_frame(next, QueryKind::PlainTermGoal, uri, position);
    let frames = sent_frames(n, uri, position, sent);
    let ids = reported(n, sent);
    if sent.0 && sent.1 {
        assert(frames =~= seq![goal, term]);
        assert(ids =~= seq![injected_id(n), injected_id(next)]);
    } else if sent.0 {
        assert(frames =~= seq![goal]);
        assert(ids =~= seq![injected_id(n)]);
    } else if sent.1 {
        assert(frames =~= seq![term]);
        assert(ids =~= seq![injected_id(next)]);
    }
}

/// What the channel answers decides: a frame counts as sent exactly if the
/// channel took it, and one that it gives back is the one that was offered.
pub proof fn answers_decide(
    n: u64,
    uri: Seq<char>,
    position: Position,
    answer: (Answer, Answer),
)
    requires
        n < u64::MAX,
        request_answered(n, uri, position, answer),
    ensures
        taken(answer).0 <==> answer.0 is Ok,
        taken(answer).1 <==> answer.1 is Ok,
        answer.0 matches Err(e) ==> given_back(e) == query_frame(
            n,
            QueryKind::PlainGoal,
            uri,
            position,
        ),
        answer.1 matches Err(e) ==> given_back(e) == query_frame(
            (n + 1) as u64,
            QueryKind::PlainTermGoal,
            uri,
            position,
        ),
{
}

} // verus!

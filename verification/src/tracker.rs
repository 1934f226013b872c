//! From the client's messages to goal queries: each message is noted in the
//! session, may move the focus, and the focus that has come to rest is asked
//! about.

use crate::debounce::{self, Debouncer};
use crate::json::{self, Json};
use crate::query::{self, Answer, InjectedIds, Querier};
use crate::session::{self, CaptureRecord, Focus, Session};
use crate::snoop::{self, SnoopConfig};
use crate::wire::{self, DocRef};
use vstd::prelude::*;

verus! {

/// Follows the client's messages. Times are milliseconds of a clock of the
/// caller's.
#[derive(Debug)]
pub struct Tracker {
    pub config: SnoopConfig,
    pub session: Session,
    pub debouncer: Debouncer,
}

/// The value of a [`Tracker`].
pub struct TrackerView {
    pub methods: Seq<Seq<char>>,
    pub session: session::SessionView,
    pub debouncer: debounce::DebouncerView,
}

impl View for Tracker {
    type V = TrackerView;

    open spec fn view(&self) -> TrackerView {
        TrackerView {
            methods: wire::strings_view(self.config.triggers@),
            session: self.session@,
            debouncer: self.debouncer@,
        }
    }
}

impl TrackerView {
    /// The session after a message; one that does not parse leaves it alone.
    pub open spec fn session_after(self, message: Option<json::Tree>) -> session::SessionView {
        match message {
            Some(t) => session::session_after(self.session, t),
            None => self.session,
        }
    }

    /// The focus that a message produces, once it is noted.
    pub open spec fn focus_by(self, message: Option<json::Tree>) -> Option<session::FocusView> {
        match message {
            Some(t) => session::focus_of(self.session_after(message), t, self.methods),
            None => None,
        }
    }

    /// After a message that came at `now`.
    pub open spec fn after_message(self, message: Option<json::Tree>, now: u64) -> TrackerView {
        TrackerView {
            session: self.session_after(message),
            debouncer: match self.focus_by(message) {
                Some(f) => self.debouncer.after_focus(f, now),
                None => self.debouncer,
            },
            ..self
        }
    }

    /// After a look at `now`.
    pub open spec fn after_tick(self, now: u64) -> TrackerView {
        TrackerView { debouncer: self.debouncer.after_poll(now), ..self }
    }
}

/// The record of a message, which left the session as `s`. Of one that does
/// not parse only the time is known.
pub open spec fn message_record(
    s: session::SessionView,
    message: Option<json::Tree>,
    methods: Seq<Seq<char>>,
    ts_unix_ms: u64,
) -> session::CaptureView {
    match message {
        Some(t) => session::record_of(s, t, methods, ts_unix_ms),
        None => session::CaptureView {
            ts_unix_ms,
            method: None,
            has_position: false,
            uri: None,
            line: None,
            character: None,
            version: None,
            is_trigger: false,
            would_focus: false,
        },
    }
}

impl Tracker {
    /// A tracker of a session that has not begun.
    pub fn new(config: SnoopConfig, delay_ms: u64) -> (r: Tracker)
        ensures
            r@ == (TrackerView {
                methods: wire::strings_view(config.triggers@),
                session: session::SessionView { initialized: false, open: Map::empty() },
                debouncer: debounce::DebouncerView { delay_ms, waiting: None },
            }),
    {
        Tracker { config, session: Session::new(), debouncer: Debouncer::new(delay_ms) }
    }

    /// Take a copy of a client message's body, and give its record.
    pub fn message(&mut self, body: &[u8], now: u64, ts_unix_ms: u64) -> (r: CaptureRecord)
        ensures
            final(self)@ == old(self)@.after_message(json::json_of(body@), now),
            r@ == message_record(
                final(self)@.session,
                json::json_of(body@),
                old(self)@.methods,
                ts_unix_ms,
            ),
    {
        let value: Option<Json> = json::parse_json(body);
        match &value {
            Some(value) => self.note(Some(value), now, ts_unix_ms),
            None => self.note(None, now, ts_unix_ms),
        }
    }

    /// Take a parsed client message (`None` if it did not parse), and give its
    /// record.
    pub fn note(&mut self, value: Option<&Json>, now: u64, ts_unix_ms: u64) -> (r: CaptureRecord)
        ensures
            final(self)@ == old(self)@.after_message(json::opt_view(value), now),
            r@ == message_record(
                final(self)@.session,
                json::opt_view(value),
                old(self)@.methods,
                ts_unix_ms,
            ),
    {
        match value {
            Some(value) => {
                self.session.note(value);
                let r: CaptureRecord = self.session.capture(value, &self.config, ts_unix_ms);
                match self.session.focus(value, &self.config) {
                    Some(focus) => self.debouncer.focus(focus, now),
                    None => {},
                }
                r
            },
            None => CaptureRecord {
                ts_unix_ms,
                method: None,
                has_position: false,
                uri: None,
                line: None,
                character: None,
                version: None,
                is_trigger: false,
                would_focus: false,
            },
        }
    }

    /// When to look again, if a focus waits.
    pub fn due(&self) -> (r: Option<u64>)
        ensures
            r == match self@.debouncer.waiting {
                Some((_, due)) => Some(due),
                None => None,
            },
    {
        self.debouncer.due()
    }

    /// Take the focus that has come to rest by `now`.
    pub fn tick(&mut self, now: u64) -> (r: Option<Focus>)
        ensures
            session::opt_focus(r) == old(self)@.debouncer.fires(now),
            final(self)@ == old(self)@.after_tick(now),
    {
        self.debouncer.poll(now)
    }

    /// Ask about the focus that has come to rest by `now`, if any: inject both
    /// goal queries for it, returning the ids registered.
    pub fn fire(&mut self, now: u64, querier: &mut Querier, injected: &mut InjectedIds) -> (ids:
        Vec<String>)
        ensures
            final(self)@ == old(self)@.after_tick(now),
            match old(self)@.debouncer.fires(now) {
                Some(f) => {
                    &&& exists|doc: DocRef, answer: (Answer, Answer)|
                        {
                            &&& doc@ == f.doc
                            &&& query::request_answered(
                                old(querier).next(),
                                f.doc.uri,
                                f.position,
                                answer,
                            )
                            &&& final(injected)@ == #[trigger] query::requested(
                                old(injected)@,
                                old(querier).next(),
                                doc,
                                f.position,
                                query::taken(answer),
                            )
                            &&& wire::strings_view(ids@) == query::reported(
                                old(querier).next(),
                                query::taken(answer),
                            )
                            &&& final(querier).queued() == old(querier).queued()
                                + query::sent_frames(
                                old(querier).next(),
                                f.doc.uri,
                                f.position,
                                query::taken(answer),
                            )
                        }
                    &&& final(querier).next() == query::next_number(
                        query::next_number(old(querier).next()),
                    )
                },
                None => {
                    &&& ids@.len() == 0
                    &&& final(injected)@ == old(injected)@
                    &&& final(querier).next() == old(querier).next()
                    &&& final(querier).queued() == old(querier).queued()
                },
            },
    {
        match self.tick(now) {
            Some(focus) => {
                let ghost n = querier.next();
                let ghost before = injected@;
                let ids: Vec<String> = querier.request(injected, focus.doc, focus.position);
                proof {
                    let answer = choose|answer: (Answer, Answer)|
                        {
                            &&& #[trigger] query::request_answered(
                                n,
                                focus.doc.uri@,
                                focus.position,
                                answer,
                            )
                            &&& wire::strings_view(ids@) == query::reported(n, query::taken(answer))
                            &&& injected@ == query::requested(
                                before,
                                n,
                                focus.doc,
                                focus.position,
                                query::taken(answer),
                            )
                            &&& querier.queued() == old(querier).queued() + query::sent_frames(
                                n,
                                focus.doc.uri@,
                                focus.position,
                                query::taken(answer),
                            )
                        };
                    let f = old(self)@.debouncer.fires(now)->0;
                    assert(f == focus@);
                    assert(focus.doc@ == f.doc && injected@ == query::requested(
                        old(injected)@,
                        old(querier).next(),
                        focus.doc,
                        f.position,
                        query::taken(answer),
                    ));
                }
                ids
            },
            None => Vec::new(),
        }
    }
}

// ---------------------------------------------------------------------------
// Laws
// ---------------------------------------------------------------------------

/// The tracker after a run of messages, each with the time it came at.
pub open spec fn after_messages(
    tr: TrackerView,
    messages: Seq<(Option<json::Tree>, u64)>,
) -> TrackerView
    decreases messages.len(),
{
    if messages.len() == 0 {
        tr
    } else {
        after_messages(tr, messages.drop_last()).after_message(
            messages.last().0,
            messages.last().1,
        )
    }
}

/// Whether no message of a run moves the focus.
pub open spec fn quiet(tr: TrackerView, messages: Seq<(Option<json::Tree>, u64)>) -> bool
    decreases messages.len(),
{
    messages.len() > 0 ==> {
        &&& quiet(tr, messages.drop_last())
        &&& after_messages(tr, messages.drop_last()).focus_by(messages.last().0) is None
    }
}

/// A cursor that comes to rest is asked about: once a message has moved the
/// focus and none has moved it since, that focus, and no other, fires as soon
/// as the debounce has passed, and not before.
pub proof fn resting_focus_fires(
    tr: TrackerView,
    message: Option<json::Tree>,
    now: u64,
    messages: Seq<(Option<json::Tree>, u64)>,
    later: u64,
)
    requires
        tr.focus_by(message) is Some,
        quiet(tr.after_message(message, now), messages),
        now + tr.debouncer.delay_ms <= u64::MAX,
    ensures
        after_messages(tr.after_message(message, now), messages).debouncer.fires(later) == if later
            < now + tr.debouncer.delay_ms {
            None
        } else {
            tr.focus_by(message)
        },
{
    lemma_quiet(tr.after_message(message, now), messages);
}

proof fn lemma_quiet(tr: TrackerView, messages: Seq<(Option<json::Tree>, u64)>)
    requires
        quiet(tr, messages),
    ensures
        after_messages(tr, messages).debouncer == tr.debouncer,
    decreases messages.len(),
{
    if messages.len() > 0 {
        lemma_quiet(tr, messages.drop_last());
    }
}

/// A request that triggers by default, in an open document of an initialized
/// session, moves the focus to its position, at the document's version, and
/// leaves the session as it was.
pub proof fn triggering_request_moves_the_focus(tr: TrackerView, t: json::Tree)
    requires
        tr.methods == snoop::default_methods(),
        snoop::observed_of(t, tr.methods) is Some,
        tr.session.initialized,
        tr.session.open.contains_key(snoop::observed_of(t, tr.methods)->0.uri),
    ensures
        ({
            let o = snoop::observed_of(t, tr.methods)->0;
            &&& tr.session_after(Some(t)) == tr.session
            &&& tr.focus_by(Some(t)) == Some(
                session::FocusView {
                    doc: wire::DocRefView { uri: o.uri, version: tr.session.open[o.uri] },
                    position: o.position,
                },
            )
        }),
{
    reveal_strlit("initialized");
    reveal_strlit("textDocument/didOpen");
    reveal_strlit("textDocument/didChange");
    reveal_strlit("textDocument/didClose");
    reveal_strlit("textDocument/hover");
    reveal_strlit("textDocument/completion");
    reveal_strlit("textDocument/definition");
    reveal_strlit("textDocument/references");
    reveal_strlit("textDocument/documentHighlight");
    reveal_strlit("textDocument/signatureHelp");
    let method = snoop::method_of(t)->0;
    let k = snoop::default_methods().index_of(method);
    assert(snoop::default_methods()[k] == method);
    assert(method.len() == 18 || method.len() == 23 || method.len() == 30 || method.len() == 26);
    assert("initialized"@.len() == 11);
    assert("textDocument/didOpen"@.len() == 20);
    assert("textDocument/didChange"@.len() == 22);
    assert("textDocument/didClose"@.len() == 21);
}

/// Each message is noted in the session, and a focus that it produces starts
/// the debounce anew; one that produces none leaves the debounce alone, and
/// one that does not parse leaves everything.
pub proof fn messages_are_tracked(tr: TrackerView, t: json::Tree, now: u64)
    ensures
        ({
            let after = tr.after_message(Some(t), now);
            let session = session::session_after(tr.session, t);
            &&& after.session == session
            &&& after.methods == tr.methods
            &&& session::focus_of(session, t, tr.methods) matches Some(f) ==> after.debouncer
                == tr.debouncer.after_focus(f, now)
            &&& session::focus_of(session, t, tr.methods) is None ==> after.debouncer
                == tr.debouncer
        }),
        tr.after_message(None, now) == tr,
{
}

/// The record of a message that parses is that of what it says in the session
/// it left; of one that does not, only its time is known.
pub proof fn every_message_is_recorded(
    s: session::SessionView,
    t: json::Tree,
    methods: Seq<Seq<char>>,
    ts: u64,
)
    ensures
        message_record(s, Some(t), methods, ts) == session::record_of(s, t, methods, ts),
        ({
            let r = message_record(s, None, methods, ts);
            &&& r.ts_unix_ms == ts
            &&& r.method is None && r.uri is None && r.line is None && r.character is None
            &&& r.version is None
            &&& !r.has_position && !r.is_trigger && !r.would_focus
        }),
{
}

/// Looking at the clock takes the focus that fires and changes nothing else.
pub proof fn ticks_take_what_fires(tr: TrackerView, now: u64)
    ensures
        tr.debouncer.fires(now) is Some ==> tr.after_tick(now).debouncer.waiting is None,
        tr.debouncer.fires(now) is None ==> tr.after_tick(now) == tr,
        tr.after_tick(now).session == tr.session,
        tr.after_tick(now).methods == tr.methods,
{
}

} // verus!

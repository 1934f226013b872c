//! The bidirectional forwarder: what becomes of each frame on the Helix↔Lean
//! pipe.
//!
//! 1. Forwardable bytes are never altered: a frame goes out as it came in,
//!    also if its body does not parse.
//! 2. Two frames are never interleaved on one sink.
//! 3. Classification works on a copy of the body and never stalls the path.
//!
//! The pumps that own the streams read a frame, ask for the step, and perform
//! it.

use crate::codec::{self, read_frame, write_frame, ByteReader, Frame, FrameError};
use crate::envelope::{self, Envelope, Id};
use crate::json;
use crate::query::{self, handle_injected_response, InjectedIds, Pending};
use crate::state::{self, StateHandle};
use crate::tee::{self, apply_diagnostics, apply_progress};
use crate::text;
use crate::wire;
use vstd::prelude::*;
use vstd::slice::slice_to_vec;

verus! {

/// Which direction closed first, selecting the shutdown choreography.
#[derive(Debug, Clone, Copy, PartialEq, Eq, Structural)]
pub enum FirstClosed {
    /// Helix closed our stdin (clean editor shutdown, or Helix died).
    Client,
    /// The Lean server closed its stdout (it exited or crashed).
    Server,
}

// ---------------------------------------------------------------------------
// Client → server
// ---------------------------------------------------------------------------

/// What the client→server pump does with what it read.
#[derive(Debug)]
pub enum ClientStep {
    /// Forward the frame verbatim; then let the snoop look at the copy of its
    /// body.
    Forward(Frame, Vec<u8>),
    /// Stop: the client closed, or its stream broke.
    Close,
}

/// The next step of the client→server pump.
pub fn client_step(read: Result<Option<Frame>, FrameError>) -> (step: ClientStep)
    ensures
        match codec::read_view(read) {
            Ok(Some(frame)) => step matches ClientStep::Forward(f, copy) && f@ == frame && copy@
                == frame.body(),
            _ => step is Close,
        },
{
    match read {
        Ok(Some(frame)) => {
            let copy: Vec<u8> = slice_to_vec(frame.body());
            ClientStep::Forward(frame, copy)
        },
        Ok(None) => ClientStep::Close,
        Err(_) => ClientStep::Close,
    }
}

// ---------------------------------------------------------------------------
// Server → client
// ---------------------------------------------------------------------------

/// The outstanding injected id that a message answers, if it is a response to
/// one.
pub open spec fn answered_by(
    injected: Map<Seq<char>, Pending>,
    env: Option<envelope::EnvelopeView>,
) -> Option<Seq<char>> {
    match env {
        Some(e) => match e.id {
            Some(envelope::IdView::Str(id)) => if e.response() && injected.contains_key(id) {
                Some(id)
            } else {
                None
            },
            _ => None,
        },
        None => None,
    }
}

/// The outstanding injected id that a message body answers.
pub open spec fn answered(injected: Map<Seq<char>, Pending>, body: Seq<u8>) -> Option<Seq<char>> {
    answered_by(injected, envelope::body_envelope(body))
}

/// Which forwarded messages are copied into the state.
#[derive(Debug, Clone, Copy, PartialEq, Eq, Structural)]
pub enum TeeKind {
    /// `textDocument/publishDiagnostics`.
    Diagnostics,
    /// `$/lean/fileProgress`.
    Progress,
}

/// Whether, and how, a message is copied into the state.
pub open spec fn tee_of(env: Option<envelope::EnvelopeView>) -> Option<TeeKind> {
    match env {
        Some(e) => if !e.notification() {
            None
        } else if e.method == Some("textDocument/publishDiagnostics"@) {
            Some(TeeKind::Diagnostics)
        } else if e.method == Some("$/lean/fileProgress"@) {
            Some(TeeKind::Progress)
        } else {
            None
        },
        None => None,
    }
}

/// Whether, and how, a message body is copied into the state.
pub open spec fn body_tee(body: Seq<u8>) -> Option<TeeKind> {
    tee_of(envelope::body_envelope(body))
}

/// Where a server message goes.
#[derive(Debug)]
pub enum Route {
    /// Nowhere: it answers this injected query.
    Consume(Pending),
    /// To Helix, and, if said so, a copy into the state.
    Forward(Option<TeeKind>),
}

/// Decide where a server message goes, by its envelope (`None` if it has
/// none), settling the injected id that it answers.
pub fn route(env: &Option<Envelope>, injected: &mut InjectedIds) -> (r: Route)
    ensures
        match answered_by(old(injected)@, envelope::opt_envelope(*env)) {
            Some(id) => {
                &&& r == Route::Consume(old(injected)@[id])
                &&& final(injected)@ == old(injected)@.remove(id)
            },
            None => {
                &&& r == Route::Forward(tee_of(envelope::opt_envelope(*env)))
                &&& final(injected)@ == old(injected)@
            },
        },
{
    let env: &Envelope = match env {
        Some(env) => env,
        None => return Route::Forward(None),
    };
    if env.is_response() {
        match &env.id {
            Some(Id::Str(id)) => match injected.remove(id.as_str()) {
                Some(pending) => return Route::Consume(pending),
                None => {
                    assert(injected@ =~= old(injected)@);
                },
            },
            _ => {},
        }
    }
    if !env.is_notification() {
        return Route::Forward(None);
    }
    match &env.method {
        Some(method) => if text::str_eq(method.as_str(), "textDocument/publishDiagnostics") {
            Route::Forward(Some(TeeKind::Diagnostics))
        } else if text::str_eq(method.as_str(), "$/lean/fileProgress") {
            Route::Forward(Some(TeeKind::Progress))
        } else {
            Route::Forward(None)
        },
        None => Route::Forward(None),
    }
}

/// A copy of a forwarded body, to be folded into the state once the frame is
/// on its way.
#[derive(Debug)]
pub struct TeeCopy {
    pub kind: TeeKind,
    pub body: Vec<u8>,
}

/// The state after a copy of `body` was folded into it.
pub open spec fn after_tee(
    s: wire::SnapshotView,
    kind: TeeKind,
    body: Seq<u8>,
) -> wire::SnapshotView {
    match (json::json_of(body), kind) {
        (Some(t), TeeKind::Diagnostics) => tee::after_diagnostics(s, t),
        (Some(t), TeeKind::Progress) => tee::after_progress(s, t),
        (None, _) => s,
    }
}

impl TeeCopy {
    /// Fold the copy into the state.
    pub fn apply(&self, state: &mut StateHandle)
        requires
            old(state)@.seq < u64::MAX,
        ensures
            final(state)@ == after_tee(old(state)@, self.kind, self.body@),
            state::same_followers(*old(state), *final(state)),
    {
        match self.kind {
            TeeKind::Diagnostics => apply_diagnostics(state, self.body.as_slice()),
            TeeKind::Progress => apply_progress(state, self.body.as_slice()),
        }
    }
}

/// What the server→client pump does with what it read.
#[derive(Debug)]
pub enum ServerStep {
    /// Forward the frame verbatim; then fold the copy, if there is one.
    Forward(Frame, Option<TeeCopy>),
    /// Nothing: it was the response to an injected query, and never reaches
    /// Helix.
    Consumed,
    /// Stop: the server closed, or its stream broke.
    Close,
}

/// The state after the response to the outstanding query `pending` was
/// consumed.
pub open spec fn after_consumed(
    s: wire::SnapshotView,
    pending: Pending,
    body: Seq<u8>,
) -> wire::SnapshotView {
    match json::json_of(body) {
        Some(t) => query::after_response(s, pending, t),
        None => s,
    }
}

/// The next step of the server→client pump. A response to an outstanding
/// injected id is consumed and settles that id. Everything else goes to Helix
/// as it came: notifications, server→client requests, foreign responses, and
/// frames that do not parse.
pub fn server_step(
    read: Result<Option<Frame>, FrameError>,
    injected: &mut InjectedIds,
    state: &mut StateHandle,
) -> (step: ServerStep)
    requires
        old(state)@.seq < u64::MAX,
    ensures
        match codec::read_view(read) {
            Ok(Some(frame)) => match answered(old(injected)@, frame.body()) {
                Some(id) => {
                    &&& step is Consumed
                    &&& final(injected)@ == old(injected)@.remove(id)
                    &&& final(state)@ == after_consumed(
                        old(state)@,
                        old(injected)@[id],
                        frame.body(),
                    )
                },
                None => {
                    &&& step matches ServerStep::Forward(f, copy) && f@ == frame && (match copy {
                        Some(copy) => body_tee(frame.body()) == Some(copy.kind) && copy.body@
                            == frame.body(),
                        None => body_tee(frame.body()) is None,
                    })
                    &&& final(injected)@ == old(injected)@
                    &&& final(state)@ == old(state)@
                },
            },
            _ => step is Close && final(injected)@ == old(injected)@ && final(state)@ == old(
                state,
            )@,
        },
        state::same_followers(*old(state), *final(state)),
{
    let frame: Frame = match read {
        Ok(Some(frame)) => frame,
        Ok(None) => return ServerStep::Close,
        Err(_) => return ServerStep::Close,
    };
    let env: Option<Envelope> = Envelope::parse(frame.body());
    match route(&env, injected) {
        Route::Consume(pending) => {
            handle_injected_response(state, pending, frame.body());
            ServerStep::Consumed
        },
        Route::Forward(kind) => {
            let copy: Option<TeeCopy> = match kind {
                Some(kind) => Some(TeeCopy { kind, body: slice_to_vec(frame.body()) }),
                None => None,
            };
            ServerStep::Forward(frame, copy)
        },
    }
}

// ---------------------------------------------------------------------------
// Streams in memory
// ---------------------------------------------------------------------------

/// The client→server pump over a stream in memory: forward every frame, up to
/// the end of the stream or its first fault, and give the copies of the bodies
/// for the snoop.
pub fn pump_c2s(client_in: &mut ByteReader<'_>, to_lean: &mut Vec<u8>) -> (copies: Vec<Vec<u8>>)
    ensures
        final(to_lean)@ == old(to_lean)@ + codec::wire_bytes(
            codec::frames_in(old(client_in).remaining()),
        ),
        copies@.len() == codec::frames_in(old(client_in).remaining()).len(),
        forall|i: int|
            0 <= i < copies@.len() ==> (#[trigger] copies@[i])@ == codec::frames_in(
                old(client_in).remaining(),
            )[i].body(),
        final(client_in).remaining() == codec::unread(old(client_in).remaining()),
{
    let ghost frames = codec::frames_in(client_in.remaining());
    let ghost mut done: Seq<codec::FrameView> = Seq::empty();
    let mut copies: Vec<Vec<u8>> = Vec::new();
    assert(to_lean@ =~= old(to_lean)@ + codec::wire_bytes(done));
    loop
        invariant
            frames == codec::frames_in(old(client_in).remaining()),
            frames == done + codec::frames_in(client_in.remaining()),
            codec::unread(old(client_in).remaining()) == codec::unread(client_in.remaining()),
            to_lean@ == old(to_lean)@ + codec::wire_bytes(done),
            copies@.len() == done.len(),
            forall|i: int| 0 <= i < copies@.len() ==> (#[trigger] copies@[i])@ == done[i].body(),
        decreases client_in.remaining().len(),
    {
        let ghost rest = client_in.remaining();
        proof {
            codec::read_frame_is_verbatim(rest);
        }
        match client_step(read_frame(client_in)) {
            ClientStep::Forward(frame, copy) => {
                write_frame(to_lean, &frame);
                copies.push(copy);
                proof {
                    codec::wire_bytes_of_one_more(done, frame@);
                    assert(done.push(frame@) + codec::frames_in(client_in.remaining())
                        =~= frames);
                    done = done.push(frame@);
                }
            },
            ClientStep::Close => {
                assert(done =~= frames);
                return copies;
            },
        }
    }
}

/// The state after the server has sent `frames`.
pub open spec fn state_after(
    s: wire::SnapshotView,
    frames: Seq<codec::FrameView>,
    injected: Map<Seq<char>, Pending>,
) -> wire::SnapshotView
    decreases frames.len(),
{
    if frames.len() == 0 {
        s
    } else {
        let before = state_after(s, frames.drop_last(), injected);
        let ids = outstanding(sent_events(frames.drop_last()), injected);
        let body = frames.last().body();
        match answered(ids, body) {
            Some(id) => after_consumed(before, ids[id], body),
            None => match body_tee(body) {
                Some(kind) => after_tee(before, kind, body),
                None => before,
            },
        }
    }
}

/// The server sending `frames`, one after the other.
pub open spec fn sent_events(frames: Seq<codec::FrameView>) -> Seq<Event> {
    frames.map_values(|f: codec::FrameView| Event::Sent(f))
}

/// The server→client pump over a stream in memory: perform the step for every
/// frame, up to the end of the stream or its first fault.
pub fn pump_s2c(
    server_in: &mut ByteReader<'_>,
    to_helix: &mut Vec<u8>,
    injected: &mut InjectedIds,
    state: &mut StateHandle,
)
    requires
        old(state)@.seq + codec::frames_in(old(server_in).remaining()).len() < u64::MAX,
    ensures
        ({
            let frames = codec::frames_in(old(server_in).remaining());
            let events = sent_events(frames);
            &&& final(to_helix)@ == old(to_helix)@ + codec::wire_bytes(
                helix_sees(events, old(injected)@),
            )
            &&& final(injected)@ == outstanding(events, old(injected)@)
            &&& final(state)@ == state_after(old(state)@, frames, old(injected)@)
            &&& final(server_in).remaining() == codec::unread(old(server_in).remaining())
        }),
        state::same_followers(*old(state), *final(state)),
{
    let ghost frames = codec::frames_in(server_in.remaining());
    let ghost mut done: Seq<codec::FrameView> = Seq::empty();
    assert(to_helix@ =~= old(to_helix)@ + codec::wire_bytes(
        helix_sees(sent_events(done), old(injected)@),
    ));
    loop
        invariant
            frames == codec::frames_in(old(server_in).remaining()),
            frames == done + codec::frames_in(server_in.remaining()),
            codec::unread(old(server_in).remaining()) == codec::unread(server_in.remaining()),
            to_helix@ == old(to_helix)@ + codec::wire_bytes(
                helix_sees(sent_events(done), old(injected)@),
            ),
            injected@ == outstanding(sent_events(done), old(injected)@),
            state@ == state_after(old(state)@, done, old(injected)@),
            old(state)@.seq + frames.len() < u64::MAX,
            state@.seq <= old(state)@.seq + done.len(),
            state::same_followers(*old(state), *state),
        decreases server_in.remaining().len(),
    {
        let ghost rest = server_in.remaining();
        let ghost ids = injected@;
        proof {
            codec::read_frame_is_verbatim(rest);
        }
        let read: Result<Option<Frame>, FrameError> = read_frame(server_in);
        let ghost next = done.push(codec::frame_at(rest).outcome->Ok_0->0);
        proof {
            assert(next.drop_last() =~= done);
            assert(sent_events(next).drop_last() =~= sent_events(done));
            if let Ok(Some(f)) = codec::frame_at(rest).outcome {
                codec::wire_bytes_of_one_more(
                    helix_sees(sent_events(done), old(injected)@),
                    f,
                );
                assert(next + codec::frames_in(server_in.remaining()) =~= frames);
            }
        }
        match server_step(read, injected, state) {
            ServerStep::Forward(frame, copy) => {
                write_frame(to_helix, &frame);
                match copy {
                    Some(copy) => copy.apply(state),
                    None => {},
                }
                proof {
                    done = next;
                }
            },
            ServerStep::Consumed => {
                proof {
                    done = next;
                }
            },
            ServerStep::Close => {
                assert(done =~= frames);
                return ;
            },
        }
    }
}

// ---------------------------------------------------------------------------
// Laws
// ---------------------------------------------------------------------------

/// What happens on the server side of the pipe.
pub enum Event {
    /// The server sends a frame.
    Sent(codec::FrameView),
    /// A query is registered under an id.
    Registered(Seq<char>, Pending),
    /// A registered query is forgotten, since it could not be sent.
    Forgotten(Seq<char>),
}

/// The ids outstanding after `events`.
pub open spec fn outstanding(
    events: Seq<Event>,
    injected: Map<Seq<char>, Pending>,
) -> Map<Seq<char>, Pending>
    decreases events.len(),
{
    if events.len() == 0 {
        injected
    } else {
        let before = outstanding(events.drop_last(), injected);
        match events.last() {
            Event::Sent(frame) => match answered(before, frame.body()) {
                Some(id) => before.remove(id),
                None => before,
            },
            Event::Registered(id, pending) => before.insert(id, pending),
            Event::Forgotten(id) => before.remove(id),
        }
    }
}

/// The frames that reach Helix.
pub open spec fn helix_sees(
    events: Seq<Event>,
    injected: Map<Seq<char>, Pending>,
) -> Seq<codec::FrameView>
    decreases events.len(),
{
    if events.len() == 0 {
        Seq::empty()
    } else {
        let before = helix_sees(events.drop_last(), injected);
        match events.last() {
            Event::Sent(frame) => if answered(
                outstanding(events.drop_last(), injected),
                frame.body(),
            ) is Some {
                before
            } else {
                before.push(frame)
            },
            _ => before,
        }
    }
}

/// The frames that the server sent.
pub open spec fn server_sent(events: Seq<Event>) -> Seq<codec::FrameView>
    decreases events.len(),
{
    if events.len() == 0 {
        Seq::empty()
    } else {
        match events.last() {
            Event::Sent(frame) => server_sent(events.drop_last()).push(frame),
            _ => server_sent(events.drop_last()),
        }
    }
}

/// How many registrations there were.
pub open spec fn registrations(events: Seq<Event>) -> nat
    decreases events.len(),
{
    if events.len() == 0 {
        0
    } else {
        registrations(events.drop_last()) + if events.last() is Registered {
            1nat
        } else {
            0nat
        }
    }
}

/// `a` is `b` with some items left out.
pub open spec fn subsequence<T>(a: Seq<T>, b: Seq<T>) -> bool
    decreases b.len(),
{
    if b.len() == 0 {
        a.len() == 0
    } else {
        ||| subsequence(a, b.drop_last())
        ||| a.len() > 0 && a.last() == b.last() && subsequence(a.drop_last(), b.drop_last())
    }
}

/// The answer to an outstanding query never reaches Helix, and settles the
/// query: the next frame with that id is no longer held back.
pub proof fn answers_never_reach_helix(
    events: Seq<Event>,
    injected: Map<Seq<char>, Pending>,
    frame: codec::FrameView,
    id: Seq<char>,
)
    requires
        answered(outstanding(events, injected), frame.body()) == Some(id),
    ensures
        helix_sees(events.push(Event::Sent(frame)), injected) == helix_sees(events, injected),
        !outstanding(events.push(Event::Sent(frame)), injected).contains_key(id),
        answered(
            outstanding(events.push(Event::Sent(frame)), injected),
            frame.body(),
        ) is None,
{
    assert(events.push(Event::Sent(frame)).drop_last() =~= events);
}

/// Helix sees the frames that the server sent, unaltered and in their order,
/// with at most some left out.
pub proof fn helix_sees_server_frames_in_order(
    events: Seq<Event>,
    injected: Map<Seq<char>, Pending>,
)
    ensures
        subsequence(helix_sees(events, injected), server_sent(events)),
    decreases events.len(),
{
    if events.len() > 0 {
        helix_sees_server_frames_in_order(events.drop_last(), injected);
        match events.last() {
            Event::Sent(frame) => {
                let sent = server_sent(events);
                assert(sent.drop_last() =~= server_sent(events.drop_last()));
                let seen = helix_sees(events, injected);
                let before = helix_sees(events.drop_last(), injected);
                if answered(outstanding(events.drop_last(), injected), frame.body()) is None {
                    assert(seen.drop_last() =~= before);
                }
            },
            _ => {},
        }
    }
}

/// A registration withholds at most one frame from Helix.
pub proof fn a_query_withholds_at_most_one_frame(
    events: Seq<Event>,
    injected: Map<Seq<char>, Pending>,
)
    requires
        injected.dom().finite(),
    ensures
        outstanding(events, injected).dom().finite(),
        server_sent(events).len() + outstanding(events, injected).len() <= helix_sees(
            events,
            injected,
        ).len() + injected.len() + registrations(events),
    decreases events.len(),
{
    if events.len() > 0 {
        a_query_withholds_at_most_one_frame(events.drop_last(), injected);
    }
}

/// A message that is not a response with a text id is never withheld: a frame
/// that does not parse, a notification, a request, a response to a numbered
/// request. Nor is a response whose id is not outstanding, whatever its prefix.
pub proof fn foreign_frames_pass(
    events: Seq<Event>,
    injected: Map<Seq<char>, Pending>,
    frame: codec::FrameView,
)
    requires
        match envelope::body_envelope(frame.body()) {
            Some(e) => {
                ||| !e.response()
                ||| e.id matches Some(envelope::IdView::Num(_))
                ||| e.id matches Some(envelope::IdView::Str(id)) && !outstanding(
                    events,
                    injected,
                ).contains_key(id)
            },
            None => true,
        },
    ensures
        helix_sees(events.push(Event::Sent(frame)), injected) == helix_sees(
            events,
            injected,
        ).push(frame),
        outstanding(events.push(Event::Sent(frame)), injected) == outstanding(events, injected),
{
    assert(events.push(Event::Sent(frame)).drop_last() =~= events);
}

/// The text id that a frame responds to, if it is a response to one.
pub open spec fn responds_to(frame: codec::FrameView) -> Option<Seq<char>> {
    match envelope::body_envelope(frame.body()) {
        Some(e) => match e.id {
            Some(envelope::IdView::Str(id)) => if e.response() {
                Some(id)
            } else {
                None
            },
            _ => None,
        },
        None => None,
    }
}

/// Whether an event registers `id`.
pub open spec fn registers(event: Event, id: Seq<char>) -> bool {
    event matches Event::Registered(i, _) && i == id
}

/// Whether an event settles `id`: a response to it, or its being forgotten.
pub open spec fn settles(event: Event, id: Seq<char>) -> bool {
    match event {
        Event::Sent(frame) => responds_to(frame) == Some(id),
        Event::Registered(_, _) => false,
        Event::Forgotten(i) => i == id,
    }
}

/// Whether `id` was registered and has not been settled since.
pub open spec fn awaited(events: Seq<Event>, id: Seq<char>) -> bool {
    exists|j: int|
        0 <= j < events.len() && #[trigger] registers(events[j], id) && forall|k: int|
            j < k < events.len() ==> !settles(#[trigger] events[k], id)
}

/// Whether `id` is registered at some time.
pub open spec fn ours(events: Seq<Event>, id: Seq<char>) -> bool {
    exists|j: int| 0 <= j < events.len() && #[trigger] registers(events[j], id)
}

/// An id is outstanding exactly while it is awaited.
pub proof fn outstanding_is_awaited(events: Seq<Event>, id: Seq<char>)
    ensures
        outstanding(events, Map::empty()).contains_key(id) <==> awaited(events, id),
    decreases events.len(),
{
    if events.len() > 0 {
        let before = events.drop_last();
        let n = before.len() as int;
        outstanding_is_awaited(before, id);
        if awaited(before, id) && !settles(events[n], id) {
            let j = choose|j: int|
                0 <= j < before.len() && #[trigger] registers(before[j], id) && forall|k: int|
                    j < k < before.len() ==> !settles(#[trigger] before[k], id);
            assert(registers(events[j], id));
            assert forall|k: int| j < k < events.len() implies !settles(
                #[trigger] events[k],
                id,
            ) by {
                if k < n {
                    assert(before[k] == events[k]);
                }
            }
            assert(awaited(events, id));
        }
        if registers(events[n], id) {
            assert(awaited(events, id));
        } else if awaited(events, id) {
            let j = choose|j: int|
                0 <= j < events.len() && #[trigger] registers(events[j], id) && forall|k: int|
                    j < k < events.len() ==> !settles(#[trigger] events[k], id);
            assert(j < n);
            assert(registers(before[j], id));
            assert forall|k: int| j < k < before.len() implies !settles(
                #[trigger] before[k],
                id,
            ) by {
                assert(before[k] == events[k]);
            }
            assert(!settles(events[n], id));
            assert(awaited(before, id));
        }
    }
}

/// No response to an injected query ever reaches Helix: if the server answers
/// an injected id only while it is awaited, no response that Helix sees has an
/// injected id.
pub proof fn no_injected_response_reaches_helix(events: Seq<Event>)
    requires
        forall|i: int, id: Seq<char>|
            0 <= i < events.len() && events[i] is Sent && settles(
                #[trigger] events[i],
                id,
            ) && #[trigger] ours(events, id) ==> awaited(events.take(i), id),
    ensures
        forall|k: int, id: Seq<char>|
            0 <= k < helix_sees(events, Map::empty()).len() && responds_to(
                #[trigger] helix_sees(events, Map::empty())[k],
            ) == Some(id) ==> !#[trigger] ours(events, id),
{
    lemma_no_injected_response(events, events.len());
    assert(events.take(events.len() as int) =~= events);
}

proof fn lemma_no_injected_response(events: Seq<Event>, n: nat)
    requires
        n <= events.len(),
        forall|i: int, id: Seq<char>|
            0 <= i < events.len() && events[i] is Sent && settles(
                #[trigger] events[i],
                id,
            ) && #[trigger] ours(events, id) ==> awaited(events.take(i), id),
    ensures
        forall|k: int, id: Seq<char>|
            0 <= k < helix_sees(events.take(n as int), Map::empty()).len() && responds_to(
                #[trigger] helix_sees(events.take(n as int), Map::empty())[k],
            ) == Some(id) ==> !#[trigger] ours(events, id),
    decreases n,
{
    if n > 0 {
        let m = (n - 1) as nat;
        let before = events.take(m as int);
        lemma_no_injected_response(events, m);
        assert(events.take(n as int).drop_last() =~= before);
        let seen = helix_sees(events.take(n as int), Map::empty());
        let earlier = helix_sees(before, Map::empty());
        assert forall|k: int, id: Seq<char>|
            0 <= k < seen.len() && responds_to(#[trigger] seen[k]) == Some(
                id,
            ) implies !#[trigger] ours(events, id) by {
            if k < earlier.len() {
                assert(seen[k] == earlier[k]);
            } else if ours(events, id) {
                assert(settles(events[m as int], id));
                outstanding_is_awaited(before, id);
            }
        }
    }
}

/// A response to one of the two queries of a request is kept from Helix if and
/// only if that query was sent: one that could not be sent awaits nothing.
pub proof fn responses_to_sent_queries_are_consumed(
    injected: Map<Seq<char>, Pending>,
    n: u64,
    doc: wire::DocRef,
    position: wire::Position,
    sent: (bool, bool),
    frame: codec::FrameView,
)
    ensures
        ({
            let after = query::requested(injected, n, doc, position, sent);
            let goal = query::injected_id(n);
            let term = query::injected_id(query::next_number(n));
            &&& responds_to(frame) == Some(goal) ==> answered(after, frame.body()) == if sent.0 {
                Some(goal)
            } else {
                None
            }
            &&& responds_to(frame) == Some(term) ==> answered(after, frame.body()) == if sent.1 {
                Some(term)
            } else {
                None
            }
        }),
{
    query::request_registers_what_it_reports(injected, n, doc, position, sent);
}

/// Without queries the proxy is transparent: Helix sees every frame of the
/// server's stream, and, once that has ended at a frame boundary, every byte.
pub proof fn idle_proxy_is_transparent(stream: Seq<u8>)
    ensures
        ({
            let events = sent_events(codec::frames_in(stream));
            let seen = helix_sees(events, Map::empty());
            &&& seen == codec::frames_in(stream)
            &&& codec::wire_bytes(seen).is_prefix_of(stream)
            &&& codec::ends_cleanly(stream) ==> codec::wire_bytes(seen) == stream
        }),
{
    let frames = codec::frames_in(stream);
    lemma_idle_sees_all(frames);
    codec::forwarded_stream_is_verbatim(stream);
}

proof fn lemma_idle_sees_all(frames: Seq<codec::FrameView>)
    ensures
        ({
            let events = sent_events(frames);
            &&& helix_sees(events, Map::empty()) == frames
            &&& outstanding(events, Map::empty()) == Map::<Seq<char>, Pending>::empty()
        }),
    decreases frames.len(),
{
    let events = sent_events(frames);
    if frames.len() > 0 {
        lemma_idle_sees_all(frames.drop_last());
        assert(events.drop_last() =~= sent_events(frames.drop_last()));
        assert(frames.drop_last().push(frames.last()) =~= frames);
    } else {
        assert(helix_sees(events, Map::empty()) =~= frames);
    }
}

/// A frame on its way to the Lean server.
pub enum ToLean {
    /// It came from Helix.
    Forwarded(codec::FrameView),
    /// It is a query of the proxy's own.
    Injected(codec::FrameView),
}

/// What the Lean server is sent.
pub open spec fn lean_sink(queue: Seq<ToLean>) -> Seq<codec::FrameView> {
    queue.map_values(
        |item: ToLean|
            match item {
                ToLean::Forwarded(frame) => frame,
                ToLean::Injected(frame) => frame,
            },
    )
}

/// The part of it that came from Helix.
pub open spec fn from_helix(queue: Seq<ToLean>) -> Seq<codec::FrameView> {
    queue.filter_map(
        |item: ToLean|
            match item {
                ToLean::Forwarded(frame) => Some(frame),
                ToLean::Injected(_) => None,
            },
    )
}

/// Queries do not disturb the client's stream: wherever they are queued, the
/// Lean server reads each queued frame whole and in its order, and what came
/// from Helix is, without them, the client's stream byte for byte.
pub proof fn queries_leave_the_client_stream_intact(queue: Seq<ToLean>, stream: Seq<u8>)
    requires
        from_helix(queue) == codec::frames_in(stream),
        forall|i: int|
            0 <= i < queue.len() && (#[trigger] queue[i]) is Injected ==> codec::whole(
                queue[i]->Injected_0,
            ),
    ensures
        codec::frames_in(codec::wire_bytes(lean_sink(queue))) == lean_sink(queue),
        codec::ends_cleanly(codec::wire_bytes(lean_sink(queue))),
        codec::wire_bytes(from_helix(queue)).is_prefix_of(stream),
        codec::ends_cleanly(stream) ==> codec::wire_bytes(from_helix(queue)) == stream,
{
    codec::frames_read_are_whole(stream);
    assert forall|i: int| 0 <= i < queue.len() implies codec::whole(
        #[trigger] lean_sink(queue)[i],
    ) by {
        match queue[i] {
            ToLean::Forwarded(frame) => {
                lemma_from_helix_holds(queue, i);
                let k = from_helix(queue).index_of(frame);
                assert(codec::frames_in(stream)[k] == frame);
            },
            ToLean::Injected(_) => {},
        }
    }
    codec::written_frames_read_back(lean_sink(queue));
    codec::forwarded_stream_is_verbatim(stream);
}

proof fn lemma_from_helix_holds(queue: Seq<ToLean>, i: int)
    requires
        0 <= i < queue.len(),
        queue[i] is Forwarded,
    ensures
        from_helix(queue).contains(queue[i]->Forwarded_0),
    decreases queue.len(),
{
    let frame = queue[i]->Forwarded_0;
    let before = from_helix(queue.drop_last());
    if i < queue.len() - 1 {
        lemma_from_helix_holds(queue.drop_last(), i);
        let k = before.index_of(frame);
        assert(from_helix(queue)[k] == frame);
    } else {
        assert(from_helix(queue)[before.len() as int] == frame);
    }
}

/// The elaborating flag is right in every state: in the empty one, and whatever is
/// folded in keeps it so.
pub proof fn elaborating_is_always_gated(
    s: wire::SnapshotView,
    pending: Pending,
    kind: TeeKind,
    body: Seq<u8>,
)
    ensures
        tee::gated(wire::SnapshotView::empty()),
        tee::gated(s) ==> tee::gated(after_tee(s, kind, body)),
        tee::gated(s) ==> tee::gated(after_consumed(s, pending, body)),
{
}

/// The counter of the state counts its changes: folding a frame in leaves the
/// state alone, or bumps the counter by exactly one.
pub proof fn seq_counts_changes(
    s: wire::SnapshotView,
    pending: Pending,
    kind: TeeKind,
    body: Seq<u8>,
)
    requires
        s.seq < u64::MAX,
    ensures
        after_tee(s, kind, body) == s || after_tee(s, kind, body).seq == s.seq + 1,
        after_consumed(s, pending, body) == s || after_consumed(s, pending, body).seq == s.seq + 1,
{
}

// ---------------------------------------------------------------------------
// By what a message says
// ---------------------------------------------------------------------------

/// The frame carries the JSON object `t`.
pub open spec fn carries(frame: codec::FrameView, t: json::Tree) -> bool {
    t is Object && json::json_of(frame.body()) == Some(t)
}

/// A JSON object with an outstanding id and no method, whatever else it holds,
/// a result or an error of any shape, answers that query: it never reaches
/// Helix, and settles exactly that query.
pub proof fn any_answer_to_a_query_is_consumed(
    events: Seq<Event>,
    injected: Map<Seq<char>, Pending>,
    frame: codec::FrameView,
    t: json::Tree,
    id: Seq<char>,
)
    requires
        carries(frame, t),
        json::has(t, "id"@, json::Tree::Str(id)),
        !(json::lookup(t->Object_0, "method"@) matches Some(json::Tree::Str(_))),
        outstanding(events, injected).contains_key(id),
    ensures
        helix_sees(events.push(Event::Sent(frame)), injected) == helix_sees(events, injected),
        outstanding(events.push(Event::Sent(frame)), injected) == outstanding(
            events,
            injected,
        ).remove(id),
        answered(outstanding(events, injected), frame.body()) == Some(id),
{
    assert(events.push(Event::Sent(frame)).drop_last() =~= events);
    envelope::every_object_is_classified(t);
}

/// Whatever else the server sends reaches Helix as it came and settles nothing:
/// a body that is no JSON object, a message with a method, one whose id is no
/// text, and one whose id is not outstanding.
pub proof fn anything_else_reaches_helix(
    events: Seq<Event>,
    injected: Map<Seq<char>, Pending>,
    frame: codec::FrameView,
    t: json::Tree,
)
    requires
        ({
            ||| json::json_of(frame.body()) is None
            ||| json::json_of(frame.body()) == Some(t) && !(t is Object)
            ||| carries(frame, t) && (json::lookup(t->Object_0, "method"@) matches Some(
                json::Tree::Str(_),
            ))
            ||| carries(frame, t) && !(json::lookup(t->Object_0, "id"@) matches Some(
                json::Tree::Str(_),
            ))
            ||| carries(frame, t) && (json::lookup(t->Object_0, "id"@) matches Some(
                json::Tree::Str(id),
            ) && !outstanding(events, injected).contains_key(id))
        }),
    ensures
        helix_sees(events.push(Event::Sent(frame)), injected) == helix_sees(
            events,
            injected,
        ).push(frame),
        outstanding(events.push(Event::Sent(frame)), injected) == outstanding(events, injected),
        answered(outstanding(events, injected), frame.body()) is None,
{
    assert(events.push(Event::Sent(frame)).drop_last() =~= events);
    envelope::every_object_is_classified(t);
}

/// Registering a query makes its id outstanding, for what it was registered
/// for; forgetting one makes it not; neither shows in Helix or touches another.
pub proof fn registrations_are_kept(
    events: Seq<Event>,
    injected: Map<Seq<char>, Pending>,
    id: Seq<char>,
    pending: Pending,
)
    ensures
        ({
            let before = outstanding(events, injected);
            let with = events.push(Event::Registered(id, pending));
            let without = events.push(Event::Forgotten(id));
            &&& outstanding(with, injected) == before.insert(id, pending)
            &&& outstanding(without, injected) == before.remove(id)
            &&& helix_sees(with, injected) == helix_sees(events, injected)
            &&& helix_sees(without, injected) == helix_sees(events, injected)
            &&& outstanding(Seq::empty(), injected) == injected
            &&& helix_sees(Seq::empty(), injected) == Seq::<codec::FrameView>::empty()
        }),
{
    assert(events.push(Event::Registered(id, pending)).drop_last() =~= events);
    assert(events.push(Event::Forgotten(id)).drop_last() =~= events);
}

/// Which messages are copied into the state, by their method: notifications of
/// diagnostics and of progress, and no others.
pub proof fn tees_by_method(e: envelope::EnvelopeView)
    ensures
        e.id is None && e.method == Some("textDocument/publishDiagnostics"@) ==> tee_of(Some(e))
            == Some(TeeKind::Diagnostics),
        e.id is None && e.method == Some("$/lean/fileProgress"@) ==> tee_of(Some(e)) == Some(
            TeeKind::Progress,
        ),
        e.id is Some || e.method is None || (e.method != Some("textDocument/publishDiagnostics"@)
            && e.method != Some("$/lean/fileProgress"@)) ==> tee_of(Some(e)) is None,
        tee_of(None) is None,
{
    reveal_strlit("textDocument/publishDiagnostics");
    reveal_strlit("$/lean/fileProgress");
    assert("textDocument/publishDiagnostics"@.len() != "$/lean/fileProgress"@.len());
}

/// Which message answers which query, by its id and method.
pub proof fn answers_by_id(
    injected: Map<Seq<char>, Pending>,
    e: envelope::EnvelopeView,
    id: Seq<char>,
)
    ensures
        e.id == Some(envelope::IdView::Str(id)) && e.method is None && injected.contains_key(id)
            ==> answered_by(injected, Some(e)) == Some(id),
        e.method is Some || !injected.contains_key(id) && e.id == Some(envelope::IdView::Str(id))
            || e.id is None || (e.id matches Some(envelope::IdView::Num(_))) ==> answered_by(
            injected,
            Some(e),
        ) is None,
        answered_by(injected, None) is None,
{
}

/// A notification of diagnostics replaces those of its document in the state,
/// whatever the server sent before.
pub proof fn diagnostics_reach_the_state(
    s: wire::SnapshotView,
    frames: Seq<codec::FrameView>,
    injected: Map<Seq<char>, Pending>,
    frame: codec::FrameView,
    t: json::Tree,
    params: json::Tree,
    uri: Seq<char>,
)
    requires
        carries(frame, t),
        json::has(t, "method"@, json::Tree::Str("textDocument/publishDiagnostics"@)),
        json::lacks(t, "id"@),
        json::has(t, "params"@, params),
        json::has(params, "uri"@, json::Tree::Str(uri)),
    ensures
        ({
            let before = state_after(s, frames, injected);
            let after = state_after(s, frames.push(frame), injected);
            &&& after.diagnostics.contains_key(uri)
            &&& after.diagnostics[uri] == tee::diagnostics_of(params)
            &&& before.seq < u64::MAX ==> after.seq == before.seq + 1
            &&& after.goals == before.goals && after.progress == before.progress
        }),
{
    assert(frames.push(frame).drop_last() =~= frames);
    envelope::every_object_is_classified(t);
    tees_by_method(envelope::envelope_of(t)->0);
    let before = state_after(s, frames, injected);
    tee::diagnostics_are_replaced(before, before, t, params, uri);
}

/// A notification of progress replaces the ranges in the state.
pub proof fn progress_reaches_the_state(
    s: wire::SnapshotView,
    frames: Seq<codec::FrameView>,
    injected: Map<Seq<char>, Pending>,
    frame: codec::FrameView,
    t: json::Tree,
    params: json::Tree,
)
    requires
        carries(frame, t),
        json::has(t, "method"@, json::Tree::Str("$/lean/fileProgress"@)),
        json::lacks(t, "id"@),
        json::has(t, "params"@, params),
    ensures
        ({
            let before = state_after(s, frames, injected);
            let after = state_after(s, frames.push(frame), injected);
            &&& after.progress == tee::progress_of(params)
            &&& after.elaborating <==> after.progress.len() > 0
            &&& before.seq < u64::MAX ==> after.seq == before.seq + 1
            &&& after.goals == before.goals && after.diagnostics == before.diagnostics
        }),
{
    assert(frames.push(frame).drop_last() =~= frames);
    envelope::every_object_is_classified(t);
    tees_by_method(envelope::envelope_of(t)->0);
}

/// An answer to a plain-goal query reaches the state: its result object puts
/// the position in tactic mode, with the goals it lists, for the document that
/// was asked about.
pub proof fn goals_reach_the_state(
    s: wire::SnapshotView,
    frames: Seq<codec::FrameView>,
    injected: Map<Seq<char>, Pending>,
    frame: codec::FrameView,
    t: json::Tree,
    id: Seq<char>,
    result: json::Tree,
)
    requires
        carries(frame, t),
        json::has(t, "id"@, json::Tree::Str(id)),
        json::lacks(t, "method"@),
        outstanding(sent_events(frames), injected).contains_key(id),
        outstanding(sent_events(frames), injected)[id].kind is PlainGoal,
        json::has(t, "result"@, result),
        result is Object,
    ensures
        ({
            let before = state_after(s, frames, injected);
            let after = state_after(s, frames.push(frame), injected);
            &&& after.in_tactic
            &&& after.goals == query::goals_of(Some(result))
            &&& after.doc == Some(outstanding(sent_events(frames), injected)[id].doc@)
            &&& before.seq < u64::MAX ==> after.seq == before.seq + 1
            &&& after.diagnostics == before.diagnostics && after.term_goal == before.term_goal
        }),
{
    assert(frames.push(frame).drop_last() =~= frames);
    envelope::every_object_is_classified(t);
    let before = state_after(s, frames, injected);
    let pending = outstanding(sent_events(frames), injected)[id];
    query::plain_goal_responses(before, before, pending, t, result);
}

/// An answer to a term-goal query reaches the state: its text under `goal` is
/// the expected type.
pub proof fn expected_types_reach_the_state(
    s: wire::SnapshotView,
    frames: Seq<codec::FrameView>,
    injected: Map<Seq<char>, Pending>,
    frame: codec::FrameView,
    t: json::Tree,
    id: Seq<char>,
    result: json::Tree,
    goal: Seq<char>,
)
    requires
        carries(frame, t),
        json::has(t, "id"@, json::Tree::Str(id)),
        json::lacks(t, "method"@),
        outstanding(sent_events(frames), injected).contains_key(id),
        outstanding(sent_events(frames), injected)[id].kind is PlainTermGoal,
        json::has(t, "result"@, result),
        json::has(result, "goal"@, json::Tree::Str(goal)),
    ensures
        ({
            let before = state_after(s, frames, injected);
            let after = state_after(s, frames.push(frame), injected);
            &&& after.term_goal == Some(goal)
            &&& after.doc == Some(outstanding(sent_events(frames), injected)[id].doc@)
            &&& after.goals == before.goals && after.in_tactic == before.in_tactic
        }),
{
    assert(frames.push(frame).drop_last() =~= frames);
    envelope::every_object_is_classified(t);
    let before = state_after(s, frames, injected);
    let pending = outstanding(sent_events(frames), injected)[id];
    query::term_goal_responses(before, pending, t, result);
}

/// Nothing else the server sends changes the state: a body that is no JSON
/// object, a request, a message with another method, and a response that
/// answers no outstanding query.
pub proof fn nothing_else_reaches_the_state(
    s: wire::SnapshotView,
    frames: Seq<codec::FrameView>,
    injected: Map<Seq<char>, Pending>,
    frame: codec::FrameView,
    t: json::Tree,
    method: Seq<char>,
    id: Seq<char>,
)
    requires
        ({
            ||| json::json_of(frame.body()) is None
            ||| json::json_of(frame.body()) == Some(t) && !(t is Object)
            ||| carries(frame, t) && json::has(t, "method"@, json::Tree::Str(method)) && method
                != "textDocument/publishDiagnostics"@ && method != "$/lean/fileProgress"@
            ||| carries(frame, t) && json::has(t, "method"@, json::Tree::Str(method)) && json::has(
                t,
                "id"@,
                json::Tree::Str(id),
            )
            ||| carries(frame, t) && json::lacks(t, "method"@) && json::has(
                t,
                "id"@,
                json::Tree::Str(id),
            ) && !outstanding(sent_events(frames), injected).contains_key(id)
            ||| carries(frame, t) && json::lacks(t, "method"@) && json::lacks(t, "id"@)
        }),
    ensures
        state_after(s, frames.push(frame), injected) == state_after(s, frames, injected),
        state_after(s, Seq::empty(), injected) == s,
{
    assert(frames.push(frame).drop_last() =~= frames);
    envelope::every_object_is_classified(t);
}

/// Folding a copy, and folding an answer, is by the value that the body parses
/// to; a body that does not parse is ignored.
pub proof fn folds_are_by_value(
    s: wire::SnapshotView,
    body: Seq<u8>,
    t: json::Tree,
    pending: Pending,
)
    ensures
        json::json_of(body) == Some(t) ==> {
            &&& after_tee(s, TeeKind::Diagnostics, body) == tee::after_diagnostics(s, t)
            &&& after_tee(s, TeeKind::Progress, body) == tee::after_progress(s, t)
            &&& after_consumed(s, pending, body) == query::after_response(s, pending, t)
        },
        json::json_of(body) is None ==> {
            &&& after_tee(s, TeeKind::Diagnostics, body) == s
            &&& after_tee(s, TeeKind::Progress, body) == s
            &&& after_consumed(s, pending, body) == s
        },
{
}

} // verus!

//! The viewer socket: how the proxy comes by its path.
//!
//! A file left by a crashed proxy is reclaimed. A path held by a live server
//! is left alone: the proxy then runs without a viewer socket. The caller
//! performs each step and reports what came of it.

use vstd::prelude::*;

verus! {

/// What to do next to come by the socket path.
#[derive(Debug, Clone, Copy, PartialEq, Eq, Structural)]
pub enum ClaimStep {
    /// Bind the path.
    Bind,
    /// Connect to the path, to see whether someone serves it.
    Probe,
    /// Remove the file at the path, then bind it.
    Reclaim,
    /// Done: accept viewers on the bound socket.
    Serve,
    /// Done: a live server holds the path.
    StandAside,
    /// Done: report the error of the last step.
    Fail,
}

/// What came of a step.
#[derive(Debug, Clone, Copy, PartialEq, Eq, Structural)]
pub enum ClaimEvent {
    /// The bind succeeded, or the connection was accepted.
    Done,
    /// The bind failed, since the address is in use.
    InUse,
    /// The bind failed otherwise, or the connection was refused.
    Failed,
}

/// The step after `step` has come to `event`.
pub open spec fn claim_next(step: ClaimStep, event: ClaimEvent) -> ClaimStep {
    match (step, event) {
        (ClaimStep::Bind, ClaimEvent::Done) => ClaimStep::Serve,
        (ClaimStep::Bind, ClaimEvent::InUse) => ClaimStep::Probe,
        (ClaimStep::Bind, ClaimEvent::Failed) => ClaimStep::Fail,
        (ClaimStep::Probe, ClaimEvent::Done) => ClaimStep::StandAside,
        (ClaimStep::Probe, _) => ClaimStep::Reclaim,
        (ClaimStep::Reclaim, ClaimEvent::Done) => ClaimStep::Serve,
        (ClaimStep::Reclaim, _) => ClaimStep::Fail,
        (done, _) => done,
    }
}

/// Whether nothing is left to do.
pub open spec fn claim_done(step: ClaimStep) -> bool {
    step is Serve || step is StandAside || step is Fail
}

impl ClaimStep {
    /// The first step.
    pub fn first() -> (r: ClaimStep)
        ensures
            r == ClaimStep::Bind,
    {
        ClaimStep::Bind
    }

    /// The step after this one has come to `event`.
    pub fn next(self, event: ClaimEvent) -> (r: ClaimStep)
        ensures
            r == claim_next(self, event),
    {
        match self {
            ClaimStep::Bind => match event {
                ClaimEvent::Done => ClaimStep::Serve,
                ClaimEvent::InUse => ClaimStep::Probe,
                ClaimEvent::Failed => ClaimStep::Fail,
            },
            ClaimStep::Probe => match event {
                ClaimEvent::Done => ClaimStep::StandAside,
                _ => ClaimStep::Reclaim,
            },
            ClaimStep::Reclaim => match event {
                ClaimEvent::Done => ClaimStep::Serve,
                _ => ClaimStep::Fail,
            },
            ClaimStep::Serve => ClaimStep::Serve,
            ClaimStep::StandAside => ClaimStep::StandAside,
            ClaimStep::Fail => ClaimStep::Fail,
        }
    }
}

/// The step reached after `events`.
pub open spec fn claim_after(events: Seq<ClaimEvent>) -> ClaimStep
    decreases events.len(),
{
    if events.len() == 0 {
        ClaimStep::Bind
    } else {
        claim_next(claim_after(events.drop_last()), events.last())
    }
}

/// A live server is not clobbered: the file is removed only after the path was
/// in use and the connection to it was refused.
pub proof fn live_socket_is_never_removed(events: Seq<ClaimEvent>)
    ensures
        claim_after(events) is Reclaim ==> events.len() == 2 && events[0] == ClaimEvent::InUse
            && events[1] != ClaimEvent::Done,
        claim_after(events) is Probe ==> events.len() == 1 && events[0] == ClaimEvent::InUse,
        claim_after(events) is Bind ==> events.len() == 0,
    decreases events.len(),
{
    if events.len() > 0 {
        live_socket_is_never_removed(events.drop_last());
    }
}

/// Claiming the path takes three steps at the most.
pub proof fn claim_ends(events: Seq<ClaimEvent>)
    requires
        events.len() >= 3,
    ensures
        claim_done(claim_after(events)),
{
    live_socket_is_never_removed(events);
}

/// How claiming goes, whatever is reported afterwards: a path that binds is
/// served; one that is in use is served by whoever answers, or else reclaimed,
/// and then served if it binds; every other failure is reported.
pub proof fn claims_end_as_they_should(rest: Seq<ClaimEvent>)
    ensures
        claim_after(seq![ClaimEvent::Done] + rest) is Serve,
        claim_after(seq![ClaimEvent::Failed] + rest) is Fail,
        claim_after(seq![ClaimEvent::InUse]) is Probe,
        claim_after(seq![ClaimEvent::InUse, ClaimEvent::Done] + rest) is StandAside,
        claim_after(seq![ClaimEvent::InUse, ClaimEvent::Failed]) is Reclaim,
        claim_after(seq![ClaimEvent::InUse, ClaimEvent::InUse]) is Reclaim,
        claim_after(seq![ClaimEvent::InUse, ClaimEvent::Failed, ClaimEvent::Done] + rest) is Serve,
        claim_after(seq![ClaimEvent::InUse, ClaimEvent::Failed, ClaimEvent::Failed] + rest) is Fail,
        claim_after(seq![ClaimEvent::InUse, ClaimEvent::Failed, ClaimEvent::InUse] + rest) is Fail,
{
    reveal_with_fuel(claim_after, 4);
    let a = seq![ClaimEvent::InUse];
    let b = seq![ClaimEvent::InUse, ClaimEvent::Failed];
    assert(claim_after(Seq::empty()) is Bind);
    assert(a.drop_last() =~= Seq::<ClaimEvent>::empty());
    assert(b.drop_last() =~= a);
    assert(claim_after(b) is Reclaim);
    assert(seq![ClaimEvent::InUse, ClaimEvent::InUse].drop_last() =~= a);
    let one = seq![ClaimEvent::Done];
    assert(one.drop_last() =~= Seq::<ClaimEvent>::empty());
    lemma_done_stays(one, rest);
    let two = seq![ClaimEvent::Failed];
    assert(two.drop_last() =~= Seq::<ClaimEvent>::empty());
    lemma_done_stays(two, rest);
    let three = seq![ClaimEvent::InUse, ClaimEvent::Done];
    assert(three.drop_last() =~= a);
    lemma_done_stays(three, rest);
    let four = seq![ClaimEvent::InUse, ClaimEvent::Failed, ClaimEvent::Done];
    assert(four.drop_last() =~= b);
    lemma_done_stays(four, rest);
    let five = seq![ClaimEvent::InUse, ClaimEvent::Failed, ClaimEvent::Failed];
    assert(five.drop_last() =~= b);
    lemma_done_stays(five, rest);
    let six = seq![ClaimEvent::InUse, ClaimEvent::Failed, ClaimEvent::InUse];
    assert(six.drop_last() =~= b);
    lemma_done_stays(six, rest);
}

proof fn lemma_done_stays(events: Seq<ClaimEvent>, rest: Seq<ClaimEvent>)
    requires
        claim_done(claim_after(events)),
    ensures
        claim_after(events + rest) == claim_after(events),
    decreases rest.len(),
{
    if rest.len() > 0 {
        lemma_done_stays(events, rest.drop_last());
        assert((events + rest).drop_last() =~= events + rest.drop_last());
        assert((events + rest).last() == rest.last());
    } else {
        assert(events + rest =~= events);
    }
}

} // verus!

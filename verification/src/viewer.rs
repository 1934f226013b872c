//! What the viewer shows of a snapshot, and how it comes by a proxy.

use crate::text;
use crate::wire::{self, Snapshot};
use vstd::prelude::*;
use vstd::string::StringExecFns;

verus! {

/// One line for each text.
pub open spec fn lines(texts: Seq<Seq<char>>) -> Seq<char>
    decreases texts.len(),
{
    if texts.len() == 0 {
        Seq::empty()
    } else {
        lines(texts.drop_last()) + texts.last() + "\n"@
    }
}

/// The text of a snapshot: the number of goals and each goal, then the
/// expected type, if there is one.
pub open spec fn rendering(s: wire::SnapshotView) -> Seq<char> {
    "── goals ("@ + text::decimal(s.goals.len()) + ") ──\n"@ + lines(s.goals) + (
    match s.term_goal {
        Some(term) => "── expected type ──\n"@ + term + "\n"@,
        None => Seq::empty(),
    })
}

/// The text of a snapshot.
pub fn render(snapshot: &Snapshot) -> (r: String)
    ensures
        r@ == rendering(snapshot@),
{
    let ghost goals = wire::strings_view(snapshot.goals@);
    let mut r: String = "── goals (".to_owned();
    r.append(text::decimal_string(snapshot.goals.len() as u64).as_str());
    r.append(") ──\n");
    let ghost head = r@;
    let mut i: usize = 0;
    assert(r@ =~= head + lines(goals.take(0)));
    while i < snapshot.goals.len()
        invariant
            i <= snapshot.goals@.len(),
            goals == wire::strings_view(snapshot.goals@),
            r@ == head + lines(goals.take(i as int)),
        decreases snapshot.goals.len() - i,
    {
        r.append(snapshot.goals[i].as_str());
        r.append("\n");
        proof {
            assert(goals.take(i + 1).drop_last() =~= goals.take(i as int));
            assert(r@ =~= head + lines(goals.take(i + 1)));
        }
        i = i + 1;
    }
    assert(goals.take(i as int) =~= goals);
    match &snapshot.term_goal {
        Some(term) => {
            r.append("── expected type ──\n");
            r.append(term.as_str());
            r.append("\n");
        },
        None => {},
    }
    assert(r@ =~= rendering(snapshot@));
    r
}

// ---------------------------------------------------------------------------
// Dialling
// ---------------------------------------------------------------------------

/// What the viewer does next. It never ends on its own.
#[derive(Debug, Clone, Copy, PartialEq, Eq, Structural)]
pub enum DialStep {
    /// Connect to the proxy's socket.
    Dial,
    /// Render what the proxy sends, until it disconnects.
    Follow,
    /// Wait a while.
    Wait,
}

/// What came of a step.
#[derive(Debug, Clone, Copy, PartialEq, Eq, Structural)]
pub enum DialEvent {
    /// The proxy answered.
    Connected,
    /// No proxy answered.
    Failed,
    /// The proxy closed the connection, or it broke.
    Disconnected,
    /// The wait is over.
    Waited,
}

/// The step after `step` has come to `event`.
pub open spec fn dial_next(step: DialStep, event: DialEvent) -> DialStep {
    match step {
        DialStep::Dial => if event == DialEvent::Connected {
            DialStep::Follow
        } else {
            DialStep::Wait
        },
        DialStep::Follow => DialStep::Wait,
        DialStep::Wait => DialStep::Dial,
    }
}

impl DialStep {
    /// The first step.
    pub fn first() -> (r: DialStep)
        ensures
            r == DialStep::Dial,
    {
        DialStep::Dial
    }

    /// The step after this one has come to `event`.
    pub fn next(self, event: DialEvent) -> (r: DialStep)
        ensures
            r == dial_next(self, event),
    {
        match self {
            DialStep::Dial => match event {
                DialEvent::Connected => DialStep::Follow,
                _ => DialStep::Wait,
            },
            DialStep::Follow => DialStep::Wait,
            DialStep::Wait => DialStep::Dial,
        }
    }
}

/// The step reached after `events`.
pub open spec fn dial_after(events: Seq<DialEvent>) -> DialStep
    decreases events.len(),
{
    if events.len() == 0 {
        DialStep::Dial
    } else {
        dial_next(dial_after(events.drop_last()), events.last())
    }
}

/// The order in which proxy and viewer start makes no difference, and a proxy
/// may come and go: after whatever has happened, a dial that fails and a
/// connection that ends both lead, by way of one wait, back to dialling, and a
/// dial that is answered to following the proxy.
pub proof fn viewer_dials_again(events: Seq<DialEvent>, waited: DialEvent)
    ensures
        dial_after(Seq::empty()) is Dial,
        waited != DialEvent::Connected && dial_after(events) is Dial ==> dial_after(
            events.push(waited),
        ) is Wait,
        dial_after(events) is Follow ==> dial_after(events.push(waited)) is Wait,
        dial_after(events) is Dial ==> {
            &&& dial_after(events.push(DialEvent::Connected)) is Follow
            &&& dial_after(events.push(DialEvent::Failed)) is Wait
            &&& dial_after(events.push(DialEvent::Failed).push(waited)) is Dial
        },
        dial_after(events) is Follow ==> {
            &&& dial_after(events.push(DialEvent::Disconnected)) is Wait
            &&& dial_after(events.push(DialEvent::Disconnected).push(waited)) is Dial
        },
        dial_after(events) is Wait ==> dial_after(events.push(waited)) is Dial,
{
    let failed = events.push(DialEvent::Failed);
    let ended = events.push(DialEvent::Disconnected);
    assert(events.push(DialEvent::Connected).drop_last() =~= events);
    assert(failed.drop_last() =~= events);
    assert(failed.push(waited).drop_last() =~= failed);
    assert(ended.drop_last() =~= events);
    assert(ended.push(waited).drop_last() =~= ended);
    assert(events.push(waited).drop_last() =~= events);
}

/// What is rendered: the number of goals, then each goal on a line of its own,
/// in their order, then the expected type under its title, if there is one.
/// Nothing else of a snapshot shows.
pub proof fn renderings_show_goals_and_type(
    s: wire::SnapshotView,
    other: wire::SnapshotView,
    goals: Seq<Seq<char>>,
    goal: Seq<char>,
)
    ensures
        ({
            let bare = wire::SnapshotView { term_goal: None, ..s };
            let head = "── goals ("@ + text::decimal(s.goals.len()) + ") ──\n"@;
            &&& rendering(bare) == head + lines(s.goals)
            &&& s.term_goal is None ==> rendering(s) == rendering(bare)
            &&& s.term_goal matches Some(term) ==> rendering(s) == rendering(bare)
                + "── expected type ──\n"@ + term + "\n"@
            &&& other.goals == s.goals && other.term_goal == s.term_goal ==> rendering(other)
                == rendering(s)
        }),
        lines(Seq::empty()) == Seq::<char>::empty(),
        lines(goals.push(goal)) == lines(goals) + goal + "\n"@,
{
    assert(goals.push(goal).drop_last() =~= goals);
    let bare = wire::SnapshotView { term_goal: None, ..s };
    let head = "── goals ("@ + text::decimal(s.goals.len()) + ") ──\n"@;
    assert(rendering(bare) =~= head + lines(s.goals));
    if s.term_goal is None {
        assert(rendering(s) =~= rendering(bare));
    } else {
        assert(rendering(s) =~= rendering(bare) + "── expected type ──\n"@ + s.term_goal->0
            + "\n"@);
    }
}

} // verus!

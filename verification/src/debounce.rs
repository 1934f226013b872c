//! The idle debounce before goal queries fire.

use crate::session::{self, Focus};
use vstd::prelude::*;

verus! {

/// The default debounce, in milliseconds.
pub const DEFAULT_DEBOUNCE_MS: u64 = 120;

/// Holds the latest focus until no newer one has come for a while. Times are
/// milliseconds of a clock of the caller's.
#[derive(Debug)]
pub struct Debouncer {
    delay_ms: u64,
    waiting: Option<(Focus, u64)>,
}

/// The value of a [`Debouncer`].
pub struct DebouncerView {
    pub delay_ms: u64,
    /// The focus that waits, and when it is due.
    pub waiting: Option<(session::FocusView, u64)>,
}

impl View for Debouncer {
    type V = DebouncerView;

    closed spec fn view(&self) -> DebouncerView {
        DebouncerView {
            delay_ms: self.delay_ms,
            waiting: match self.waiting {
                Some((focus, due)) => Some((focus@, due)),
                None => None,
            },
        }
    }
}

/// When a focus that came at `now` is due; at the end of time at the latest.
pub open spec fn due_at(now: u64, delay_ms: u64) -> u64 {
    if now + delay_ms > u64::MAX {
        u64::MAX
    } else {
        (now + delay_ms) as u64
    }
}

impl DebouncerView {
    /// After a focus came at `now`: it waits in place of any earlier one.
    pub open spec fn after_focus(self, focus: session::FocusView, now: u64) -> DebouncerView {
        DebouncerView { waiting: Some((focus, due_at(now, self.delay_ms))), ..self }
    }

    /// The focus that fires at `now`, if any.
    pub open spec fn fires(self, now: u64) -> Option<session::FocusView> {
        match self.waiting {
            Some((focus, due)) => if due <= now {
                Some(focus)
            } else {
                None
            },
            None => None,
        }
    }

    /// After a look at `now`: a focus that fired no longer waits.
    pub open spec fn after_poll(self, now: u64) -> DebouncerView {
        if self.fires(now) is Some {
            DebouncerView { waiting: None, ..self }
        } else {
            self
        }
    }
}

impl Debouncer {
    /// A debouncer with this delay and nothing waiting.
    pub fn new(delay_ms: u64) -> (r: Debouncer)
        ensures
            r@ == (DebouncerView { delay_ms, waiting: None }),
    {
        Debouncer { delay_ms, waiting: None }
    }

    /// A focus has come: it replaces any that waits, and the wait starts anew.
    pub fn focus(&mut self, focus: Focus, now: u64)
        ensures
            final(self)@ == old(self)@.after_focus(focus@, now),
    {
        let due: u64 = if self.delay_ms > u64::MAX - now {
            u64::MAX
        } else {
            now + self.delay_ms
        };
        self.waiting = Some((focus, due));
    }

    /// When to look again, if a focus waits.
    pub fn due(&self) -> (r: Option<u64>)
        ensures
            r == match self@.waiting {
                Some((_, due)) => Some(due),
                None => None,
            },
    {
        match &self.waiting {
            Some((_, due)) => Some(*due),
            None => None,
        }
    }

    /// Take the focus that is due at `now`.
    pub fn poll(&mut self, now: u64) -> (r: Option<Focus>)
        ensures
            session::opt_focus(r) == old(self)@.fires(now),
            final(self)@ == old(self)@.after_poll(now),
    {
        let is_due: bool = match &self.waiting {
            Some((_, due)) => *due <= now,
            None => false,
        };
        if !is_due {
            return None;
        }
        let mut waiting: Option<(Focus, u64)> = None;
        std::mem::swap(&mut waiting, &mut self.waiting);
        match waiting {
            Some((focus, _)) => Some(focus),
            None => None,
        }
    }
}

/// The debouncer after a burst of focuses, each with the time it came at.
pub open spec fn after_burst(
    d: DebouncerView,
    burst: Seq<(session::FocusView, u64)>,
) -> DebouncerView
    decreases burst.len(),
{
    if burst.len() == 0 {
        d
    } else {
        after_burst(d, burst.drop_last()).after_focus(burst.last().0, burst.last().1)
    }
}

/// Of a burst only the last focus fires, only once the debounce has passed
/// since it came, and only once.
pub proof fn burst_fires_its_last_focus_once(
    d: DebouncerView,
    burst: Seq<(session::FocusView, u64)>,
    now: u64,
    later: u64,
)
    requires
        burst.len() > 0,
        burst.last().1 + d.delay_ms <= u64::MAX,
    ensures
        ({
            let after = after_burst(d, burst);
            &&& now < burst.last().1 + d.delay_ms ==> after.fires(now) is None
                && after.after_poll(now) == after
            &&& now >= burst.last().1 + d.delay_ms ==> after.fires(now) == Some(burst.last().0)
                && after.after_poll(now).fires(later) is None
        }),
{
    lemma_burst_keeps_delay(d, burst.drop_last());
}

proof fn lemma_burst_keeps_delay(d: DebouncerView, burst: Seq<(session::FocusView, u64)>)
    ensures
        after_burst(d, burst).delay_ms == d.delay_ms,
    decreases burst.len(),
{
    if burst.len() > 0 {
        lemma_burst_keeps_delay(d, burst.drop_last());
    }
}

/// A focus fires once its wait is over, which is at the latest at the end of
/// time, and not before; it displaces whatever waited.
pub proof fn a_focus_waits_its_time(
    d: DebouncerView,
    focus: session::FocusView,
    now: u64,
    later: u64,
)
    ensures
        d.after_focus(focus, now).fires(later) == if later >= now + d.delay_ms || later
            == u64::MAX {
            Some(focus)
        } else {
            None
        },
        d.after_focus(focus, now).delay_ms == d.delay_ms,
        d.waiting is None ==> d.fires(later) is None && d.after_poll(later) == d,
{
}

/// A poll takes what fires, and leaves everything else.
pub proof fn a_poll_takes_what_fires(d: DebouncerView, now: u64)
    ensures
        d.fires(now) is Some ==> d.after_poll(now).waiting is None,
        d.fires(now) is None ==> d.after_poll(now) == d,
        d.after_poll(now).delay_ms == d.delay_ms,
{
}

/// What waits is the focus that came last, due when its wait is over.
pub proof fn the_last_focus_waits(d: DebouncerView, focus: session::FocusView, now: u64)
    ensures
        now + d.delay_ms <= u64::MAX ==> (d.after_focus(focus, now).waiting matches Some((f, due))
            && f == focus && due == now + d.delay_ms),
        now + d.delay_ms > u64::MAX ==> d.after_focus(focus, now).waiting == Some(
            (focus, u64::MAX),
        ),
{
}

} // verus!

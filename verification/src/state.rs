//! The authoritative in-memory state and the viewer publish channel.
//!
//! Built on `tokio::sync::watch`, which keeps full snapshots and drops to the
//! latest: only the newest value is retained, a fresh subscriber sees it, and
//! a slow or dead viewer never applies backpressure to the producer.

use crate::wire::{Snapshot, SnapshotView};
use tokio::sync::watch;
use vstd::prelude::*;

verus! {

/// `tokio::sync::watch::Sender`, opaque here.
#[verifier::external_type_specification]
#[verifier::external_body]
#[verifier::reject_recursive_types(T)]
pub struct ExWatchSender<T>(watch::Sender<T>);

/// `tokio::sync::watch::Receiver`, opaque here.
#[verifier::external_type_specification]
#[verifier::external_body]
#[verifier::reject_recursive_types(T)]
pub struct ExWatchReceiver<T>(watch::Receiver<T>);

/// The value that a watch channel holds, seen from its only sender.
pub uninterp spec fn latest(tx: watch::Sender<Snapshot>) -> SnapshotView;

/// The value that a receiver has seen last: the one that its channel held
/// under the version that the receiver has noted as last observed. It waits for
/// a newer one.
pub uninterp spec fn last_seen(rx: watch::Receiver<Snapshot>) -> SnapshotView;

/// Whether a receiver reads the channel that a sender sends on.
pub uninterp spec fn follows(rx: watch::Receiver<Snapshot>, tx: watch::Sender<Snapshot>) -> bool;

/// `watch::channel`: a channel that holds `initial`. Its first receiver is
/// dropped.
#[verifier::external_body]
fn watch_channel(initial: Snapshot) -> (tx: watch::Sender<Snapshot>)
    ensures
        latest(tx) == initial@,
{
    watch::channel(initial).0
}

/// `Sender::borrow`: a copy of the value that the channel holds.
#[verifier::external_body]
fn watch_borrow(tx: &watch::Sender<Snapshot>) -> (s: Snapshot)
    ensures
        s@ == latest(*tx),
{
    tx.borrow().clone()
}

/// `Sender::send_replace`: the channel holds `s` from now on, whether or not
/// it has receivers, and every receiver is notified. It stays the same channel,
/// with the same receivers.
#[verifier::external_body]
fn watch_replace(tx: &mut watch::Sender<Snapshot>, s: Snapshot)
    ensures
        latest(*final(tx)) == s@,
        forall|rx: watch::Receiver<Snapshot>| #[trigger]
            follows(rx, *final(tx)) == follows(rx, *old(tx)),
{
    tx.send_replace(s);
}

/// `Sender::subscribe`: a receiver of the same channel that counts the value
/// which the channel holds now as seen.
#[verifier::external_body]
fn watch_subscribe(tx: &watch::Sender<Snapshot>) -> (rx: watch::Receiver<Snapshot>)
    ensures
        last_seen(rx) == latest(*tx),
        follows(rx, *tx),
{
    tx.subscribe()
}

/// `Receiver::borrow_and_update`: a copy of the value that the receiver's
/// channel holds, which counts as seen from then on. With the sender at hand
/// that is the value `latest` names. The receiver stays one of its channel.
#[verifier::external_body]
fn watch_read(rx: &mut watch::Receiver<Snapshot>, _tx: &watch::Sender<Snapshot>) -> (s: Snapshot)
    requires
        follows(*old(rx), *_tx),
    ensures
        s@ == latest(*_tx),
        last_seen(*final(rx)) == latest(*_tx),
        follows(*final(rx), *_tx),
{
    rx.borrow_and_update().clone()
}

/// A handle to the single authoritative [`Snapshot`]. It owns the only sender
/// of its channel.
pub struct StateHandle {
    tx: watch::Sender<Snapshot>,
}

impl View for StateHandle {
    type V = SnapshotView;

    closed spec fn view(&self) -> SnapshotView {
        latest(self.tx)
    }
}

/// Whether two states of a handle publish to the same receivers.
pub open spec fn same_followers(a: StateHandle, b: StateHandle) -> bool {
    forall|rx: watch::Receiver<Snapshot>| #[trigger] b.followed_by(rx) == a.followed_by(rx)
}

/// The state with its counter bumped.
pub open spec fn bumped(s: SnapshotView) -> SnapshotView {
    SnapshotView { seq: (s.seq + 1) as u64, ..s }
}

impl StateHandle {
    /// Whether a receiver gets what this handle publishes.
    pub closed spec fn followed_by(self, rx: watch::Receiver<Snapshot>) -> bool {
        follows(rx, self.tx)
    }

    /// The empty state.
    pub fn new() -> (r: StateHandle)
        ensures
            r@ == SnapshotView::empty(),
    {
        StateHandle { tx: watch_channel(Snapshot::default()) }
    }

    /// A new subscription for a viewer: it sees the current snapshot at once
    /// (replay), then the latest after each update. It starts from the current
    /// snapshot, so only a later update is news to it, and every later update
    /// of this handle is.
    pub fn subscribe(&self) -> (rx: watch::Receiver<Snapshot>)
        ensures
            last_seen(rx) == self@,
            self.followed_by(rx),
    {
        watch_subscribe(&self.tx)
    }

    /// Apply a mutation and publish it, bumping the monotonic `seq`. Works
    /// even with no subscribers, so the latest state is always ready to replay.
    pub fn update<F: FnOnce(&mut Snapshot)>(&mut self, f: F)
        requires
            forall|s: &mut Snapshot| (*s)@ == old(self)@ ==> call_requires(f, (s,)),
            forall|s: &mut Snapshot|
                (*s)@ == old(self)@ && call_ensures(f, (s,), ()) ==> (*final(s)).seq < u64::MAX,
        ensures
            exists|s: &mut Snapshot|
                (*s)@ == old(self)@ && call_ensures(f, (s,), ()) && final(self)@ == bumped(
                    (*final(s))@,
                ),
            same_followers(*old(self), *final(self)),
    {
        let mut s: Snapshot = self.snapshot();
        f(&mut s);
        self.commit(s);
    }

    /// Publish `s` as the next state, bumping its `seq`.
    pub(crate) fn commit(&mut self, s: Snapshot)
        requires
            s.seq < u64::MAX,
        ensures
            final(self)@ == bumped(s@),
            same_followers(*old(self), *final(self)),
    {
        let mut s: Snapshot = s;
        s.seq = s.seq + 1;
        watch_replace(&mut self.tx, s);
    }

    /// What a viewer's subscription shows: the latest snapshot, whatever came
    /// between it and the one the viewer saw last. It counts as seen from then
    /// on.
    pub fn read(&self, rx: &mut watch::Receiver<Snapshot>) -> (s: Snapshot)
        requires
            self.followed_by(*old(rx)),
        ensures
            s@ == self@,
            last_seen(*final(rx)) == self@,
            self.followed_by(*final(rx)),
    {
        watch_read(rx, &self.tx)
    }

    /// A copy of the current snapshot.
    pub fn snapshot(&self) -> (s: Snapshot)
        ensures
            s@ == self@,
    {
        watch_borrow(&self.tx)
    }
}

impl Default for StateHandle {
    fn default() -> (r: StateHandle)
        ensures
            r@ == SnapshotView::empty(),
    {
        StateHandle::new()
    }
}

/// Bumping a state adds one to its counter and changes nothing else.
pub proof fn a_bump_counts_only(s: SnapshotView)
    requires
        s.seq < u64::MAX,
    ensures
        bumped(s).seq == s.seq + 1,
        bumped(s) == (SnapshotView { seq: bumped(s).seq, ..s }),
{
}

} // verus!

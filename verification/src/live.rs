//! The pane factory's event channel: pane reader threads send
//! [`PaneEvent`]s through it and the event loop receives them.

use std::path::PathBuf;
use std::sync::mpsc::{Receiver, SyncSender};
use vstd::prelude::*;
use crate::events::{coalesce_all, pane_event_to_app, EventQueue, PaneEvent};
use crate::layout::PaneId;

verus! {

#[verifier::external_type_specification]
#[verifier::external_body]
#[verifier::reject_recursive_types(T)]
pub struct ExSyncSender<T>(SyncSender<T>);

#[verifier::external_type_specification]
#[verifier::external_body]
#[verifier::reject_recursive_types(T)]
pub struct ExReceiver<T>(Receiver<T>);

#[verifier::external_type_specification]
#[verifier::external_body]
pub struct ExPathBuf(PathBuf);

/// Capacity of the bounded pane event channel.
pub const PANE_EVENT_CHANNEL_CAPACITY: usize = 1024;

/// The number of events the channel that `tx` sends into holds at most.
pub uninterp spec fn channel_capacity(tx: SyncSender<PaneEvent>) -> nat;

/// Creates a bounded channel (`std::sync::mpsc::sync_channel`) that holds
/// at most `capacity` events.
#[verifier::external_body]
fn pane_event_channel(capacity: usize) -> (r: (SyncSender<PaneEvent>, Receiver<PaneEvent>))
    ensures
        channel_capacity(r.0) == capacity,
{
    std::sync::mpsc::sync_channel(capacity)
}

/// Offers an event to a channel without blocking
/// (`std::sync::mpsc::SyncSender::try_send`); a full or closed channel
/// drops it. The result is the event that was offered.
#[verifier::external_body]
fn offer_event(tx: &SyncSender<PaneEvent>, event: PaneEvent) -> (offered: Ghost<PaneEvent>)
    ensures
        offered@ == event,
{
    let _ = tx.try_send(event);
    Ghost(event)
}

/// Takes a waiting pane event without blocking
/// (`std::sync::mpsc::Receiver::try_recv`); none when the channel is empty
/// or closed.
#[verifier::external_body]
fn poll_pane_event(rx: &Receiver<PaneEvent>) -> Option<PaneEvent> {
    rx.try_recv().ok()
}

/// Most pane events taken from the channel in one go, so that a chatty
/// pane cannot starve keyboard input.
pub const MAX_PANE_EVENTS_PER_TICK: usize = 128;

/// Moves waiting pane events, up to [`MAX_PANE_EVENTS_PER_TICK`], into the
/// queue, coalescing them as they arrive.
pub fn drain_pane_events(queue: &mut EventQueue, rx: &Receiver<PaneEvent>)
    requires
        old(queue).wf(),
    ensures
        final(queue).wf(),
        exists|evs: Seq<PaneEvent>| evs.len() <= MAX_PANE_EVENTS_PER_TICK
            && #[trigger] coalesce_all(old(queue)@, evs) == final(queue)@,
{
    let ghost mut evs: Seq<PaneEvent> = Seq::empty();
    let mut n: usize = 0;
    while n < MAX_PANE_EVENTS_PER_TICK
        invariant
            queue.wf(),
            n <= MAX_PANE_EVENTS_PER_TICK,
            evs.len() == n,
            coalesce_all(old(queue)@, evs) == queue@,
        decreases MAX_PANE_EVENTS_PER_TICK - n,
    {
        match poll_pane_event(rx) {
            Some(e) => {
                queue.queue_event_coalesced(pane_event_to_app(e));
                proof {
                    let prev = evs;
                    evs = evs.push(e);
                    assert(evs.drop_last() =~= prev);
                }
                n = n + 1;
            },
            None => {
                break;
            },
        }
    }
}

/// Tells the event loop that pane `pane_id` has new output: offers the
/// channel a [`PaneEvent::Data`] for the pane, which is the result. When
/// the channel is full the loop already has output to draw, and when it is
/// closed nobody listens, so the event is dropped then.
pub fn send_pane_data(event_tx: &SyncSender<PaneEvent>, pane_id: PaneId) -> (offered: Ghost<PaneEvent>)
    ensures
        offered@ == (PaneEvent::Data { pane_id }),
{
    offer_event(event_tx, PaneEvent::Data { pane_id })
}

/// Creates pane backends that report their output through a bounded
/// channel, starting each shell in one working directory.
pub struct LivePaneFactory {
    event_tx: SyncSender<PaneEvent>,
    event_rx: Option<Receiver<PaneEvent>>,
    cwd: PathBuf,
}

impl LivePaneFactory {
    /// The receiving end has not been handed out yet.
    pub closed spec fn has_receiver(&self) -> bool {
        self.event_rx is Some
    }

    /// The receiving end, while the factory still holds it.
    pub closed spec fn receiver(&self) -> Option<Receiver<PaneEvent>> {
        self.event_rx
    }

    /// The number of events the channel holds at most.
    pub closed spec fn capacity(&self) -> nat {
        channel_capacity(self.event_tx)
    }

    /// The sending end of the channel.
    pub closed spec fn event_sender(&self) -> SyncSender<PaneEvent> {
        self.event_tx
    }

    /// The working directory shells start in.
    pub closed spec fn working_dir(&self) -> PathBuf {
        self.cwd
    }

    /// A factory with a fresh channel of [`PANE_EVENT_CHANNEL_CAPACITY`]
    /// events, spawning shells in `cwd`.
    pub fn new(cwd: PathBuf) -> (r: LivePaneFactory)
        ensures
            r.has_receiver(),
            r.working_dir() == cwd,
            r.capacity() == PANE_EVENT_CHANNEL_CAPACITY,
    {
        let (tx, rx) = pane_event_channel(PANE_EVENT_CHANNEL_CAPACITY);
        LivePaneFactory { event_tx: tx, event_rx: Some(rx), cwd }
    }

    /// Hands out the receiving end of the channel, once.
    pub fn event_rx(&mut self) -> (r: Receiver<PaneEvent>)
        requires
            old(self).has_receiver(),
        ensures
            !final(self).has_receiver(),
            old(self).receiver() == Some(r),
            final(self).capacity() == old(self).capacity(),
            final(self).event_sender() == old(self).event_sender(),
            final(self).working_dir() == old(self).working_dir(),
    {
        let rx = self.event_rx.take();
        rx.unwrap()
    }

    /// The sending end, for pane reader threads.
    pub fn sender(&self) -> (r: &SyncSender<PaneEvent>)
        ensures
            *r == self.event_sender(),
    {
        &self.event_tx
    }

    /// The working directory shells start in.
    pub fn cwd(&self) -> (r: &PathBuf)
        ensures
            *r == self.working_dir(),
    {
        &self.cwd
    }
}

} // verus!

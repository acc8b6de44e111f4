//! The bounded queue between the probe readers and the core: events are
//! offered without blocking, and those that find the queue full are counted.
use vstd::prelude::*;
use std::sync::atomic::AtomicU64;
use std::sync::mpsc::{Receiver, SyncSender};
use std::sync::Arc;
use crate::events::TraceEvent;

verus! {

#[verifier::external_type_specification]
#[verifier::external_body]
#[verifier::reject_recursive_types(T)]
pub struct ExSyncSender<T>(std::sync::mpsc::SyncSender<T>);

/// What became of an event offered to the queue.
pub enum Offer {
    Queued,
    Full,
    Closed,
}

/// Whether an offer succeeded: only a queued event does.
pub fn accepted(outcome: &Offer) -> (r: bool)
    ensures
        r == (*outcome is Queued),
{
    match outcome {
        Offer::Queued => true,
        Offer::Full => false,
        Offer::Closed => false,
    }
}

/// Whether an offer counts as a dropped event: only one that found the
/// queue full does, not one whose receiver is gone.
pub fn counts_as_dropped(outcome: &Offer) -> (r: bool)
    ensures
        r == (*outcome is Full),
{
    match outcome {
        Offer::Queued => false,
        Offer::Full => true,
        Offer::Closed => false,
    }
}

/// `std::sync::mpsc::sync_channel`: a queue of the given capacity. Nothing
/// is claimed of the two ends beyond their types.
#[verifier::external_body]
fn open_queue(capacity: usize) -> (SyncSender<TraceEvent>, Receiver<TraceEvent>) {
    std::sync::mpsc::sync_channel(capacity)
}

/// `SyncSender::clone`: another handle on the same queue.
#[verifier::external_body]
fn copy_sender(sender: &SyncSender<TraceEvent>) -> SyncSender<TraceEvent> {
    sender.clone()
}

/// `SyncSender::try_send`: queued, refused because the queue is full, or
/// refused because the receiver is gone. Which one depends on the receiving
/// thread, so nothing is claimed of it.
#[verifier::external_body]
fn offer(sender: &SyncSender<TraceEvent>, event: TraceEvent) -> Offer {
    match sender.try_send(event) {
        Ok(()) => Offer::Queued,
        Err(std::sync::mpsc::TrySendError::Full(_)) => Offer::Full,
        Err(std::sync::mpsc::TrySendError::Disconnected(_)) => Offer::Closed,
    }
}

/// The queue's capacity and the count of events dropped because it was full.
#[derive(Debug, Clone)]
pub struct EventQueueStats {
    capacity: usize,
    dropped: Arc<AtomicU64>,
}

impl EventQueueStats {
    pub closed spec fn capacity_spec(&self) -> usize {
        self.capacity
    }

    pub fn capacity(&self) -> (r: usize)
        ensures
            r == self.capacity_spec(),
    {
        self.capacity
    }

    /// Events dropped so far, by every sender of the queue. Other threads
    /// add to the count, so nothing is claimed of it.
    pub fn dropped(&self) -> u64 {
        self.dropped.load(std::sync::atomic::Ordering::Relaxed)
    }

    pub fn duplicate(&self) -> (r: Self)
        ensures
            r.capacity_spec() == self.capacity_spec(),
    {
        EventQueueStats { capacity: self.capacity, dropped: self.dropped.clone() }
    }
}

/// The sending end of the queue.
#[derive(Debug)]
pub struct EventSender {
    sender: SyncSender<TraceEvent>,
    stats: EventQueueStats,
}

impl EventSender {
    pub closed spec fn capacity_spec(&self) -> usize {
        self.stats.capacity_spec()
    }

    /// Offers an event without blocking: true when it was queued; an event
    /// that finds the queue full is counted as dropped, one whose receiver
    /// is gone is not.
    pub fn try_send(&self, event: TraceEvent) -> bool {
        let outcome = offer(&self.sender, event);
        if counts_as_dropped(&outcome) {
            self.stats.dropped.fetch_add(1, std::sync::atomic::Ordering::Relaxed);
        }
        accepted(&outcome)
    }

    pub fn stats(&self) -> (r: EventQueueStats)
        ensures
            r.capacity_spec() == self.capacity_spec(),
    {
        self.stats.duplicate()
    }
}

impl Clone for EventSender {
    fn clone(&self) -> (r: Self)
        ensures
            r.capacity_spec() == self.capacity_spec(),
    {
        EventSender { sender: copy_sender(&self.sender), stats: self.stats.duplicate() }
    }
}

/// A queue of `capacity` events: its sending end and its receiving end.
pub fn event_channel(capacity: usize) -> (r: (EventSender, Receiver<TraceEvent>))
    requires
        capacity > 0,
    ensures
        r.0.capacity_spec() == capacity,
{
    let (sender, receiver) = open_queue(capacity);
    let stats = EventQueueStats { capacity, dropped: Arc::new(AtomicU64::new(0)) };
    (EventSender { sender, stats }, receiver)
}

} // verus!

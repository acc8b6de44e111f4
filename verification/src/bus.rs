//! Fan-out of telemetry events to subscribers, and the correlation step.
use vstd::prelude::*;
use std::sync::mpsc::{Receiver, Sender};
use crate::events::TraceEvent;
use crate::table::kept_seq;

verus! {

#[verifier::external_type_specification]
#[verifier::external_body]
#[verifier::reject_recursive_types(T)]
pub struct ExSender<T>(std::sync::mpsc::Sender<T>);

#[verifier::external_type_specification]
#[verifier::external_body]
#[verifier::reject_recursive_types(T)]
pub struct ExReceiver<T>(std::sync::mpsc::Receiver<T>);

/// `std::sync::mpsc::channel`: a new unbounded channel. Nothing is claimed of
/// the two ends beyond their types.
#[verifier::external_body]
fn open_channel() -> (Sender<TraceEvent>, Receiver<TraceEvent>) {
    std::sync::mpsc::channel()
}

/// `Sender::send`: whether the event was handed to a receiver that still
/// exists. Which way it goes depends on the receiver's owner, so nothing is
/// claimed of the result.
#[verifier::external_body]
fn send_event(sender: &Sender<TraceEvent>, event: TraceEvent) -> (delivered: bool) {
    sender.send(event).is_ok()
}

#[derive(Debug)]
pub struct EventBus {
    subscribers: Vec<Sender<TraceEvent>>,
}

impl EventBus {
    /// The subscribers' sending ends, oldest first.
    pub closed spec fn subscribers(&self) -> Seq<Sender<TraceEvent>> {
        self.subscribers@
    }

    pub fn new() -> (r: Self)
        ensures
            r.subscribers().len() == 0,
    {
        EventBus { subscribers: Vec::new() }
    }

    /// Adds a subscriber and returns its receiving end.
    pub fn subscribe(&mut self) -> (r: Receiver<TraceEvent>)
        ensures
            final(self).subscribers().len() == old(self).subscribers().len() + 1,
            final(self).subscribers().drop_last() == old(self).subscribers(),
    {
        let (sender, receiver) = open_channel();
        self.subscribers.push(sender);
        assert(self.subscribers@.drop_last() =~= old(self).subscribers@);
        receiver
    }

    /// Sends a copy of the event to every subscriber and drops, in order,
    /// those whose receiver is gone.
    pub fn publish(&mut self, event: TraceEvent)
        ensures
            exists|delivered: Seq<bool>|
                delivered.len() == old(self).subscribers().len() && final(self).subscribers()
                    == #[trigger] kept_seq(old(self).subscribers(), delivered),
    {
        let mut delivered: Vec<bool> = Vec::new();
        let mut i: usize = 0;
        while i < self.subscribers.len()
            invariant
                i <= self.subscribers@.len(),
                delivered@.len() == i,
            decreases self.subscribers.len() - i,
        {
            delivered.push(send_event(&self.subscribers[i], event.duplicate()));
            i += 1;
        }
        let mut subscribers: Vec<Sender<TraceEvent>> = Vec::new();
        std::mem::swap(&mut subscribers, &mut self.subscribers);
        self.subscribers = keep_delivered(subscribers, &delivered);
        assert(self.subscribers() == kept_seq(old(self).subscribers(), delivered@));
    }
}

/// The subscribers whose delivery succeeded, in their order: the keep
/// step of `publish`, over the outcomes of the sends.
pub fn keep_delivered(subscribers: Vec<Sender<TraceEvent>>, delivered: &Vec<bool>) -> (r: Vec<Sender<TraceEvent>>)
    requires
        delivered@.len() == subscribers@.len(),
    ensures
        r@ == kept_seq(subscribers@, delivered@),
{
    let ghost before = subscribers@;
    let mut rest = subscribers;
    let mut kept: Vec<Sender<TraceEvent>> = Vec::new();
    let mut i: usize = 0;
    let n = delivered.len();
    assert(before.skip(0) =~= before);
    while rest.len() > 0
        invariant
            before.len() == delivered@.len(),
            n == delivered@.len(),
            i <= before.len(),
            rest@ == before.skip(i as int),
            rest@.len() == before.len() - i,
            kept@ == kept_seq(before.take(i as int), delivered@.take(i as int)),
        decreases rest@.len(),
    {
        let sender = rest.remove(0);
        proof {
            assert(before.take(i + 1).drop_last() =~= before.take(i as int));
            assert(delivered@.take(i + 1).drop_last() =~= delivered@.take(i as int));
            assert(before.take(i + 1).last() == sender);
            assert(before.skip(i + 1) =~= before.skip(i as int).drop_first());
        }
        if delivered[i] {
            kept.push(sender);
        }
        i += 1;
    }
    assert(before.take(before.len() as int) =~= before);
    assert(delivered@.take(before.len() as int) =~= delivered@);
    kept
}

impl Default for EventBus {
    fn default() -> (r: Self)
        ensures
            r.subscribers().len() == 0,
    {
        EventBus::new()
    }
}

/// Joins an event with the process, DNS, socket and connection state known
/// so far; for now it hands the event on unchanged.
#[derive(Debug, Default)]
pub struct EventCorrelator;

impl EventCorrelator {
    pub fn new() -> (r: Self) {
        EventCorrelator
    }

    pub fn correlate(&self, event: TraceEvent) -> (r: TraceEvent)
        ensures
            r == event,
    {
        event
    }
}

} // verus!

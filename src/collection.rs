//! What producers send to a trace's collector, and the route they send it by.
use vstd::prelude::*;

use std::sync::atomic::{AtomicBool, Ordering};
use std::sync::Arc;

use crate::clock::Cycle;
use crate::properties::Properties;
use crate::span::RawSpan;

verus! {

#[verifier::external_type_specification]
#[verifier::external_body]
#[verifier::reject_recursive_types(T)]
pub struct ExSender<T>(crossbeam_channel::Sender<T>);

#[verifier::external_type_specification]
#[verifier::external_body]
#[verifier::reject_recursive_types(T)]
pub struct ExReceiver<T>(crossbeam_channel::Receiver<T>);

/// Relies on `Clone for crossbeam_channel::Sender`: another sender on the
/// same channel.
pub assume_specification<T>[ <crossbeam_channel::Sender<T> as std::clone::Clone>::clone ](
    s: &crossbeam_channel::Sender<T>,
) -> crossbeam_channel::Sender<T>;

/// Spans recorded on one thread, in the order they were opened, with the
/// properties attached to them.
#[derive(Clone, Debug)]
pub struct LocalSpans {
    pub spans: Vec<RawSpan>,
    pub properties: Properties,
    pub end_time: Cycle,
}

/// One submission to a collector.
#[derive(Clone, Debug)]
pub enum SpanCollection {
    /// A finished scope span.
    ScopeSpan(RawSpan),
    /// A thread's batch; its top-level spans hang under `parent_scope_id`.
    LocalSpans { spans: LocalSpans, parent_scope_id: u32 },
}

/// Relies on `crossbeam_channel::unbounded`: a new channel with no bound.
#[verifier::external_body]
pub(crate) fn new_channel() -> (r: (crossbeam_channel::Sender<SpanCollection>, crossbeam_channel::Receiver<SpanCollection>)) {
    crossbeam_channel::unbounded()
}

/// Relies on `crossbeam_channel::Sender::send`: queues `msg`; when the
/// receiver is gone the message is dropped.
#[verifier::external_body]
fn send(tx: &crossbeam_channel::Sender<SpanCollection>, msg: SpanCollection) {
    let _ = tx.send(msg);
}

/// Relies on `crossbeam_channel::Receiver::try_iter`: the messages queued
/// now, without waiting.
#[verifier::external_body]
pub(crate) fn receive_ready(rx: &crossbeam_channel::Receiver<SpanCollection>) -> (r: Vec<SpanCollection>) {
    rx.try_iter().collect()
}

/// Relies on `crossbeam_channel::Receiver::iter`: every message, waiting
/// until all senders are dropped.
#[verifier::external_body]
pub(crate) fn receive_all(rx: &crossbeam_channel::Receiver<SpanCollection>) -> (r: Vec<SpanCollection>) {
    rx.iter().collect()
}

/// A producer's route to one collector: the sending end of its channel and
/// the flag that the collector raises when it has drained.
#[derive(Clone, Debug)]
pub struct Acquirer {
    sender: crossbeam_channel::Sender<SpanCollection>,
    closed: Arc<AtomicBool>,
}

impl Acquirer {
    pub fn new(sender: crossbeam_channel::Sender<SpanCollection>, closed: Arc<AtomicBool>) -> (a: Acquirer) {
        Acquirer { sender, closed }
    }

    /// Whether the collector has already drained.
    pub fn is_shutdown(&self) -> bool {
        self.closed.load(Ordering::Acquire)
    }

    /// Sends `collection` unless the collector has already drained; returns
    /// whether it was sent.
    pub fn submit(&self, collection: SpanCollection) -> (sent: bool) {
        if self.is_shutdown() {
            false
        } else {
            send(&self.sender, collection);
            true
        }
    }
}

} // verus!

//! Span ids: a 16-bit epoch drawn from a shared counter, then a 16-bit
//! count within the epoch. Id 0 is never handed out.
use vstd::prelude::*;

use std::sync::atomic::{AtomicU32, Ordering};
use std::sync::Arc;

verus! {

pub const EPOCH_SIZE: u32 = 0x1_0000;

/// The id made of an epoch and a count.
pub open spec fn id_of(epoch: u32, count: u32) -> int {
    epoch * EPOCH_SIZE + count
}

/// Where epochs come from; one per process, shared by every thread.
#[derive(Clone, Debug)]
pub struct IdEpochs {
    next: Arc<AtomicU32>,
}

impl IdEpochs {
    pub fn new() -> IdEpochs {
        IdEpochs { next: Arc::new(AtomicU32::new(0)) }
    }

    /// Takes the next epoch, wrapping within 16 bits.
    fn take(&self) -> (e: u32)
        ensures
            e < EPOCH_SIZE,
    {
        let raw = self.next.fetch_add(1, Ordering::Relaxed);
        raw % EPOCH_SIZE
    }
}

/// Hands out ids on one thread.
#[derive(Debug)]
pub struct IdGenerator {
    epochs: IdEpochs,
    epoch: u32,
    count: u32,
}

impl IdGenerator {
    pub closed spec fn wf(&self) -> bool {
        &&& self.epoch < EPOCH_SIZE
        &&& self.count < EPOCH_SIZE
    }

    pub closed spec fn last_id(&self) -> int {
        id_of(self.epoch, self.count)
    }

    /// Whether the next id follows the last one in the same epoch.
    pub closed spec fn next_in_epoch(&self) -> bool {
        self.count + 1 < EPOCH_SIZE
    }

    pub fn new(epochs: IdEpochs) -> (g: IdGenerator)
        ensures
            g.wf(),
    {
        let epoch = epochs.take();
        IdGenerator { epochs, epoch, count: 0 }
    }

    /// The next id: above the last one within an epoch, never 0.
    pub fn next_id(&mut self) -> (id: u32)
        requires
            old(self).wf(),
        ensures
            final(self).wf(),
            id != 0,
            id == final(self).last_id(),
            id != old(self).last_id(),
            old(self).next_in_epoch() ==> id == old(self).last_id() + 1,
    {
        let ghost old_epoch = self.epoch;
        let ghost old_count = self.count;
        if self.count + 1 >= EPOCH_SIZE {
            self.epoch = self.epochs.take();
            self.count = 0;
        }
        self.count = self.count + 1;
        assert(self.epoch * EPOCH_SIZE + self.count <= (EPOCH_SIZE - 1) * EPOCH_SIZE + EPOCH_SIZE - 1) by (nonlinear_arith)
            requires self.epoch < EPOCH_SIZE, self.count < EPOCH_SIZE;
        assert(self.epoch * EPOCH_SIZE + self.count != old_epoch * EPOCH_SIZE + old_count) by (nonlinear_arith)
            requires
                self.count != old_count,
                self.count < EPOCH_SIZE,
                old_count < EPOCH_SIZE,
                EPOCH_SIZE == 0x1_0000,
        ;
        self.epoch * EPOCH_SIZE + self.count
    }
}

} // verus!

//! The clock: a monotonic counter and one anchor that maps it to Unix time.
use vstd::prelude::*;

verus! {

/// A reading of the monotonic counter.
pub type Cycle = u64;

/// Counter readings made by `now` tick this many times a second.
pub const CYCLES_PER_SECOND: u64 = 1_000_000_000;

pub const NANOS_PER_SECOND: u64 = 1_000_000_000;

/// One counter reading paired with the Unix time at which it was taken.
#[derive(Clone, Copy, Debug, PartialEq, Eq)]
pub struct Anchor {
    pub cycle: Cycle,
    pub unix_time_ns: u64,
    pub cycles_per_second: u64,
}

impl Anchor {
    pub open spec fn wf(self) -> bool {
        self.cycles_per_second > 0
    }
}

/// Nanoseconds in `cycles` counter ticks, rounded down.
pub open spec fn ticks_to_ns(cycles: int, cycles_per_second: int) -> int {
    cycles * NANOS_PER_SECOND / cycles_per_second
}

pub open spec fn clamp_u64(x: int) -> u64 {
    if x < 0 {
        0
    } else if x > u64::MAX {
        u64::MAX
    } else {
        x as u64
    }
}

/// The Unix time of a counter reading: the anchor's time moved forward or
/// backward by the ticks between the reading and the anchor, kept in `u64`.
pub open spec fn unix_time_of(cycle: Cycle, anchor: Anchor) -> u64 {
    if cycle >= anchor.cycle {
        clamp_u64(anchor.unix_time_ns + ticks_to_ns(cycle - anchor.cycle, anchor.cycles_per_second as int))
    } else {
        clamp_u64(anchor.unix_time_ns - ticks_to_ns(anchor.cycle - cycle, anchor.cycles_per_second as int))
    }
}

fn ticks_to_ns_exec(cycles: u64, cycles_per_second: u64) -> (r: u128)
    requires
        cycles_per_second > 0,
    ensures
        r == ticks_to_ns(cycles as int, cycles_per_second as int),
        r <= cycles * NANOS_PER_SECOND,
{
    assert(cycles * 1_000_000_000 <= u64::MAX * 1_000_000_000) by (nonlinear_arith)
        requires cycles <= u64::MAX;
    let prod: u128 = cycles as u128 * NANOS_PER_SECOND as u128;
    let r = prod / cycles_per_second as u128;
    assert(prod as int / cycles_per_second as int <= prod as int) by (nonlinear_arith)
        requires cycles_per_second >= 1, prod >= 0;
    r
}

/// Converts a counter reading to Unix nanoseconds through `anchor`.
/// Differences are taken in the direction that cannot underflow, and the
/// result saturates at the ends of `u64`.
pub fn cycle_to_unix_time_ns(cycle: Cycle, anchor: Anchor) -> (r: u64)
    requires
        anchor.wf(),
    ensures
        r == unix_time_of(cycle, anchor),
{
    if cycle >= anchor.cycle {
        let forward = ticks_to_ns_exec(cycle - anchor.cycle, anchor.cycles_per_second);
        let t: u128 = anchor.unix_time_ns as u128 + forward;
        if t > u64::MAX as u128 {
            u64::MAX
        } else {
            t as u64
        }
    } else {
        let backward = ticks_to_ns_exec(anchor.cycle - cycle, anchor.cycles_per_second);
        if backward > anchor.unix_time_ns as u128 {
            0
        } else {
            (anchor.unix_time_ns as u128 - backward) as u64
        }
    }
}

/// Nanoseconds in `cycles` ticks of a counter that runs at
/// `cycles_per_second`, saturating at `u64::MAX`.
pub fn cycles_to_ns(cycles: u64, cycles_per_second: u64) -> (r: u64)
    requires
        cycles_per_second > 0,
    ensures
        r == clamp_u64(ticks_to_ns(cycles as int, cycles_per_second as int)),
{
    let ns = ticks_to_ns_exec(cycles, cycles_per_second);
    if ns > u64::MAX as u128 {
        u64::MAX
    } else {
        ns as u64
    }
}

/// Relies on `minstant::Instant::now` and `saturating_duration_since`: the
/// monotonic clock read as nanoseconds since its zero instant.
#[verifier::external_body]
pub(crate) fn now() -> (r: Cycle) {
    minstant::Instant::now().saturating_duration_since(minstant::Instant::ZERO).as_nanos() as u64
}

/// A reading to end a span with: never 0, which marks a span unfinished.
pub(crate) fn end_now() -> (r: Cycle)
    ensures
        r > 0,
{
    let t = now();
    if t == 0 {
        1
    } else {
        t
    }
}

/// Relies on `std::time::SystemTime::now` and `duration_since(UNIX_EPOCH)`:
/// the wall clock in nanoseconds since the Unix epoch, or 0 before it.
#[verifier::external_body]
pub fn real_time_ns() -> (r: u64) {
    match std::time::SystemTime::now().duration_since(std::time::UNIX_EPOCH) {
        Ok(d) => d.as_nanos() as u64,
        Err(_) => 0,
    }
}

/// Takes the anchor: one counter reading and the wall clock next to it.
pub fn anchor() -> (a: Anchor)
    ensures
        a.wf(),
        a.cycles_per_second == CYCLES_PER_SECOND,
{
    let cycle = now();
    let unix_time_ns = real_time_ns();
    Anchor { cycle, unix_time_ns, cycles_per_second: CYCLES_PER_SECOND }
}

} // verus!

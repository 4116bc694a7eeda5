//! Per-stage cycle counters for the producer's log call, for benchmarks.
//!
//! A [`Profiler`] holds one accumulator per lane. When it is disabled every
//! operation is a no-op and [`tick`] reads as zero, so a disabled profiler
//! costs the hot path nothing.
use vstd::prelude::*;

verus! {

/// Total cycles inside the log call.
pub const L_TOTAL: usize = 0;
/// Cycles spent reading the record timestamp.
pub const L_TIMESTAMP: usize = 1;
/// Cycles spent reserving space.
pub const L_RESERVE: usize = 2;
/// Cycles spent encoding the record.
pub const L_ASSEMBLE: usize = 3;
/// Cycles spent publishing the slot to the drain.
pub const L_PUBLISH: usize = 4;
/// Cycles spent confirming the drain tail on the cold path.
pub const L_COLD_CONFIRM: usize = 5;
/// Number of records dispatched.
pub const C_CALLS: usize = 6;
/// Number of records dropped.
pub const C_DROPS: usize = 7;
/// Number of lanes.
pub const LANES: usize = 8;

/// A set of lane accumulators.
pub struct Profiler {
    enabled: bool,
    lanes: Vec<u64>,
}

impl Profiler {
    pub closed spec fn spec_enabled(&self) -> bool {
        self.enabled
    }

    /// The lane values.
    pub closed spec fn spec_lanes(&self) -> Seq<u64> {
        self.lanes@
    }

    pub open spec fn wf(&self) -> bool {
        self.spec_lanes().len() == LANES
    }

    /// A profiler with every lane at zero.
    pub fn new(enabled: bool) -> (p: Profiler)
        ensures
            p.wf(),
            p.spec_enabled() == enabled,
            p.spec_lanes() == Seq::new(LANES as nat, |i: int| 0u64),
    {
        let lanes = vec![0u64, 0, 0, 0, 0, 0, 0, 0];
        proof {
            assert(lanes@ =~= Seq::new(LANES as nat, |i: int| 0u64));
        }
        Profiler { enabled, lanes }
    }

    pub fn enabled(&self) -> (b: bool)
        ensures
            b == self.spec_enabled(),
    {
        self.enabled
    }
}

/// The counter reading to record: `now` when the profiler is enabled, `0`
/// otherwise.
pub fn tick(p: &Profiler, now: u64) -> (t: u64)
    ensures
        t == (if p.spec_enabled() { now } else { 0 }),
{
    if p.enabled {
        now
    } else {
        0
    }
}

/// The lanes after adding `delta` to lane `lane` (wrapping); unchanged
/// when the profiler is disabled.
pub open spec fn lanes_after_add(lanes: Seq<u64>, enabled: bool, lane: usize, delta: u64) -> Seq<u64> {
    if enabled {
        lanes.update(lane as int, lanes[lane as int].wrapping_add(delta))
    } else {
        lanes
    }
}

/// Adds `delta` to lane `lane` (wrapping) when the profiler is enabled.
pub fn add(p: &mut Profiler, lane: usize, delta: u64)
    requires
        old(p).wf(),
        old(p).spec_enabled() ==> lane < LANES,
    ensures
        final(p).wf(),
        final(p).spec_enabled() == old(p).spec_enabled(),
        final(p).spec_lanes() == lanes_after_add(old(p).spec_lanes(), old(p).spec_enabled(), lane, delta),
{
    if !p.enabled {
        return;
    }
    let v = p.lanes[lane].wrapping_add(delta);
    p.lanes.set(lane, v);
}

/// Adds one to lane `lane` when the profiler is enabled: exactly what
/// `add(p, lane, 1)` does.
pub fn bump(p: &mut Profiler, lane: usize)
    requires
        old(p).wf(),
        old(p).spec_enabled() ==> lane < LANES,
    ensures
        final(p).wf(),
        final(p).spec_enabled() == old(p).spec_enabled(),
        final(p).spec_lanes() == lanes_after_add(old(p).spec_lanes(), old(p).spec_enabled(), lane, 1),
{
    self::add(p, lane, 1);
}

/// Returns the lane values and zeroes them.
pub fn take(p: &mut Profiler) -> (lanes: Vec<u64>)
    requires
        old(p).wf(),
    ensures
        lanes@ == old(p).spec_lanes(),
        final(p).wf(),
        final(p).spec_enabled() == old(p).spec_enabled(),
        final(p).spec_lanes() == Seq::new(LANES as nat, |i: int| 0u64),
{
    let zero = vec![0u64, 0, 0, 0, 0, 0, 0, 0];
    proof {
        assert(zero@ =~= Seq::new(LANES as nat, |i: int| 0u64));
    }
    let mut out = zero;
    std::mem::swap(&mut out, &mut p.lanes);
    out
}

} // verus!

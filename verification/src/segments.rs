//! Sizing and recycling of the segments the segmented policies hand off.
//!
//! Under the bounded policy a fixed pool of segments is preallocated; a
//! fully drained segment goes back to the pool exactly once per use. Under
//! the unbounded policy segments are allocated on demand and never pooled.
use vstd::prelude::*;
use crate::ring::{RingBuffer, MAX_CAPACITY, SLOT_SIZE};
use crate::builder::Backpressure;
use crate::bits::is_pow2_u64;

verus! {

/// Total memory budget of the bounded segment pool, in bytes.
pub const NANOLOG_POOL_BUDGET: usize = 8_388_608;
/// Number of primary arena regions for the unbounded policy.
pub const QUILL_PRIMARY_REGIONS: usize = 8;

/// Number of segments in the bounded pool: as many segments of
/// `ring_capacity` bytes as the budget holds, and at least one.
pub fn pool_size(ring_capacity: usize) -> (n: usize)
    requires
        ring_capacity > 0,
    ensures
        n == (if NANOLOG_POOL_BUDGET / ring_capacity >= 1 { NANOLOG_POOL_BUDGET / ring_capacity } else { 1 }),
        n >= 1,
{
    let n = NANOLOG_POOL_BUDGET / ring_capacity;
    if n >= 1 {
        n
    } else {
        1
    }
}

/// The segments preallocated for a policy: under the bounded policy
/// ([`Backpressure::NanoLog`]) a full pool of [`pool_size`] empty,
/// returnable segments of `ring_capacity` bytes; none otherwise (the
/// unbounded policy allocates on demand).
pub fn spare_rings(policy: Backpressure, ring_capacity: usize) -> (v: Vec<RingBuffer>)
    requires
        is_pow2_u64(ring_capacity as int),
        SLOT_SIZE <= ring_capacity <= MAX_CAPACITY,
        ring_capacity <= isize::MAX,
    ensures
        v@.len() == (if policy == Backpressure::NanoLog {
            if NANOLOG_POOL_BUDGET / ring_capacity >= 1 { NANOLOG_POOL_BUDGET / ring_capacity } else { 1 }
        } else {
            0
        }),
        forall|i: int| 0 <= i < v@.len() ==> {
            &&& (#[trigger] v@[i]).wf()
            &&& v@[i].spec_capacity() == ring_capacity
            &&& v@[i].spec_recyclable()
            &&& !v@[i].spec_recycled()
            &&& v@[i].spec_live()
            &&& v@[i].pending().len() == 0
        },
{
    let n = if policy == Backpressure::NanoLog { pool_size(ring_capacity) } else { 0 };
    let mut v: Vec<RingBuffer> = Vec::new();
    let mut k: usize = 0;
    while k < n
        invariant
            k <= n,
            v@.len() == k,
            forall|i: int| 0 <= i < v@.len() ==> {
                &&& (#[trigger] v@[i]).wf()
                &&& v@[i].spec_capacity() == ring_capacity
                &&& v@[i].spec_recyclable()
                &&& !v@[i].spec_recycled()
                &&& v@[i].spec_live()
                &&& v@[i].pending().len() == 0
            },
            is_pow2_u64(ring_capacity as int),
            SLOT_SIZE <= ring_capacity <= MAX_CAPACITY,
            ring_capacity <= isize::MAX,
        decreases n - k,
    {
        v.push(RingBuffer::with_capacity_pooled(ring_capacity, true));
        k = k + 1;
    }
    v
}

/// Returns a fully drained segment to the pool from the drain side: true
/// when the segment is pool-backed and had not been returned since it was
/// last claimed (it is then marked as returned); false otherwise, with
/// nothing changed.
pub fn drain_recycle(ring: &mut RingBuffer) -> (recycled: bool)
    ensures
        recycled == (old(ring).spec_recyclable() && !old(ring).spec_recycled()),
        final(ring).spec_recycled() == (old(ring).spec_recycled() || old(ring).spec_recyclable()),
        final(ring).spec_data() == old(ring).spec_data(),
        final(ring).spec_head() == old(ring).spec_head(),
        final(ring).spec_tail() == old(ring).spec_tail(),
        final(ring).spec_live() == old(ring).spec_live(),
        final(ring).spec_serial() == old(ring).spec_serial(),
        final(ring).spec_handed_off() == old(ring).spec_handed_off(),
        final(ring).spec_helper_reserved() == old(ring).spec_helper_reserved(),
        final(ring).spec_recyclable() == old(ring).spec_recyclable(),
{
    ring.recyclable() && ring.mark_recycled()
}

/// A segment returned to the pool is not returned again until it is
/// claimed (reset) anew.
pub proof fn law_recycled_once(before: RingBuffer, after: RingBuffer)
    requires
        after.spec_recycled() == (before.spec_recycled() || before.spec_recyclable()),
        after.spec_recyclable() == before.spec_recyclable(),
    ensures
        !(after.spec_recyclable() && !after.spec_recycled()),
{
}

} // verus!

//! The producer's entry point for one log call.
use vstd::prelude::*;
use crate::builder::Backpressure;
use crate::level::Level;
use crate::record::{assemble, spec_record_prefix, BASE_RECORD_SIZE, FLAG_SITE, MAX_RECORD_SIZE};
use crate::ring::{RingBuffer, Reserve, write_outcome};
use crate::hotpath::{Profiler, bump, C_CALLS, C_DROPS};
use crate::wire::{le16, le64, lemma_le16_roundtrip, lemma_le64_roundtrip};
use crate::encode::{Arg, arg_tags, arg_payloads};
use crate::decode::{LineCtx, spec_line_ctx};
use crate::level::lemma_level_roundtrip;
use crate::record::{Site, FLAG_SOURCE, FLAG_THREAD, FLAG_PROCESS, FLAG_COMPLEX};
use crate::timestamp::{Calibration, spec_ticks_to_ns};
use vstd::string::StringSliceAdditionalSpecFns;

verus! {

/// The record a log call writes: header, site section, count byte and the
/// encoded arguments.
pub open spec fn call_record(level: Level, timestamp: u64, site_key: u64, n_args: u8, args: Seq<u8>) -> Seq<u8> {
    spec_record_prefix(level, timestamp, FLAG_SITE, site_key, n_args, (BASE_RECORD_SIZE + args.len()) as u16) + args
}

/// The profiler lanes after a log call that ended in `r`: a written record
/// counts as a call, a record refused under the policy as a drop, and a
/// request to wait counts nothing yet (the retried call is counted when it
/// ends).
pub open spec fn counted(lanes: Seq<u64>, enabled: bool, r: Reserve) -> Seq<u64> {
    if !enabled {
        lanes
    } else {
        match r {
            Reserve::Slot(_) => lanes.update(C_CALLS as int, lanes[C_CALLS as int].wrapping_add(1)),
            Reserve::Refused => lanes.update(C_DROPS as int, lanes[C_DROPS as int].wrapping_add(1)),
            Reserve::Wait => lanes,
        }
    }
}

/// Writes the record of one log call into the thread's ring.
///
/// `args` is the encoded argument section (tags, then payloads) of the
/// `n_args` arguments. A record too large for the `u16` size field is
/// dropped, silently and uncounted, rather than truncated; so is every
/// record once the ring's free-running position is within a lap of the end
/// of the `u64` range. Otherwise the record is written under `policy`: the
/// outcome is its slot, a refusal, or (for a full ring under
/// [`Backpressure::Block`], which never refuses) a request to wait and call
/// again. Under the segmented policies a refusal on
/// a full ring is the signal to hand the segment off. A refused or waiting
/// record leaves the ring's position and bytes as they were.
///
/// The thread's profiler counts the written records as calls and the
/// records refused under the policy as drops.
pub fn dispatch(
    ring: &mut RingBuffer,
    prof: &mut Profiler,
    level: Level,
    site_key: u64,
    n_args: u8,
    args: &[u8],
    policy: Backpressure,
    timestamp: u64,
) -> (r: Reserve)
    requires
        old(ring).wf(),
        old(prof).wf(),
    ensures
        final(ring).wf(),
        final(prof).wf(),
        final(prof).spec_enabled() == old(prof).spec_enabled(),
        ({
            let total = BASE_RECORD_SIZE + args@.len();
            let rec = call_record(level, timestamp, site_key, n_args, args@);
            if total > MAX_RECORD_SIZE || old(ring).spec_head() + old(ring).spec_capacity() + 0x10000 > u64::MAX {
                &&& r is Refused
                &&& *final(ring) == *old(ring)
                &&& final(prof).spec_lanes() == old(prof).spec_lanes()
            } else {
                &&& r == write_outcome(&*old(ring), total, policy)
                &&& r is Slot ==> final(ring).pending() == old(ring).pending().push(rec)
                &&& r is Slot ==> final(ring).spec_head() == r->Slot_0.head
                &&& !(r is Slot) ==> final(ring).pending() == old(ring).pending()
                &&& !(r is Slot) ==> final(ring).spec_head() == old(ring).spec_head()
                &&& !(r is Slot) ==> final(ring).spec_data() == old(ring).spec_data()
                &&& final(ring).spec_tail_cache() == old(ring).spec_tail()
                &&& final(ring).same_control(&*old(ring))
                &&& final(prof).spec_lanes() == counted(old(prof).spec_lanes(), old(prof).spec_enabled(), r)
            }
        }),
{
    if args.len() > MAX_RECORD_SIZE - BASE_RECORD_SIZE {
        return Reserve::Refused;
    }
    if !ring.has_headroom() {
        return Reserve::Refused;
    }
    let total = BASE_RECORD_SIZE + args.len();
    let mut record: Vec<u8> = Vec::new();
    assert(0x01u16 & 0x01u16 != 0) by (bit_vector);
    assemble(&mut record, level, timestamp, FLAG_SITE, site_key, n_args, total, args);
    proof {
        lemma_le16_roundtrip(total as u16);
        let pre = spec_record_prefix(level, timestamp, FLAG_SITE, site_key, n_args, total as u16);
        assert(record@.subrange(2, 4) =~= pre.subrange(2, 4));
        assert(pre.subrange(2, 4) =~= crate::wire::le16(total as u16));
    }
    let r = ring.write_record(record.as_slice(), policy);
    match r {
        Reserve::Slot(_) => bump(prof, C_CALLS),
        Reserve::Refused => bump(prof, C_DROPS),
        Reserve::Wait => {},
    }
    r
}

/// Under [`Backpressure::Block`] a ring never refuses a record that fits
/// the record format: it either takes the record or asks the caller to
/// wait until the drain has made room.
pub proof fn law_block_never_refuses(ring: RingBuffer, total: int)
    ensures
        !(write_outcome(&ring, total, Backpressure::Block) is Refused),
{
}

} // verus!

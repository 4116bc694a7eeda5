//! A byte ring backed by the `rtrb` crate's chunk API.
//!
//! The producer stages records and flushes them to the ring as one chunk
//! once `chunk_size` records are staged (with a chunk size of one, a record
//! goes straight into its own chunk without touching the staging buffer);
//! the drain moves whole chunks out. The declared capacity is one less than
//! the requested ring size, and a reservation keeps one more byte of slack,
//! so the ring is never observed at its exact full bound.
use vstd::prelude::*;
use rtrb::{Consumer, Producer};
use crate::builder::Backpressure;
use crate::record::MAX_RECORD_SIZE;
use crate::ring::{Reservation, Reserve, SLOT_SIZE};
use crate::bits::is_pow2_u64;

verus! {

/// The two halves of an `rtrb` ring of bytes. Held opaquely: the halves
/// share a queue that no value of either half shows.
#[verifier::external_body]
pub struct RtrbBytes {
    prod: Producer<u8>,
    cons: Consumer<u8>,
}

/// The bytes committed to the ring and not read yet, oldest first.
pub uninterp spec fn rt_bytes(r: RtrbBytes) -> Seq<u8>;

/// The ring's capacity.
pub uninterp spec fn rt_capacity(r: RtrbBytes) -> nat;

/// Calls `rtrb::RingBuffer::<u8>::new`. Trusted: an empty ring of the given
/// capacity (the source asserts the capacity is at most `usize::MAX / 2`).
#[verifier::external_body]
fn rt_new(capacity: usize) -> (r: RtrbBytes)
    requires
        capacity <= usize::MAX / 2,
    ensures
        rt_bytes(r) == Seq::<u8>::empty(),
        rt_capacity(r) == capacity,
{
    let (prod, cons) = rtrb::RingBuffer::<u8>::new(capacity);
    RtrbBytes { prod, cons }
}

/// Calls `Producer::slots`. Trusted: the number of free slots.
#[verifier::external_body]
fn rt_free_slots(r: &RtrbBytes) -> (n: usize)
    ensures
        n == rt_capacity(*r) - rt_bytes(*r).len(),
{
    r.prod.slots()
}

/// Calls `Consumer::slots`. Trusted: the number of readable slots.
#[verifier::external_body]
fn rt_readable(r: &RtrbBytes) -> (n: usize)
    ensures
        n == rt_bytes(*r).len(),
{
    r.cons.slots()
}

/// Calls `Consumer::is_empty`. Trusted: whether no slot is readable.
#[verifier::external_body]
fn rt_is_empty(r: &RtrbBytes) -> (b: bool)
    ensures
        b == (rt_bytes(*r).len() == 0),
{
    r.cons.is_empty()
}

/// Writes `bytes` as one chunk: calls `Producer::write_chunk` for that many
/// slots, fills the chunk's two slices (`WriteChunk::as_mut_slices`) and
/// commits it (`WriteChunk::commit_all`). Trusted: with enough free slots
/// the bytes are appended and the result is true; otherwise nothing changes
/// and the result is false.
#[verifier::external_body]
fn rt_write_chunk(r: &mut RtrbBytes, bytes: &[u8]) -> (ok: bool)
    ensures
        rt_capacity(*final(r)) == rt_capacity(*old(r)),
        ok == (bytes@.len() <= rt_capacity(*old(r)) - rt_bytes(*old(r)).len()),
        ok ==> rt_bytes(*final(r)) == rt_bytes(*old(r)) + bytes@,
        !ok ==> rt_bytes(*final(r)) == rt_bytes(*old(r)),
{
    match r.prod.write_chunk(bytes.len()) {
        Ok(mut chunk) => {
            let (a, b) = chunk.as_mut_slices();
            let split = a.len();
            a.copy_from_slice(&bytes[..split]);
            b.copy_from_slice(&bytes[split..]);
            chunk.commit_all();
            true
        },
        Err(_) => false,
    }
}

/// Reads `n` slots as one chunk: calls `Consumer::read_chunk`, copies the
/// chunk's two slices (`ReadChunk::as_slices`) and commits it
/// (`ReadChunk::commit_all`). Trusted: with `n` readable slots the oldest
/// `n` bytes are removed and returned; otherwise nothing changes and the
/// result is `None`.
#[verifier::external_body]
fn rt_read_chunk(r: &mut RtrbBytes, n: usize) -> (got: Option<Vec<u8>>)
    ensures
        rt_capacity(*final(r)) == rt_capacity(*old(r)),
        n <= rt_bytes(*old(r)).len() ==> (got matches Some(v) && v@ == rt_bytes(*old(r)).subrange(0, n as int)),
        n <= rt_bytes(*old(r)).len() ==> rt_bytes(*final(r)) == rt_bytes(*old(r)).subrange(
            n as int,
            rt_bytes(*old(r)).len() as int,
        ),
        n > rt_bytes(*old(r)).len() ==> got is None && rt_bytes(*final(r)) == rt_bytes(*old(r)),
{
    match r.cons.read_chunk(n) {
        Ok(chunk) => {
            let (a, b) = chunk.as_slices();
            let mut v = a.to_vec();
            v.extend_from_slice(b);
            chunk.commit_all();
            Some(v)
        },
        Err(_) => None,
    }
}

/// Identity and lifetime state a ring shares with the drain.
pub struct RingShared {
    live: bool,
    capacity: usize,
    thread_id: u64,
    thread_name: String,
}

impl RingShared {
    pub closed spec fn spec_live(&self) -> bool {
        self.live
    }

    pub closed spec fn spec_capacity(&self) -> nat {
        self.capacity as nat
    }

    pub closed spec fn spec_thread_id(&self) -> u64 {
        self.thread_id
    }

    pub closed spec fn spec_thread_name(&self) -> Seq<char> {
        self.thread_name@
    }

    /// Fresh shared state of a live ring with the declared capacity and no
    /// producer identity yet.
    pub fn new(capacity: usize) -> (s: RingShared)
        ensures
            s.spec_live(),
            s.spec_capacity() == capacity,
            s.spec_thread_id() == 0,
            s.spec_thread_name() == Seq::<char>::empty(),
    {
        RingShared { live: true, capacity, thread_id: 0, thread_name: String::new() }
    }

    /// The producer's thread id.
    pub fn thread_id(&self) -> (t: u64)
        ensures
            t == self.spec_thread_id(),
    {
        self.thread_id
    }

    /// The producer's thread name.
    pub fn thread_name(&self) -> (s: String)
        ensures
            s@ == self.spec_thread_name(),
    {
        self.thread_name.clone()
    }

    /// Records the producer's identity.
    pub fn set_thread_info(&mut self, thread_id: u64, thread_name: &str)
        ensures
            final(self).spec_thread_id() == thread_id,
            final(self).spec_thread_name() == thread_name@,
            final(self).spec_live() == old(self).spec_live(),
            final(self).spec_capacity() == old(self).spec_capacity(),
    {
        self.thread_id = thread_id;
        self.thread_name = thread_name.to_owned();
    }
}

/// A ring over `rtrb` with producer-side staging.
pub struct RtrbRing {
    ring: RtrbBytes,
    staged: Vec<u8>,
    staged_records: usize,
    chunk_size: usize,
    shared: RingShared,
}

impl RtrbRing {
    /// The bytes the drain can read, oldest first.
    pub closed spec fn spec_ring(&self) -> Seq<u8> {
        rt_bytes(self.ring)
    }

    /// The bytes staged by the producer and not flushed yet.
    pub closed spec fn spec_staged(&self) -> Seq<u8> {
        self.staged@
    }

    pub closed spec fn spec_staged_records(&self) -> nat {
        self.staged_records as nat
    }

    pub closed spec fn spec_chunk_size(&self) -> nat {
        self.chunk_size as nat
    }

    /// The declared capacity (one less than the ring size asked for).
    pub closed spec fn spec_capacity(&self) -> nat {
        self.shared.capacity as nat
    }

    pub closed spec fn spec_live(&self) -> bool {
        self.shared.live
    }

    pub closed spec fn spec_thread_id(&self) -> u64 {
        self.shared.thread_id
    }

    pub closed spec fn spec_thread_name(&self) -> Seq<char> {
        self.shared.thread_name@
    }

    /// Everything the producer committed, oldest first: what the ring holds,
    /// then what is staged.
    pub open spec fn committed(&self) -> Seq<u8> {
        self.spec_ring() + self.spec_staged()
    }

    /// The ring has the declared capacity, nothing committed exceeds it and
    /// a chunk holds at least one record.
    pub closed spec fn wf(&self) -> bool {
        &&& rt_capacity(self.ring) == self.shared.capacity
        &&& self.chunk_size >= 1
        &&& self.staged_records < usize::MAX
        &&& self.committed().len() <= self.shared.capacity
    }

    /// Splits a new ring of `capacity` bytes (a power of two of at least one
    /// slot) flushing every `chunk_size` records (at least one). The ring
    /// keeps one byte empty to tell empty from full, so `capacity - 1` bytes
    /// can be filled.
    pub fn split(capacity: usize, chunk_size: usize) -> (r: RtrbRing)
        requires
            is_pow2_u64(capacity as int),
            SLOT_SIZE <= capacity <= usize::MAX / 2,
        ensures
            r.wf(),
            r.spec_capacity() == capacity - 1,
            r.spec_ring() == Seq::<u8>::empty(),
            r.spec_staged() == Seq::<u8>::empty(),
            r.spec_staged_records() == 0,
            r.spec_chunk_size() == (if chunk_size >= 1 { chunk_size } else { 1 }),
            r.spec_live(),
    {
        let usable = capacity - 1;
        RtrbRing {
            ring: rt_new(usable),
            staged: Vec::with_capacity(MAX_RECORD_SIZE),
            staged_records: 0,
            chunk_size: if chunk_size >= 1 { chunk_size } else { 1 },
            shared: RingShared::new(usable),
        }
    }

    /// The number of bytes staged and not flushed yet.
    pub fn staged_len(&self) -> (n: usize)
        ensures
            n == self.spec_staged().len(),
    {
        self.staged.len()
    }

    /// The number of records staged and not flushed yet.
    pub fn staged_records(&self) -> (n: usize)
        ensures
            n == self.spec_staged_records(),
    {
        self.staged_records
    }

    /// The declared capacity.
    pub fn capacity(&self) -> (c: usize)
        ensures
            c == self.spec_capacity(),
    {
        self.shared.capacity
    }

    /// Sets the number of records per chunk; zero is ignored.
    pub fn set_chunk_size(&mut self, n: usize)
        requires
            old(self).wf(),
        ensures
            final(self).wf(),
            final(self).spec_chunk_size() == (if n > 0 { n as nat } else { old(self).spec_chunk_size() }),
            final(self).spec_ring() == old(self).spec_ring(),
            final(self).spec_staged() == old(self).spec_staged(),
            final(self).spec_staged_records() == old(self).spec_staged_records(),
            final(self).spec_capacity() == old(self).spec_capacity(),
            final(self).spec_live() == old(self).spec_live(),
    {
        if n > 0 {
            self.chunk_size = n;
        }
    }

    pub fn set_thread_info(&mut self, thread_id: u64, thread_name: &str)
        requires
            old(self).wf(),
        ensures
            final(self).wf(),
            final(self).spec_thread_id() == thread_id,
            final(self).spec_thread_name() == thread_name@,
            final(self).committed() == old(self).committed(),
            final(self).spec_live() == old(self).spec_live(),
    {
        self.shared.set_thread_info(thread_id, thread_name);
    }

    pub fn thread_id(&self) -> (t: u64)
        ensures
            t == self.spec_thread_id(),
    {
        self.shared.thread_id()
    }

    pub fn thread_name(&self) -> (s: String)
        ensures
            s@ == self.spec_thread_name(),
    {
        self.shared.thread_name()
    }

    pub fn is_live(&self) -> (b: bool)
        ensures
            b == self.spec_live(),
    {
        self.shared.live
    }

    /// Marks the producer gone.
    pub fn set_dead(&mut self)
        requires
            old(self).wf(),
        ensures
            final(self).wf(),
            !final(self).spec_live(),
            final(self).spec_ring() == old(self).spec_ring(),
            final(self).spec_staged() == old(self).spec_staged(),
    {
        self.shared.live = false;
    }

    /// Checks that the staged bytes and a record of `total_size` bytes fit
    /// the ring with one byte of slack. A fit gives a placeholder slot;
    /// otherwise a wait while the producer is live under a waiting policy,
    /// else a refusal.
    pub fn reserve(&self, total_size: usize, policy: Backpressure) -> (r: Reserve)
        requires
            self.wf(),
        ensures
            self.committed().len() + total_size < self.spec_capacity() ==> r == Reserve::Slot(
                Reservation { offset: 0, head: 0 },
            ),
            !(self.committed().len() + total_size < self.spec_capacity()) ==> r == (if policy
                != Backpressure::Drop && self.spec_live() {
                Reserve::Wait
            } else {
                Reserve::Refused
            }),
    {
        let room = self.shared.capacity;
        let needed = self.staged.len().saturating_add(total_size);
        let free = rt_free_slots(&self.ring);
        let occupied = room.saturating_sub(free);
        if occupied.saturating_add(needed) < room {
            return Reserve::Slot(Reservation { offset: 0, head: 0 });
        }
        match policy {
            Backpressure::Drop => Reserve::Refused,
            _ => if self.shared.live {
                Reserve::Wait
            } else {
                Reserve::Refused
            },
        }
    }

    /// Publishing is a no-op here: bytes move in [`commit`](Self::commit).
    pub fn publish(&self, r: Reservation) {
    }

    /// Commits a record: with a chunk size of one and nothing staged it is
    /// written straight into the ring as its own chunk; otherwise it is
    /// staged, and the staged bytes are flushed as one chunk once
    /// `chunk_size` records are staged. Everything committed stays in
    /// order.
    pub fn commit(&mut self, bytes: &[u8])
        requires
            old(self).wf(),
            old(self).committed().len() + bytes@.len() <= old(self).spec_capacity(),
        ensures
            final(self).wf(),
            final(self).committed() == old(self).committed() + bytes@,
            final(self).spec_chunk_size() == old(self).spec_chunk_size(),
            final(self).spec_capacity() == old(self).spec_capacity(),
            final(self).spec_live() == old(self).spec_live(),
            final(self).spec_thread_id() == old(self).spec_thread_id(),
            final(self).spec_thread_name() == old(self).spec_thread_name(),
            ({
                let direct = old(self).spec_staged().len() == 0 && old(self).spec_chunk_size() == 1;
                let flush = old(self).spec_staged_records() + 1 >= old(self).spec_chunk_size();
                &&& direct ==> final(self).spec_ring() == old(self).spec_ring() + bytes@ && final(self).spec_staged()
                    == old(self).spec_staged() && final(self).spec_staged_records() == old(self).spec_staged_records()
                &&& !direct && flush ==> final(self).spec_ring() == old(self).spec_ring() + old(self).spec_staged()
                    + bytes@ && final(self).spec_staged() == Seq::<u8>::empty() && final(self).spec_staged_records() == 0
                &&& !direct && !flush ==> final(self).spec_ring() == old(self).spec_ring() && final(self).spec_staged()
                    == old(self).spec_staged() + bytes@ && final(self).spec_staged_records()
                    == old(self).spec_staged_records() + 1
            }),
    {
        if self.staged.len() == 0 && self.chunk_size == 1 {
            if bytes.len() > 0 {
                let written = rt_write_chunk(&mut self.ring, bytes);
                proof {
                    assert(written);
                }
            } else {
                proof {
                    assert(self.spec_ring() + bytes@ =~= self.spec_ring());
                }
            }
            proof {
                assert(old(self).committed() + bytes@ =~= self.committed());
            }
            return;
        }
        crate::format::push_bytes(&mut self.staged, bytes);
        self.staged_records = self.staged_records + 1;
        if self.staged_records >= self.chunk_size {
            let written = rt_write_chunk(&mut self.ring, self.staged.as_slice());
            proof {
                assert(written);
            }
            self.staged.clear();
            self.staged_records = 0;
            proof {
                assert(old(self).spec_ring() + (old(self).spec_staged() + bytes@) =~= old(self).spec_ring()
                    + old(self).spec_staged() + bytes@);
            }
        }
        proof {
            assert(old(self).committed() + bytes@ =~= self.committed());
        }
    }

    /// Moves every readable byte into `out`, oldest first, and returns how
    /// many were moved.
    pub fn pop_available(&mut self, out: &mut Vec<u8>) -> (n: usize)
        requires
            old(self).wf(),
        ensures
            final(self).wf(),
            final(out)@ == old(out)@ + old(self).spec_ring(),
            n == old(self).spec_ring().len(),
            final(self).spec_ring() == Seq::<u8>::empty(),
            final(self).spec_staged() == old(self).spec_staged(),
            final(self).spec_staged_records() == old(self).spec_staged_records(),
            final(self).spec_chunk_size() == old(self).spec_chunk_size(),
            final(self).spec_capacity() == old(self).spec_capacity(),
            final(self).spec_live() == old(self).spec_live(),
            final(self).spec_thread_id() == old(self).spec_thread_id(),
            final(self).spec_thread_name() == old(self).spec_thread_name(),
    {
        if rt_is_empty(&self.ring) {
            proof {
                assert(old(out)@ + old(self).spec_ring() =~= old(out)@);
                assert(self.spec_ring() =~= Seq::<u8>::empty());
            }
            return 0;
        }
        let available = rt_readable(&self.ring);
        match rt_read_chunk(&mut self.ring, available) {
            Some(v) => {
                crate::format::push_bytes(out, v.as_slice());
                proof {
                    assert(v@ =~= old(self).spec_ring());
                    assert(self.spec_ring() =~= Seq::<u8>::empty());
                }
                available
            },
            None => 0,
        }
    }

    /// Whether the ring holds no readable byte.
    pub fn is_empty(&self) -> (b: bool)
        ensures
            b == (self.spec_ring().len() == 0),
    {
        rt_is_empty(&self.ring)
    }
}

} // verus!

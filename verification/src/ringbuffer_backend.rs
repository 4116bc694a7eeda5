//! A byte FIFO backed by the `ringbuffer` crate's `AllocRingBuffer`.
//!
//! Records are framed exactly like in the crate's own ring, but nothing is
//! slot-aligned and no end-of-buffer fillers are written: a logical FIFO
//! never wraps. A record is reserved against the FIFO's fill level (one
//! byte of slack is kept, so the FIFO is never at its full bound, where
//! `AllocRingBuffer` overwrites its oldest byte), then committed byte by
//! byte; the drain pops every buffered byte.
use vstd::prelude::*;
use ringbuffer::AllocRingBuffer;
use ringbuffer::RingBuffer as RingBufferTrait;
use crate::builder::Backpressure;
use crate::ring::{Reservation, Reserve, DEFAULT_RING_SIZE, SLOT_SIZE};
use crate::bits::is_pow2_u64;

verus! {

#[verifier::external_type_specification]
#[verifier::external_body]
#[verifier::reject_recursive_types(T)]
pub struct ExAllocRingBuffer<T>(AllocRingBuffer<T>);

/// The bytes an `AllocRingBuffer` holds, oldest first.
pub uninterp spec fn arb_bytes(rb: AllocRingBuffer<u8>) -> Seq<u8>;

/// The capacity an `AllocRingBuffer` was made with.
pub uninterp spec fn arb_capacity(rb: AllocRingBuffer<u8>) -> nat;

/// `s` with `b` appended, keeping only the last `cap` items.
pub open spec fn push_bounded(s: Seq<u8>, b: u8, cap: nat) -> Seq<u8> {
    if s.len() < cap { s.push(b) } else { s.drop_first().push(b) }
}

/// Calls `AllocRingBuffer::new`. Trusted: the buffer starts empty with the
/// given capacity (the source asserts the capacity is not zero).
#[verifier::external_body]
fn arb_new(capacity: usize) -> (rb: AllocRingBuffer<u8>)
    requires
        capacity > 0,
    ensures
        arb_bytes(rb) == Seq::<u8>::empty(),
        arb_capacity(rb) == capacity,
{
    AllocRingBuffer::new(capacity)
}

/// Calls `RingBuffer::len` on an `AllocRingBuffer`. Trusted: the number of
/// bytes held.
#[verifier::external_body]
fn arb_len(rb: &AllocRingBuffer<u8>) -> (n: usize)
    ensures
        n == arb_bytes(*rb).len(),
{
    rb.len()
}

/// Calls `RingBuffer::enqueue` on an `AllocRingBuffer`. Trusted: the byte
/// is appended; when the buffer was at its capacity its oldest byte is
/// dropped and returned. The source's free-running `usize` positions are
/// assumed not to reach `usize::MAX`.
#[verifier::external_body]
fn arb_enqueue(rb: &mut AllocRingBuffer<u8>, b: u8) -> (r: Option<u8>)
    requires
        arb_capacity(*old(rb)) > 0,
    ensures
        arb_capacity(*final(rb)) == arb_capacity(*old(rb)),
        arb_bytes(*final(rb)) == push_bounded(arb_bytes(*old(rb)), b, arb_capacity(*old(rb))),
        r == (if arb_bytes(*old(rb)).len() < arb_capacity(*old(rb)) {
            None
        } else {
            Some(arb_bytes(*old(rb))[0])
        }),
{
    rb.enqueue(b)
}

/// Calls `RingBuffer::dequeue` on an `AllocRingBuffer`. Trusted: the oldest
/// byte is removed and returned, or `None` when the buffer is empty.
#[verifier::external_body]
fn arb_dequeue(rb: &mut AllocRingBuffer<u8>) -> (r: Option<u8>)
    ensures
        arb_capacity(*final(rb)) == arb_capacity(*old(rb)),
        arb_bytes(*old(rb)).len() == 0 ==> r is None && arb_bytes(*final(rb)) == arb_bytes(*old(rb)),
        arb_bytes(*old(rb)).len() > 0 ==> r == Some(arb_bytes(*old(rb))[0]) && arb_bytes(*final(rb))
            == arb_bytes(*old(rb)).drop_first(),
{
    rb.dequeue()
}

/// The last `cap` items of `s` (all of them when there are no more).
pub open spec fn keep_last(s: Seq<u8>, cap: nat) -> Seq<u8> {
    if s.len() <= cap { s } else { s.subrange(s.len() - cap, s.len() as int) }
}

proof fn lemma_keep_last_push(s: Seq<u8>, b: u8, cap: nat)
    requires
        cap > 0,
    ensures
        push_bounded(keep_last(s, cap), b, cap) == keep_last(s.push(b), cap),
{
    let k = keep_last(s, cap);
    if s.len() < cap {
    } else if s.len() == cap {
        assert(k.drop_first().push(b) =~= s.push(b).subrange(s.push(b).len() - cap, s.push(b).len() as int));
    } else {
        assert(k.drop_first().push(b) =~= s.push(b).subrange(s.push(b).len() - cap, s.push(b).len() as int));
    }
}

/// A byte FIFO ring backed by `AllocRingBuffer`.
pub struct FifoRing {
    fifo: AllocRingBuffer<u8>,
    live: bool,
    capacity: usize,
    thread_id: u64,
    thread_name: String,
}

impl FifoRing {
    /// The buffered bytes, oldest first.
    pub closed spec fn spec_bytes(&self) -> Seq<u8> {
        arb_bytes(self.fifo)
    }

    pub closed spec fn spec_capacity(&self) -> nat {
        self.capacity as nat
    }

    pub closed spec fn spec_live(&self) -> bool {
        self.live
    }

    pub closed spec fn spec_thread_id(&self) -> u64 {
        self.thread_id
    }

    pub closed spec fn spec_thread_name(&self) -> Seq<char> {
        self.thread_name@
    }

    /// The FIFO was made with the declared capacity.
    pub closed spec fn wf(&self) -> bool {
        &&& arb_capacity(self.fifo) == self.capacity
        &&& self.capacity >= SLOT_SIZE
        &&& self.spec_bytes().len() <= self.capacity
    }

    /// A FIFO of `capacity` bytes (a power of two of at least one slot).
    pub fn with_capacity(capacity: usize) -> (r: FifoRing)
        requires
            is_pow2_u64(capacity as int),
            capacity >= SLOT_SIZE,
        ensures
            r.wf(),
            r.spec_bytes() == Seq::<u8>::empty(),
            r.spec_capacity() == capacity,
            r.spec_live(),
            r.spec_thread_id() == 0,
            r.spec_thread_name() == Seq::<char>::empty(),
    {
        FifoRing { fifo: arb_new(capacity), live: true, capacity, thread_id: 0, thread_name: String::new() }
    }

    /// A FIFO of the default ring size.
    pub fn new() -> (r: FifoRing)
        ensures
            r.wf(),
            r.spec_bytes() == Seq::<u8>::empty(),
            r.spec_capacity() == DEFAULT_RING_SIZE,
            r.spec_live(),
    {
        proof {
            vstd::arithmetic::power2::lemma2_to64();
            assert(vstd::arithmetic::power2::pow2(20) == DEFAULT_RING_SIZE);
        }
        FifoRing::with_capacity(DEFAULT_RING_SIZE)
    }

    pub fn capacity(&self) -> (c: usize)
        ensures
            c == self.spec_capacity(),
    {
        self.capacity
    }

    /// Records this ring's producer identity.
    pub fn set_thread_info(&mut self, thread_id: u64, thread_name: &str)
        ensures
            final(self).spec_thread_id() == thread_id,
            final(self).spec_thread_name() == thread_name@,
            final(self).spec_bytes() == old(self).spec_bytes(),
            final(self).spec_capacity() == old(self).spec_capacity(),
            final(self).spec_live() == old(self).spec_live(),
            old(self).wf() ==> final(self).wf(),
    {
        self.thread_id = thread_id;
        self.thread_name = thread_name.to_owned();
    }

    pub fn thread_id(&self) -> (t: u64)
        ensures
            t == self.spec_thread_id(),
    {
        self.thread_id
    }

    pub fn thread_name(&self) -> (s: String)
        ensures
            s@ == self.spec_thread_name(),
    {
        self.thread_name.clone()
    }

    pub fn is_live(&self) -> (b: bool)
        ensures
            b == self.spec_live(),
    {
        self.live
    }

    /// Marks the producer gone.
    pub fn set_dead(&mut self)
        ensures
            !final(self).spec_live(),
            final(self).spec_bytes() == old(self).spec_bytes(),
            final(self).spec_capacity() == old(self).spec_capacity(),
            final(self).spec_thread_id() == old(self).spec_thread_id(),
            old(self).wf() ==> final(self).wf(),
    {
        self.live = false;
    }

    /// Checks whether a record of `total_size` bytes fits, keeping one byte
    /// of slack. A fit gives a placeholder slot (the bytes are written by
    /// [`commit`](Self::commit)); otherwise the policy decides: a wait while
    /// the producer is live under a waiting policy, else a refusal.
    pub fn reserve(&self, total_size: usize, policy: Backpressure) -> (r: Reserve)
        requires
            self.wf(),
        ensures
            self.spec_bytes().len() + total_size < self.spec_capacity() ==> r == Reserve::Slot(
                Reservation { offset: 0, head: 0 },
            ),
            !(self.spec_bytes().len() + total_size < self.spec_capacity()) ==> r == (if policy
                != Backpressure::Drop && self.spec_live() {
                Reserve::Wait
            } else {
                Reserve::Refused
            }),
    {
        let len = arb_len(&self.fifo);
        let needed = len.saturating_add(total_size);
        if needed < self.capacity {
            return Reserve::Slot(Reservation { offset: 0, head: 0 });
        }
        match policy {
            Backpressure::Drop => Reserve::Refused,
            _ => if self.live {
                Reserve::Wait
            } else {
                Reserve::Refused
            },
        }
    }

    /// Publishing is a no-op here: the bytes become visible in
    /// [`commit`](Self::commit).
    pub fn publish(&self, r: Reservation) {
    }

    /// Appends a record's bytes to the FIFO. Committed after a successful
    /// reservation, the bytes are simply appended; a FIFO that reaches its
    /// bound drops its oldest bytes and keeps only the newest `capacity`.
    pub fn commit(&mut self, bytes: &[u8])
        requires
            old(self).wf(),
        ensures
            final(self).wf(),
            final(self).spec_capacity() == old(self).spec_capacity(),
            final(self).spec_live() == old(self).spec_live(),
            final(self).spec_thread_id() == old(self).spec_thread_id(),
            final(self).spec_thread_name() == old(self).spec_thread_name(),
            final(self).spec_bytes() == keep_last(old(self).spec_bytes() + bytes@, old(self).spec_capacity()),
    {
        let ghost start = self.spec_bytes();
        let ghost cap = self.spec_capacity();
        proof {
            assert(start + bytes@.subrange(0, 0) =~= start);
        }
        let mut i: usize = 0;
        while i < bytes.len()
            invariant
                i <= bytes@.len(),
                self.wf(),
                self.spec_capacity() == cap,
                cap == old(self).spec_capacity(),
                self.spec_live() == old(self).spec_live(),
                self.spec_thread_id() == old(self).spec_thread_id(),
                self.spec_thread_name() == old(self).spec_thread_name(),
                start == old(self).spec_bytes(),
                start.len() <= cap,
                self.spec_bytes() == keep_last(start + bytes@.subrange(0, i as int), cap),
            decreases bytes@.len() - i,
        {
            let ghost before = start + bytes@.subrange(0, i as int);
            let _ = arb_enqueue(&mut self.fifo, bytes[i]);
            proof {
                assert(start + bytes@.subrange(0, i + 1) =~= before.push(bytes@[i as int]));
                lemma_keep_last_push(before, bytes@[i as int], cap);
            }
            i = i + 1;
        }
        proof {
            assert(bytes@.subrange(0, bytes@.len() as int) =~= bytes@);
        }
    }

    /// Moves every buffered byte into `out`, oldest first, and returns how
    /// many were moved.
    pub fn pop_available(&mut self, out: &mut Vec<u8>) -> (n: usize)
        requires
            old(self).wf(),
        ensures
            final(self).wf(),
            final(out)@ == old(out)@ + old(self).spec_bytes(),
            n == old(self).spec_bytes().len(),
            final(self).spec_bytes() == Seq::<u8>::empty(),
            final(self).spec_capacity() == old(self).spec_capacity(),
            final(self).spec_live() == old(self).spec_live(),
            final(self).spec_thread_id() == old(self).spec_thread_id(),
            final(self).spec_thread_name() == old(self).spec_thread_name(),
    {
        let ghost start = self.spec_bytes();
        let mut moved: usize = 0;
        proof {
            assert(start.subrange(0, 0) + start =~= start);
        }
        loop
            invariant
                self.wf(),
                self.spec_capacity() == old(self).spec_capacity(),
                self.spec_live() == old(self).spec_live(),
                self.spec_thread_id() == old(self).spec_thread_id(),
                self.spec_thread_name() == old(self).spec_thread_name(),
                start == old(self).spec_bytes(),
                moved <= start.len(),
                start.len() <= usize::MAX,
                start == start.subrange(0, moved as int) + self.spec_bytes(),
                out@ == old(out)@ + start.subrange(0, moved as int),
            ensures
                self.spec_bytes() == Seq::<u8>::empty(),
                moved == start.len(),
                out@ == old(out)@ + start,
            decreases self.spec_bytes().len(),
        {
            match arb_dequeue(&mut self.fifo) {
                Some(b) => {
                    proof {
                        assert(start.subrange(0, moved + 1) =~= start.subrange(0, moved as int).push(b));
                        assert(start =~= start.subrange(0, moved + 1) + self.spec_bytes());
                    }
                    out.push(b);
                    moved = moved + 1;
                },
                None => {
                    proof {
                        assert(start.subrange(0, moved as int) =~= start);
                    }
                    break;
                },
            }
        }
        moved
    }

    /// Whether the FIFO holds no bytes.
    pub fn is_empty(&self) -> (b: bool)
        ensures
            b == (self.spec_bytes().len() == 0),
    {
        arb_len(&self.fifo) == 0
    }
}

} // verus!

//! A byte FIFO backed by the `ringbuf` crate's heap ring.
//!
//! Records are framed like in the crate's own ring but never slot-aligned;
//! one byte of slack is kept so the FIFO is never observed at its exact
//! full bound. A record is pushed as one slice; the drain pops every
//! buffered byte as one slice.
use vstd::prelude::*;
use ringbuf::storage::Heap;
use ringbuf::traits::{Consumer, Observer, Producer};
use ringbuf::SharedRb;
use crate::builder::Backpressure;
use crate::ring::{Reservation, Reserve, DEFAULT_RING_SIZE, SLOT_SIZE};
use crate::bits::is_pow2_u64;

verus! {

/// A `ringbuf` heap ring of bytes. Held opaquely: Verus refuses to declare
/// the crate's ring type, whose storage parameter is bound by a trait of the
/// crate.
#[verifier::external_body]
pub struct HeapBytes {
    rb: SharedRb<Heap<u8>>,
}

/// The bytes a heap ring holds, oldest first.
pub uninterp spec fn hrb_bytes(rb: HeapBytes) -> Seq<u8>;

/// The capacity a heap ring was made with.
pub uninterp spec fn hrb_capacity(rb: HeapBytes) -> nat;

/// Calls `SharedRb::<Heap<u8>>::new` (the crate's `HeapRb::new`). Trusted: the ring starts empty with
/// the given capacity (the source panics on a zero capacity or one above
/// `usize::MAX / 2`).
#[verifier::external_body]
fn hrb_new(capacity: usize) -> (rb: HeapBytes)
    requires
        0 < capacity <= usize::MAX / 2,
    ensures
        hrb_bytes(rb) == Seq::<u8>::empty(),
        hrb_capacity(rb) == capacity,
{
    HeapBytes { rb: SharedRb::<Heap<u8>>::new(capacity) }
}

/// Calls `Observer::occupied_len`. Trusted: the number of bytes held.
#[verifier::external_body]
fn hrb_occupied_len(rb: &HeapBytes) -> (n: usize)
    ensures
        n == hrb_bytes(*rb).len(),
{
    rb.rb.occupied_len()
}

/// Calls `Producer::push_slice`. Trusted: as many leading bytes of `elems`
/// as there is free room for are appended, and their count returned.
#[verifier::external_body]
fn hrb_push_slice(rb: &mut HeapBytes, elems: &[u8]) -> (n: usize)
    ensures
        hrb_capacity(*final(rb)) == hrb_capacity(*old(rb)),
        n == (if elems@.len() <= hrb_capacity(*old(rb)) - hrb_bytes(*old(rb)).len() {
            elems@.len() as int
        } else {
            hrb_capacity(*old(rb)) - hrb_bytes(*old(rb)).len()
        }),
        hrb_bytes(*final(rb)) == hrb_bytes(*old(rb)) + elems@.subrange(0, n as int),
{
    rb.rb.push_slice(elems)
}

/// Calls `Consumer::pop_slice`. Trusted: as many of the oldest bytes as
/// `elems` has room for are moved into its front, and their count returned;
/// the rest of `elems` is untouched.
#[verifier::external_body]
fn hrb_pop_slice(rb: &mut HeapBytes, elems: &mut [u8]) -> (n: usize)
    ensures
        hrb_capacity(*final(rb)) == hrb_capacity(*old(rb)),
        n == (if old(elems)@.len() <= hrb_bytes(*old(rb)).len() {
            old(elems)@.len() as int
        } else {
            hrb_bytes(*old(rb)).len() as int
        }),
        final(elems)@ == hrb_bytes(*old(rb)).subrange(0, n as int) + old(elems)@.subrange(n as int, old(elems)@.len() as int),
        hrb_bytes(*final(rb)) == hrb_bytes(*old(rb)).subrange(n as int, hrb_bytes(*old(rb)).len() as int),
{
    rb.rb.pop_slice(elems)
}

/// A byte FIFO ring backed by a `ringbuf` heap ring.
pub struct SliceFifo {
    rb: HeapBytes,
    live: bool,
    capacity: usize,
}

impl SliceFifo {
    /// The buffered bytes, oldest first.
    pub closed spec fn spec_bytes(&self) -> Seq<u8> {
        hrb_bytes(self.rb)
    }

    pub closed spec fn spec_capacity(&self) -> nat {
        self.capacity as nat
    }

    pub closed spec fn spec_live(&self) -> bool {
        self.live
    }

    pub closed spec fn wf(&self) -> bool {
        &&& hrb_capacity(self.rb) == self.capacity
        &&& self.capacity >= SLOT_SIZE
        &&& self.spec_bytes().len() <= self.capacity
    }

    /// A FIFO of `capacity` bytes (a power of two of at least one slot).
    pub fn with_capacity(capacity: usize) -> (r: SliceFifo)
        requires
            is_pow2_u64(capacity as int),
            SLOT_SIZE <= capacity <= usize::MAX / 2,
        ensures
            r.wf(),
            r.spec_bytes() == Seq::<u8>::empty(),
            r.spec_capacity() == capacity,
            r.spec_live(),
    {
        SliceFifo { rb: hrb_new(capacity), live: true, capacity }
    }

    /// A FIFO of the default ring size.
    pub fn new() -> (r: SliceFifo)
        ensures
            r.wf(),
            r.spec_bytes() == Seq::<u8>::empty(),
            r.spec_capacity() == DEFAULT_RING_SIZE,
            r.spec_live(),
    {
        proof {
            vstd::arithmetic::power2::lemma2_to64();
            assert(vstd::arithmetic::power2::pow2(20) == DEFAULT_RING_SIZE);
        }
        SliceFifo::with_capacity(DEFAULT_RING_SIZE)
    }

    pub fn capacity(&self) -> (c: usize)
        ensures
            c == self.spec_capacity(),
    {
        self.capacity
    }

    pub fn is_live(&self) -> (b: bool)
        ensures
            b == self.spec_live(),
    {
        self.live
    }

    /// Marks the producer gone.
    pub fn set_dead(&mut self)
        ensures
            !final(self).spec_live(),
            final(self).spec_bytes() == old(self).spec_bytes(),
            final(self).spec_capacity() == old(self).spec_capacity(),
            old(self).wf() ==> final(self).wf(),
    {
        self.live = false;
    }

    /// Checks whether a record of `total_size` bytes fits, keeping one byte
    /// of slack (see [`crate::ringbuffer_backend::FifoRing::reserve`]).
    pub fn reserve(&self, total_size: usize, policy: Backpressure) -> (r: Reserve)
        requires
            self.wf(),
        ensures
            self.spec_bytes().len() + total_size < self.spec_capacity() ==> r == Reserve::Slot(
                Reservation { offset: 0, head: 0 },
            ),
            !(self.spec_bytes().len() + total_size < self.spec_capacity()) ==> r == (if policy
                != Backpressure::Drop && self.spec_live() {
                Reserve::Wait
            } else {
                Reserve::Refused
            }),
    {
        let len = hrb_occupied_len(&self.rb);
        if len.saturating_add(total_size) < self.capacity {
            return Reserve::Slot(Reservation { offset: 0, head: 0 });
        }
        match policy {
            Backpressure::Drop => Reserve::Refused,
            _ => if self.live {
                Reserve::Wait
            } else {
                Reserve::Refused
            },
        }
    }

    /// Publishing is a no-op here: the bytes become visible in
    /// [`commit`](Self::commit).
    pub fn publish(&self, r: Reservation) {
    }

    /// Pushes a record's bytes as one slice and returns how many were
    /// taken: all of them after a successful reservation.
    pub fn commit(&mut self, bytes: &[u8]) -> (n: usize)
        requires
            old(self).wf(),
        ensures
            final(self).wf(),
            final(self).spec_capacity() == old(self).spec_capacity(),
            final(self).spec_live() == old(self).spec_live(),
            n == (if bytes@.len() <= old(self).spec_capacity() - old(self).spec_bytes().len() {
                bytes@.len() as int
            } else {
                old(self).spec_capacity() - old(self).spec_bytes().len()
            }),
            final(self).spec_bytes() == old(self).spec_bytes() + bytes@.subrange(0, n as int),
    {
        hrb_push_slice(&mut self.rb, bytes)
    }

    /// Moves every buffered byte into `out`, oldest first, and returns how
    /// many were moved.
    pub fn pop_available(&mut self, out: &mut Vec<u8>) -> (n: usize)
        requires
            old(self).wf(),
        ensures
            final(self).wf(),
            final(out)@ == old(out)@ + old(self).spec_bytes(),
            n == old(self).spec_bytes().len(),
            final(self).spec_bytes() == Seq::<u8>::empty(),
            final(self).spec_capacity() == old(self).spec_capacity(),
            final(self).spec_live() == old(self).spec_live(),
    {
        let avail = hrb_occupied_len(&self.rb);
        if avail == 0 {
            proof {
                assert(old(out)@ + old(self).spec_bytes() =~= old(out)@);
                assert(self.spec_bytes() =~= Seq::<u8>::empty());
            }
            return 0;
        }
        let mut tmp: Vec<u8> = vec![0u8; avail];
        let popped = hrb_pop_slice(&mut self.rb, tmp.as_mut_slice());
        let mut i: usize = 0;
        while i < popped
            invariant
                i <= popped,
                popped == avail,
                tmp@.len() == avail,
                tmp@ == old(self).spec_bytes(),
                out@ == old(out)@ + tmp@.subrange(0, i as int),
            decreases popped - i,
        {
            out.push(tmp[i]);
            i = i + 1;
            proof {
                assert(tmp@.subrange(0, i as int) =~= tmp@.subrange(0, i - 1).push(tmp@[i - 1]));
            }
        }
        proof {
            assert(tmp@.subrange(0, popped as int) =~= tmp@);
            assert(self.spec_bytes() =~= Seq::<u8>::empty());
        }
        popped
    }

    /// Whether the FIFO holds no bytes.
    pub fn is_empty(&self) -> (b: bool)
        ensures
            b == (self.spec_bytes().len() == 0),
    {
        hrb_occupied_len(&self.rb) == 0
    }
}

} // verus!

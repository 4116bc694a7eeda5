//! A single-producer, single-consumer byte ring for record passing.
//!
//! The producer reserves slot-aligned space at its free-running `head`,
//! writes a record there and publishes the new `head`; the drain walks the
//! records in `[tail, head)` and advances `tail`. A record that would straddle
//! the physical end of the buffer is preceded by an `END_OF_BUFFER` filler
//! that covers the rest of the buffer, and the record itself lands at offset
//! zero.
use vstd::prelude::*;
use crate::bits::{align_up, is_pow2_u64, spec_align_up, lemma_mask_is_mod};
use crate::builder::Backpressure;
use crate::record::{END_OF_BUFFER, HEADER_SIZE, LOG_RECORD, MAX_RECORD_SIZE, VERSION};
use crate::wire::{from_le16, le16, lemma_le16_roundtrip};

verus! {

/// Default ring capacity in bytes (1 MiB).
pub const DEFAULT_RING_SIZE: usize = 1_048_576;
/// Cache-line size in bytes.
pub const CACHE_LINE_SIZE: usize = 64;
/// Largest power of two a `Vec<u8>` can hold on a 64-bit target
/// (`isize::MAX` rounded down to a power of two).
pub const MAX_CAPACITY: u64 = 0x4000_0000_0000_0000;
/// Slot size in bytes. Records are placed at slot-aligned positions so
/// adjacent records never share a data cache line.
pub const SLOT_SIZE: usize = 64;

// ---------------------------------------------------------------------------
// Frames in ring storage
// ---------------------------------------------------------------------------

/// Bytes a frame of `size` bytes occupies: `size` rounded up to a slot.
pub open spec fn span(size: int) -> int {
    size + 63 - (size + 63) % 64
}

/// The header type byte of the frame at physical offset `o`, as the drain's
/// bounded reader sees it.
pub open spec fn hdr_type(data: Seq<u8>, cap: int, o: int) -> u8 {
    if cap - o >= 2 { data[o + 1] } else { 0 }
}

/// The header `total_size` of the frame at physical offset `o`, as the
/// drain's bounded reader sees it.
pub open spec fn hdr_size(data: Seq<u8>, cap: int, o: int) -> int {
    if cap - o >= 4 { from_le16(data.subrange(o + 2, o + 4)) as int } else { 0 }
}

/// The frame at position `p` is well formed: a log record or an
/// end-of-buffer filler that lies inside the buffer.
pub open spec fn frame_ok(data: Seq<u8>, cap: int, p: int) -> bool {
    let o = p % cap;
    &&& o + 4 <= cap
    &&& data[o] == VERSION
    &&& (data[o + 1] == LOG_RECORD || data[o + 1] == END_OF_BUFFER)
    &&& hdr_size(data, cap, o) >= HEADER_SIZE
    &&& o + hdr_size(data, cap, o) <= cap
}

/// Positions `[a, b)` hold a gapless chain of well-formed frames.
pub open spec fn chain(data: Seq<u8>, cap: int, a: int, b: int) -> bool
    decreases (if a < b { b - a } else { 0 }),
{
    if a >= b {
        a == b
    } else {
        let sz = hdr_size(data, cap, a % cap);
        &&& frame_ok(data, cap, a)
        &&& a + span(sz) <= b
        &&& chain(data, cap, a + span(sz), b)
    }
}

/// The log records (not the fillers) of the chain `[a, b)`, in order.
pub open spec fn chain_records(data: Seq<u8>, cap: int, a: int, b: int) -> Seq<Seq<u8>>
    decreases (if a < b { b - a } else { 0 }),
{
    if a >= b || cap <= 0 {
        Seq::empty()
    } else {
        let o = a % cap;
        let sz = hdr_size(data, cap, o);
        if sz <= 0 {
            Seq::empty()
        } else {
            proof {
                lemma_span(sz);
            }
            let rest = chain_records(data, cap, a + span(sz), b);
            if data[o + 1] == LOG_RECORD {
                seq![data.subrange(o, o + sz)] + rest
            } else {
                rest
            }
        }
    }
}

/// What the drain's walk over `[tail, end)` delivers, and where it stops:
/// an empty slot stops it, a corrupt frame makes it give up and resync to
/// `end`, a filler is skipped, and a log record is delivered.
pub open spec fn walk(data: Seq<u8>, cap: int, tail: int, end: int) -> (Seq<Seq<u8>>, int)
    decreases (if tail < end { end - tail } else { 0 }),
{
    if tail >= end || cap <= 0 {
        (Seq::empty(), tail)
    } else {
        let o = tail % cap;
        let t = hdr_type(data, cap, o);
        let sz = hdr_size(data, cap, o);
        if sz <= 0 {
            (Seq::empty(), tail)
        } else if data[o] != VERSION || (t != LOG_RECORD && t != END_OF_BUFFER) || sz < HEADER_SIZE
            || o + sz > cap {
            (Seq::empty(), end)
        } else if t == END_OF_BUFFER {
            proof {
                lemma_span(sz);
            }
            walk(data, cap, tail + span(sz), end)
        } else {
            proof {
                lemma_span(sz);
            }
            let r = walk(data, cap, tail + span(sz), end);
            (seq![data.subrange(o, o + sz)] + r.0, r.1)
        }
    }
}

/// Two buffers agree on the bytes of positions `[a, b)`.
pub open spec fn agree(d1: Seq<u8>, d2: Seq<u8>, cap: int, a: int, b: int) -> bool {
    forall|p: int| a <= p < b ==> #[trigger] d1[p % cap] == d2[p % cap]
}

pub proof fn lemma_span(sz: int)
    requires
        sz >= 0,
    ensures
        span(sz) % 64 == 0,
        sz <= span(sz) < sz + 64,
        sz % 64 == 0 ==> span(sz) == sz,
{
}

/// Within one lap of the buffer, a position and its offset move together.
pub proof fn lemma_mod_step(p: int, i: int, cap: int)
    requires
        cap > 0,
        p >= 0,
        i >= 0,
        p % cap + i < cap,
    ensures
        (p + i) % cap == p % cap + i,
{
    vstd::arithmetic::div_mod::lemma_fundamental_div_mod(p, cap);
    vstd::arithmetic::mul::lemma_mul_is_commutative(p / cap, cap);
    vstd::arithmetic::div_mod::lemma_fundamental_div_mod_converse(p + i, cap, p / cap, p % cap + i);
}

/// Positions less than one lap apart have different offsets.
pub proof fn lemma_mod_distinct(p: int, q: int, cap: int)
    requires
        cap > 0,
        0 <= p < q < p + cap,
    ensures
        p % cap != q % cap,
{
    vstd::arithmetic::div_mod::lemma_fundamental_div_mod(p, cap);
    vstd::arithmetic::div_mod::lemma_fundamental_div_mod(q, cap);
    if p % cap == q % cap {
        assert(cap * (q / cap) - cap * (p / cap) == q - p);
        vstd::arithmetic::mul::lemma_mul_is_distributive_sub(cap, q / cap, p / cap);
        if q / cap - p / cap >= 1 {
            vstd::arithmetic::mul::lemma_mul_inequality(1, q / cap - p / cap, cap);
        } else {
            vstd::arithmetic::mul::lemma_mul_inequality(q / cap - p / cap, 0, cap);
        }
    }
}

/// A frame's whole body is the bytes of the positions it covers.
proof fn lemma_body_agree(d1: Seq<u8>, d2: Seq<u8>, cap: int, p: int, sz: int, b: int)
    requires
        cap > 0,
        p >= 0,
        sz >= 0,
        d1.len() == cap,
        d2.len() == cap,
        p % cap + sz <= cap,
        p + sz <= b,
        agree(d1, d2, cap, p, b),
    ensures
        d1.subrange(p % cap, p % cap + sz) == d2.subrange(p % cap, p % cap + sz),
{
    let o = p % cap;
    assert forall|i: int| 0 <= i < sz implies #[trigger] d1.subrange(o, o + sz)[i] == d2.subrange(o, o + sz)[i] by {
        lemma_mod_step(p, i, cap);
        assert(d1[(p + i) % cap] == d2[(p + i) % cap]);
    }
    assert(d1.subrange(o, o + sz) =~= d2.subrange(o, o + sz));
}

/// A chain depends only on the bytes of the positions it covers.
pub proof fn lemma_chain_agree(d1: Seq<u8>, d2: Seq<u8>, cap: int, a: int, b: int)
    requires
        cap > 0,
        a >= 0,
        d1.len() == cap,
        d2.len() == cap,
        chain(d1, cap, a, b),
        agree(d1, d2, cap, a, b),
    ensures
        chain(d2, cap, a, b),
        chain_records(d1, cap, a, b) == chain_records(d2, cap, a, b),
    decreases b - a,
{
    if a < b {
        let o = a % cap;
        let sz = hdr_size(d1, cap, o);
        lemma_span(sz);
        lemma_body_agree(d1, d2, cap, a, 4, b);
        let h1 = d1.subrange(o, o + 4);
        let h2 = d2.subrange(o, o + 4);
        assert(d1[o] == h1[0] && d2[o] == h2[0]);
        assert(d1[o + 1] == h1[1] && d2[o + 1] == h2[1]);
        assert(d1.subrange(o + 2, o + 4) =~= h1.subrange(2, 4));
        assert(d2.subrange(o + 2, o + 4) =~= h2.subrange(2, 4));
        lemma_body_agree(d1, d2, cap, a, sz, b);
        lemma_chain_agree(d1, d2, cap, a + span(sz), b);
    }
}

/// Chains compose, and so do their records.
pub proof fn lemma_chain_concat(d: Seq<u8>, cap: int, a: int, b: int, c: int)
    requires
        cap > 0,
        chain(d, cap, a, b),
        chain(d, cap, b, c),
    ensures
        chain(d, cap, a, c),
        chain_records(d, cap, a, c) == chain_records(d, cap, a, b) + chain_records(d, cap, b, c),
    decreases b - a,
{
    if a < b {
        let sz = hdr_size(d, cap, a % cap);
        lemma_span(sz);
        lemma_chain_concat(d, cap, a + span(sz), b, c);
        assert(chain_records(d, cap, a, c) =~= chain_records(d, cap, a, b) + chain_records(d, cap, b, c));
    } else {
        assert(chain_records(d, cap, a, b) =~= Seq::<Seq<u8>>::empty());
        assert(chain_records(d, cap, a, c) =~= chain_records(d, cap, a, b) + chain_records(d, cap, b, c));
    }
}

/// On a chain, the drain's walk delivers exactly the chain's records and
/// stops at its end.
pub proof fn lemma_walk_chain(d: Seq<u8>, cap: int, a: int, b: int)
    requires
        cap > 0,
        chain(d, cap, a, b),
    ensures
        walk(d, cap, a, b) == (chain_records(d, cap, a, b), b),
    decreases b - a,
{
    if a < b {
        let sz = hdr_size(d, cap, a % cap);
        lemma_span(sz);
        lemma_walk_chain(d, cap, a + span(sz), b);
    }
}

} // verus!

verus! {

// ---------------------------------------------------------------------------
// Positions
// ---------------------------------------------------------------------------

pub open spec fn wadd(x: u64, y: u64) -> u64 {
    if x + y > u64::MAX { (x + y - 0x1_0000_0000_0000_0000int) as u64 } else { (x + y) as u64 }
}

pub open spec fn wsub(x: u64, y: u64) -> u64 {
    if x - y < 0 { (x - y + 0x1_0000_0000_0000_0000int) as u64 } else { (x - y) as u64 }
}

/// A write of `needed` bytes at `head` fits when the occupancy it leaves,
/// measured against `tail`, stays within the mask (one slot short of a full
/// lap, so a full ring is never confused with an empty one).
pub open spec fn fits(head: u64, needed: u64, tail: u64, mask: u64) -> bool {
    wsub(wadd(head, needed), tail) <= mask
}

/// A reserved write slot in the ring: `offset` is the physical offset the
/// record bytes go to, `head` the producer position to publish once the
/// record is written.
#[derive(Clone, Copy, Debug)]
pub struct Reservation {
    pub offset: usize,
    pub head: u64,
}

/// The outcome of a reservation attempt.
#[derive(Clone, Copy, Debug)]
pub enum Reserve {
    /// Space was reserved.
    Slot(Reservation),
    /// The record must be dropped (the ring is full under a non-blocking
    /// policy, or the producer is shutting down).
    Refused,
    /// The ring is full under [`Backpressure::Block`]: wait for the drain
    /// to advance the tail, then try again.
    Wait,
}

/// The outcome of a capacity check.
#[derive(Clone, Copy, Debug, PartialEq, Eq, Structural)]
pub enum CapacityCheck {
    Fits,
    Refused,
    Wait,
}

/// The decision a full ring leaves to the policy: under
/// [`Backpressure::Block`] the caller waits for the drain to free space
/// (Block never drops a record); every other policy refuses.
pub open spec fn when_full(policy: Backpressure) -> CapacityCheck {
    match policy {
        Backpressure::Block => CapacityCheck::Wait,
        _ => CapacityCheck::Refused,
    }
}

/// The end-of-buffer filler header for a span of `span` bytes.
pub open spec fn eob_header(span: u16) -> Seq<u8> {
    seq![VERSION, END_OF_BUFFER] + le16(span)
}

/// `d` with `bytes` written from physical offset `o` on.
pub open spec fn write_at(d: Seq<u8>, o: int, bytes: Seq<u8>) -> Seq<u8> {
    Seq::new(d.len(), |k: int| if o <= k < o + bytes.len() { bytes[k - o] } else { d[k] })
}

/// A well-formed log record frame: header version and type, and a
/// `total_size` field that matches its length.
pub open spec fn is_record_frame(b: Seq<u8>) -> bool {
    &&& HEADER_SIZE <= b.len() <= MAX_RECORD_SIZE
    &&& b[0] == VERSION
    &&& b[1] == LOG_RECORD
    &&& from_le16(b.subrange(2, 4)) == b.len()
}

/// A single-producer, single-consumer ring buffer of bytes.
pub struct RingBuffer {
    data: Vec<u8>,
    head: u64,
    tail: u64,
    tail_cache: u64,
    head_cache: u64,
    live: bool,
    thread_id: u64,
    thread_name: String,
    capacity: usize,
    mask: u64,
    serial: u64,
    helper_reserved: bool,
    draining: bool,
    recyclable: bool,
    recycled: bool,
    handed_off: bool,
}

impl RingBuffer {
    pub closed spec fn spec_data(&self) -> Seq<u8> {
        self.data@
    }

    pub closed spec fn spec_head(&self) -> u64 {
        self.head
    }

    pub closed spec fn spec_tail(&self) -> u64 {
        self.tail
    }

    pub closed spec fn spec_tail_cache(&self) -> u64 {
        self.tail_cache
    }

    pub closed spec fn spec_head_cache(&self) -> u64 {
        self.head_cache
    }

    pub closed spec fn spec_capacity(&self) -> nat {
        self.capacity as nat
    }

    pub closed spec fn spec_mask(&self) -> u64 {
        self.mask
    }

    pub closed spec fn spec_live(&self) -> bool {
        self.live
    }

    pub closed spec fn spec_thread_id(&self) -> u64 {
        self.thread_id
    }

    pub closed spec fn spec_thread_name(&self) -> Seq<char> {
        self.thread_name@
    }

    pub closed spec fn spec_serial(&self) -> u64 {
        self.serial
    }

    pub closed spec fn spec_helper_reserved(&self) -> bool {
        self.helper_reserved
    }

    pub closed spec fn spec_draining(&self) -> bool {
        self.draining
    }

    pub closed spec fn spec_recyclable(&self) -> bool {
        self.recyclable
    }

    pub closed spec fn spec_recycled(&self) -> bool {
        self.recycled
    }

    pub closed spec fn spec_handed_off(&self) -> bool {
        self.handed_off
    }

    /// The storage shape: a power-of-two capacity of at least one slot,
    /// storage of exactly that length, and the matching index mask.
    pub open spec fn inv(&self) -> bool {
        &&& is_pow2_u64(self.spec_capacity() as int)
        &&& SLOT_SIZE <= self.spec_capacity() <= MAX_CAPACITY
        &&& self.spec_data().len() == self.spec_capacity()
        &&& self.spec_mask() == self.spec_capacity() - 1
    }

    /// The ring's protocol state: slot-aligned positions with
    /// `tail_cache <= tail <= head_cache <= head`, less than one lap of
    /// occupancy, and a chain of well-formed frames from `tail` through
    /// `head_cache` to `head`.
    pub open spec fn wf(&self) -> bool {
        let cap = self.spec_capacity() as int;
        let d = self.spec_data();
        &&& self.inv()
        &&& self.spec_tail() % 64 == 0
        &&& self.spec_head() % 64 == 0
        &&& self.spec_head_cache() % 64 == 0
        &&& self.spec_tail_cache() <= self.spec_tail() <= self.spec_head_cache() <= self.spec_head()
        &&& self.spec_head() - self.spec_tail() <= self.spec_mask()
        &&& chain(d, cap, self.spec_tail() as int, self.spec_head_cache() as int)
        &&& chain(d, cap, self.spec_head_cache() as int, self.spec_head() as int)
    }

    /// The records published and not yet drained, oldest first.
    pub open spec fn pending(&self) -> Seq<Seq<u8>> {
        chain_records(
            self.spec_data(),
            self.spec_capacity() as int,
            self.spec_tail() as int,
            self.spec_head() as int,
        )
    }

    /// Everything but the byte storage and the producer position stays put.
    pub open spec fn same_control(&self, other: &RingBuffer) -> bool {
        &&& self.spec_tail() == other.spec_tail()
        &&& self.spec_head_cache() == other.spec_head_cache()
        &&& self.spec_capacity() == other.spec_capacity()
        &&& self.spec_mask() == other.spec_mask()
        &&& self.spec_live() == other.spec_live()
        &&& self.spec_thread_id() == other.spec_thread_id()
        &&& self.spec_thread_name() == other.spec_thread_name()
        &&& self.spec_serial() == other.spec_serial()
        &&& self.spec_helper_reserved() == other.spec_helper_reserved()
        &&& self.spec_draining() == other.spec_draining()
        &&& self.spec_recyclable() == other.spec_recyclable()
        &&& self.spec_recycled() == other.spec_recycled()
        &&& self.spec_handed_off() == other.spec_handed_off()
    }

    /// Creates a ring with `capacity` bytes of zeroed storage.
    pub fn with_capacity(capacity: usize) -> (r: RingBuffer)
        requires
            is_pow2_u64(capacity as int),
            SLOT_SIZE <= capacity <= MAX_CAPACITY,
            capacity <= isize::MAX,
        ensures
            r.wf(),
            r.spec_capacity() == capacity,
            r.spec_data() == Seq::new(capacity as nat, |i: int| 0u8),
            r.spec_head() == 0,
            r.spec_tail() == 0,
            r.spec_tail_cache() == 0,
            r.spec_head_cache() == 0,
            r.spec_live(),
            r.spec_thread_id() == 0,
            r.spec_thread_name().len() == 0,
            r.spec_serial() == 0,
            !r.spec_helper_reserved(),
            !r.spec_draining(),
            !r.spec_recyclable(),
            !r.spec_recycled(),
            !r.spec_handed_off(),
            r.pending().len() == 0,
    {
        Self::from_storage(capacity, false)
    }

    /// Creates a ring for a segment pool; `recyclable` marks segments that
    /// return to the pool once drained.
    pub fn with_capacity_pooled(capacity: usize, recyclable: bool) -> (r: RingBuffer)
        requires
            is_pow2_u64(capacity as int),
            SLOT_SIZE <= capacity <= MAX_CAPACITY,
            capacity <= isize::MAX,
        ensures
            r.wf(),
            r.spec_capacity() == capacity,
            r.spec_data() == Seq::new(capacity as nat, |i: int| 0u8),
            r.spec_head() == 0,
            r.spec_tail() == 0,
            r.spec_tail_cache() == 0,
            r.spec_head_cache() == 0,
            r.spec_live(),
            r.spec_thread_id() == 0,
            r.spec_thread_name().len() == 0,
            r.spec_serial() == 0,
            !r.spec_helper_reserved(),
            !r.spec_draining(),
            r.spec_recyclable() == recyclable,
            !r.spec_recycled(),
            !r.spec_handed_off(),
            r.pending().len() == 0,
    {
        Self::from_storage(capacity, recyclable)
    }

    fn from_storage(capacity: usize, recyclable: bool) -> (r: RingBuffer)
        requires
            is_pow2_u64(capacity as int),
            SLOT_SIZE <= capacity <= MAX_CAPACITY,
            capacity <= isize::MAX,
        ensures
            r.wf(),
            r.spec_capacity() == capacity,
            r.spec_data() == Seq::new(capacity as nat, |i: int| 0u8),
            r.spec_head() == 0,
            r.spec_tail() == 0,
            r.spec_tail_cache() == 0,
            r.spec_head_cache() == 0,
            r.spec_live(),
            r.spec_thread_id() == 0,
            r.spec_thread_name().len() == 0,
            r.spec_serial() == 0,
            !r.spec_helper_reserved(),
            !r.spec_draining(),
            r.spec_recyclable() == recyclable,
            !r.spec_recycled(),
            !r.spec_handed_off(),
            r.pending().len() == 0,
    {
        let mut data: Vec<u8> = Vec::new();
        let mut i: usize = 0;
        while i < capacity
            invariant
                i <= capacity,
                data@ == Seq::new(i as nat, |k: int| 0u8),
            decreases capacity - i,
        {
            data.push(0u8);
            i = i + 1;
            proof {
                assert(data@ =~= Seq::new(i as nat, |k: int| 0u8));
            }
        }
        let r = RingBuffer {
            data,
            head: 0,
            tail: 0,
            tail_cache: 0,
            head_cache: 0,
            live: true,
            thread_id: 0,
            thread_name: String::new(),
            capacity,
            mask: (capacity - 1) as u64,
            serial: 0,
            helper_reserved: false,
            draining: false,
            recyclable,
            recycled: false,
            handed_off: false,
        };
        proof {
            assert(r.thread_name@ =~= Seq::<char>::empty());
        }
        r
    }
}

} // verus!

verus! {

impl RingBuffer {
    /// Creates a ring of the default capacity.
    pub fn new() -> (r: RingBuffer)
        ensures
            r.wf(),
            r.spec_capacity() == DEFAULT_RING_SIZE,
            r.spec_data() == Seq::new(DEFAULT_RING_SIZE as nat, |i: int| 0u8),
            r.spec_head() == 0,
            r.spec_tail() == 0,
            r.spec_tail_cache() == 0,
            r.spec_head_cache() == 0,
            r.spec_live(),
            r.pending().len() == 0,
    {
        proof {
            vstd::arithmetic::power2::lemma2_to64();
            assert(vstd::arithmetic::power2::pow2(20) == DEFAULT_RING_SIZE);
        }
        Self::with_capacity(DEFAULT_RING_SIZE)
    }

    /// Ring storage capacity in bytes.
    pub fn capacity(&self) -> (c: usize)
        ensures
            c == self.spec_capacity(),
    {
        self.capacity
    }

    /// Index mask (`capacity - 1`).
    pub fn mask(&self) -> (m: u64)
        ensures
            m == self.spec_mask(),
    {
        self.mask
    }

    /// The producer's published position.
    pub fn head(&self) -> (h: u64)
        ensures
            h == self.spec_head(),
    {
        self.head
    }

    /// The drain's consumed position.
    pub fn tail(&self) -> (t: u64)
        ensures
            t == self.spec_tail(),
    {
        self.tail
    }

    /// The producer's cached copy of the drain's tail.
    pub fn tail_cache(&self) -> (t: u64)
        ensures
            t == self.spec_tail_cache(),
    {
        self.tail_cache
    }

    /// The drain's cached copy of the producer's head.
    pub fn head_cache(&self) -> (h: u64)
        ensures
            h == self.spec_head_cache(),
    {
        self.head_cache
    }

    /// Overwrites the producer position (control-state surgery; positions
    /// normally move only through `publish`).
    pub fn store_head(&mut self, head: u64)
        ensures
            final(self).spec_head() == head,
            final(self).spec_data() == old(self).spec_data(),
            final(self).spec_tail_cache() == old(self).spec_tail_cache(),
            final(self).same_control(&*old(self)),
    {
        self.head = head;
    }

    /// Overwrites the drain position.
    pub fn store_tail(&mut self, tail: u64)
        ensures
            final(self).spec_tail() == tail,
            final(self).spec_head() == old(self).spec_head(),
            final(self).spec_data() == old(self).spec_data(),
            final(self).spec_tail_cache() == old(self).spec_tail_cache(),
            final(self).spec_head_cache() == old(self).spec_head_cache(),
            final(self).spec_capacity() == old(self).spec_capacity(),
            final(self).spec_mask() == old(self).spec_mask(),
            final(self).spec_live() == old(self).spec_live(),
    {
        self.tail = tail;
    }

    /// Overwrites the producer's cached tail.
    pub fn store_tail_cache(&mut self, tail: u64)
        ensures
            final(self).spec_tail_cache() == tail,
            final(self).spec_head() == old(self).spec_head(),
            final(self).spec_data() == old(self).spec_data(),
            final(self).same_control(&*old(self)),
    {
        self.tail_cache = tail;
    }

    /// The stored bytes, for inspection.
    pub fn data(&self) -> (d: &[u8])
        ensures
            d@ == self.spec_data(),
    {
        self.data.as_slice()
    }

    /// Whether the producer is still alive.
    pub fn is_live(&self) -> (b: bool)
        ensures
            b == self.spec_live(),
    {
        self.live
    }

    /// Marks the ring's producer gone: no more records will be written.
    pub fn set_dead(&mut self)
        ensures
            !final(self).spec_live(),
            final(self).spec_data() == old(self).spec_data(),
            final(self).spec_head() == old(self).spec_head(),
            final(self).spec_tail() == old(self).spec_tail(),
            final(self).spec_tail_cache() == old(self).spec_tail_cache(),
            final(self).spec_head_cache() == old(self).spec_head_cache(),
            final(self).spec_capacity() == old(self).spec_capacity(),
            final(self).spec_mask() == old(self).spec_mask(),
            final(self).spec_serial() == old(self).spec_serial(),
            final(self).spec_helper_reserved() == old(self).spec_helper_reserved(),
            final(self).spec_handed_off() == old(self).spec_handed_off(),
            final(self).spec_recyclable() == old(self).spec_recyclable(),
            final(self).spec_recycled() == old(self).spec_recycled(),
    {
        self.live = false;
    }

    /// Registration serial.
    pub fn serial(&self) -> (s: u64)
        ensures
            s == self.spec_serial(),
    {
        self.serial
    }

    /// Assigns the registration serial.
    pub fn set_serial(&mut self, serial: u64)
        ensures
            final(self).spec_serial() == serial,
            final(self).spec_data() == old(self).spec_data(),
            final(self).spec_head() == old(self).spec_head(),
            final(self).spec_tail() == old(self).spec_tail(),
            final(self).spec_tail_cache() == old(self).spec_tail_cache(),
            final(self).spec_head_cache() == old(self).spec_head_cache(),
            final(self).spec_capacity() == old(self).spec_capacity(),
            final(self).spec_mask() == old(self).spec_mask(),
            final(self).spec_live() == old(self).spec_live(),
            final(self).spec_helper_reserved() == old(self).spec_helper_reserved(),
            final(self).spec_handed_off() == old(self).spec_handed_off(),
            final(self).spec_recyclable() == old(self).spec_recyclable(),
            final(self).spec_recycled() == old(self).spec_recycled(),
    {
        self.serial = serial;
    }

    /// Records this ring's producer identity (stable thread id and name).
    pub fn set_thread_info(&mut self, thread_id: u64, thread_name: &str)
        ensures
            final(self).spec_thread_id() == thread_id,
            final(self).spec_thread_name() == thread_name@,
            final(self).spec_data() == old(self).spec_data(),
            final(self).spec_head() == old(self).spec_head(),
            final(self).spec_tail() == old(self).spec_tail(),
            final(self).spec_tail_cache() == old(self).spec_tail_cache(),
            final(self).spec_head_cache() == old(self).spec_head_cache(),
            final(self).spec_capacity() == old(self).spec_capacity(),
            final(self).spec_mask() == old(self).spec_mask(),
            final(self).spec_live() == old(self).spec_live(),
            final(self).spec_serial() == old(self).spec_serial(),
            final(self).spec_helper_reserved() == old(self).spec_helper_reserved(),
            final(self).spec_handed_off() == old(self).spec_handed_off(),
            final(self).spec_recyclable() == old(self).spec_recyclable(),
            final(self).spec_recycled() == old(self).spec_recycled(),
    {
        self.thread_id = thread_id;
        self.thread_name = thread_name.to_owned();
    }

    /// The producer's stable thread id.
    pub fn thread_id(&self) -> (t: u64)
        ensures
            t == self.spec_thread_id(),
    {
        self.thread_id
    }

    /// The producer's thread name.
    pub fn thread_name(&self) -> (s: String)
        ensures
            s@ == self.spec_thread_name(),
    {
        self.thread_name.clone()
    }

    /// Whether a blocked producer reserved this segment for cooperative
    /// formatting.
    pub fn helper_reserved(&self) -> (b: bool)
        ensures
            b == self.spec_helper_reserved(),
    {
        self.helper_reserved
    }

    /// Reserves the segment for cooperative formatting by its producer.
    pub fn reserve_for_helper(&mut self)
        ensures
            final(self).spec_helper_reserved(),
            final(self).spec_data() == old(self).spec_data(),
            final(self).spec_head() == old(self).spec_head(),
            final(self).spec_tail() == old(self).spec_tail(),
            final(self).spec_live() == old(self).spec_live(),
            final(self).spec_serial() == old(self).spec_serial(),
            final(self).spec_handed_off() == old(self).spec_handed_off(),
            final(self).spec_recyclable() == old(self).spec_recyclable(),
            final(self).spec_recycled() == old(self).spec_recycled(),
    {
        self.helper_reserved = true;
    }

    /// Clears the helper reservation.
    pub fn clear_helper_reservation(&mut self)
        ensures
            !final(self).spec_helper_reserved(),
            final(self).spec_data() == old(self).spec_data(),
            final(self).spec_head() == old(self).spec_head(),
            final(self).spec_tail() == old(self).spec_tail(),
            final(self).spec_live() == old(self).spec_live(),
            final(self).spec_serial() == old(self).spec_serial(),
            final(self).spec_handed_off() == old(self).spec_handed_off(),
            final(self).spec_recyclable() == old(self).spec_recyclable(),
            final(self).spec_recycled() == old(self).spec_recycled(),
    {
        self.helper_reserved = false;
    }

    /// Marks the ring as being read by the drain.
    pub fn mark_draining(&mut self)
        ensures
            final(self).spec_draining(),
            final(self).spec_data() == old(self).spec_data(),
            final(self).spec_head() == old(self).spec_head(),
            final(self).spec_tail() == old(self).spec_tail(),
    {
        self.draining = true;
    }

    /// Clears the drain-read marker.
    pub fn clear_draining(&mut self)
        ensures
            !final(self).spec_draining(),
            final(self).spec_data() == old(self).spec_data(),
            final(self).spec_head() == old(self).spec_head(),
            final(self).spec_tail() == old(self).spec_tail(),
    {
        self.draining = false;
    }

    /// Whether the drain is currently reading this ring.
    pub fn draining(&self) -> (b: bool)
        ensures
            b == self.spec_draining(),
    {
        self.draining
    }

    /// Whether this ring returns to the segment pool once drained.
    pub fn recyclable(&self) -> (b: bool)
        ensures
            b == self.spec_recyclable(),
    {
        self.recyclable
    }

    /// Marks a fully drained pool ring as recycled; true only for the first
    /// call since the last reset, so a ring is never recycled twice.
    pub fn mark_recycled(&mut self) -> (first: bool)
        ensures
            first == !old(self).spec_recycled(),
            final(self).spec_recycled(),
            final(self).spec_data() == old(self).spec_data(),
            final(self).spec_head() == old(self).spec_head(),
            final(self).spec_tail() == old(self).spec_tail(),
            final(self).spec_live() == old(self).spec_live(),
            final(self).spec_serial() == old(self).spec_serial(),
            final(self).spec_handed_off() == old(self).spec_handed_off(),
            final(self).spec_helper_reserved() == old(self).spec_helper_reserved(),
            final(self).spec_recyclable() == old(self).spec_recyclable(),
    {
        let was = self.recycled;
        self.recycled = true;
        !was
    }

    /// Marks the ring as handed off: its producer moved to a fresh segment.
    pub fn mark_handed_off(&mut self)
        ensures
            final(self).spec_handed_off(),
            final(self).spec_data() == old(self).spec_data(),
            final(self).spec_head() == old(self).spec_head(),
            final(self).spec_tail() == old(self).spec_tail(),
            final(self).spec_live() == old(self).spec_live(),
            final(self).spec_serial() == old(self).spec_serial(),
            final(self).spec_helper_reserved() == old(self).spec_helper_reserved(),
            final(self).spec_recyclable() == old(self).spec_recyclable(),
            final(self).spec_recycled() == old(self).spec_recycled(),
    {
        self.handed_off = true;
    }

    /// Whether the producer has moved past this ring.
    pub fn handed_off(&self) -> (b: bool)
        ensures
            b == self.spec_handed_off(),
    {
        self.handed_off
    }

    /// Rewinds all control state for reuse from the pool; the storage bytes
    /// are left as they are.
    pub fn reset_for_reuse(&mut self)
        requires
            old(self).inv(),
        ensures
            final(self).wf(),
            final(self).pending().len() == 0,
            final(self).spec_data() == old(self).spec_data(),
            final(self).spec_head() == 0,
            final(self).spec_tail() == 0,
            final(self).spec_tail_cache() == 0,
            final(self).spec_head_cache() == 0,
            !final(self).spec_helper_reserved(),
            !final(self).spec_draining(),
            !final(self).spec_recycled(),
            !final(self).spec_handed_off(),
            final(self).spec_live(),
            final(self).spec_capacity() == old(self).spec_capacity(),
            final(self).spec_mask() == old(self).spec_mask(),
            final(self).spec_serial() == old(self).spec_serial(),
            final(self).spec_recyclable() == old(self).spec_recyclable(),
            final(self).spec_thread_id() == old(self).spec_thread_id(),
            final(self).spec_thread_name() == old(self).spec_thread_name(),
    {
        self.head = 0;
        self.tail = 0;
        self.tail_cache = 0;
        self.head_cache = 0;
        self.helper_reserved = false;
        self.draining = false;
        self.recycled = false;
        self.handed_off = false;
        self.live = true;
    }
}

} // verus!

verus! {

/// `align_up(n, SLOT_SIZE)` is the slot span of `n`.
proof fn lemma_align_slot(n: u64, r: u64)
    requires
        n <= MAX_RECORD_SIZE,
        r == spec_align_up(n, 64),
    ensures
        r == span(n as int),
{
    vstd::arithmetic::power2::lemma2_to64();
    assert(vstd::arithmetic::power2::pow2(6) == 64);
    assert(is_pow2_u64(64));
    let s = (n + 63) as u64;
    lemma_mask_is_mod(s, 64);
    assert(((n + 64 - 1) % 0x1_0000_0000_0000_0000int) as u64 == s);
}

/// The physical offset of a slot-aligned position is slot-aligned.
proof fn lemma_offset_aligned(p: u64, cap: int)
    requires
        is_pow2_u64(cap),
        cap >= 64,
        p % 64 == 0,
    ensures
        (p as int % cap) % 64 == 0,
        p as int % cap + 64 <= cap,
{
    crate::bits::lemma_pow2_multiple_of_64(cap);
    vstd::arithmetic::div_mod::lemma_mod_mod(p as int, 64, cap / 64);
    vstd::arithmetic::div_mod::lemma_fundamental_div_mod(cap, 64);
}

impl RingBuffer {
    /// Applies the backpressure policy to a write of `needed` bytes at
    /// `head`: the cached tail is trusted first, then refreshed from the
    /// drain's tail.
    pub fn try_ensure_capacity(&mut self, head: u64, needed: u64, policy: Backpressure) -> (c: CapacityCheck)
        ensures
            c == (if fits(head, needed, old(self).spec_tail_cache(), old(self).spec_mask())
                || fits(head, needed, old(self).spec_tail(), old(self).spec_mask()) {
                CapacityCheck::Fits
            } else {
                when_full(policy)
            }),
            final(self).spec_tail_cache() == old(self).spec_tail(),
            final(self).spec_data() == old(self).spec_data(),
            final(self).spec_head() == old(self).spec_head(),
            final(self).same_control(&*old(self)),
    {
        let cached = self.tail_cache;
        if head.wrapping_add(needed).wrapping_sub(cached) <= self.mask {
            self.tail_cache = self.tail;
            return CapacityCheck::Fits;
        }
        let tail = self.tail;
        self.tail_cache = tail;
        if head.wrapping_add(needed).wrapping_sub(tail) <= self.mask {
            return CapacityCheck::Fits;
        }
        match policy {
            Backpressure::Drop => CapacityCheck::Refused,
            Backpressure::NanoLog | Backpressure::Quill => CapacityCheck::Refused,
            Backpressure::Block => CapacityCheck::Wait,
        }
    }

    /// Writes a header-only `END_OF_BUFFER` record spanning `span` bytes at
    /// physical offset `offset`.
    fn write_eob(&mut self, offset: usize, span: u16)
        requires
            old(self).inv(),
            offset + 4 <= old(self).spec_capacity(),
        ensures
            final(self).spec_data() == write_at(old(self).spec_data(), offset as int, eob_header(span)),
            final(self).spec_head() == old(self).spec_head(),
            final(self).spec_tail_cache() == old(self).spec_tail_cache(),
            final(self).same_control(&*old(self)),
    {
        self.data[offset] = VERSION;
        self.data[offset + 1] = END_OF_BUFFER;
        self.data[offset + 2] = (span % 256) as u8;
        self.data[offset + 3] = (span / 256) as u8;
        proof {
            assert(self.data@ =~= write_at(old(self).spec_data(), offset as int, eob_header(span)));
        }
    }
}

/// The reservation plan for a record of `total` bytes at `head`.
pub open spec fn plan_wrap(head: u64, cap: int, total: int) -> bool {
    span(total) > cap - head as int % cap
}

pub open spec fn plan_needed(head: u64, cap: int, total: int) -> u64 {
    if plan_wrap(head, cap, total) {
        (span(total) + cap - head as int % cap) as u64
    } else {
        span(total) as u64
    }
}

pub open spec fn plan_next(head: u64, cap: int, total: int) -> u64 {
    if plan_wrap(head, cap, total) {
        wadd(head, (cap - head as int % cap) as u64)
    } else {
        head
    }
}

impl RingBuffer {
    /// Reserves a slot-aligned slot for a record of `total_size` bytes.
    ///
    /// A record that would straddle the physical end of the buffer gets an
    /// `END_OF_BUFFER` filler over the rest of the buffer first and wraps to
    /// offset zero; filler and record both count toward the space needed.
    /// When the record does not fit, the policy decides (see [`when_full`]):
    /// under [`Backpressure::Block`] the caller is told to wait and try
    /// again, so a waiting caller gets its slot once the drain has advanced
    /// the tail; the record is never refused.
    pub fn reserve(&mut self, total_size: usize, policy: Backpressure) -> (r: Reserve)
        requires
            old(self).inv(),
            old(self).spec_head() % 64 == 0,
            total_size <= MAX_RECORD_SIZE,
        ensures
            ({
                let cap = old(self).spec_capacity() as int;
                let head = old(self).spec_head();
                let o = head as int % cap;
                let needed = plan_needed(head, cap, total_size as int);
                let next = plan_next(head, cap, total_size as int);
                let ok = fits(head, needed, old(self).spec_tail_cache(), old(self).spec_mask())
                    || fits(head, needed, old(self).spec_tail(), old(self).spec_mask());
                &&& ok ==> r == Reserve::Slot(Reservation {
                    offset: (next as int % cap) as usize,
                    head: wadd(next, span(total_size as int) as u64),
                })
                &&& !ok ==> r == (if when_full(policy) == CapacityCheck::Wait {
                    Reserve::Wait
                } else {
                    Reserve::Refused
                })
                &&& final(self).spec_data() == (if ok && plan_wrap(head, cap, total_size as int) {
                    write_at(old(self).spec_data(), o, eob_header((cap - o) as u16))
                } else {
                    old(self).spec_data()
                })
            }),
            final(self).spec_tail_cache() == old(self).spec_tail(),
            final(self).spec_head() == old(self).spec_head(),
            final(self).same_control(&*old(self)),
    {
        let ghost cap = self.capacity as int;
        let total = total_size as u64;
        let aligned = align_up(total, SLOT_SIZE as u64);
        let head = self.head;
        proof {
            lemma_align_slot(total, aligned);
            lemma_span(total as int);
            lemma_mask_is_mod(head, self.capacity as u64);
            lemma_offset_aligned(head, cap);
        }
        let offset = (head & self.mask) as usize;
        let remaining_phys = (self.capacity - offset) as u64;
        let wrap = aligned > remaining_phys;
        let needed = if wrap { aligned + remaining_phys } else { aligned };
        match self.try_ensure_capacity(head, needed, policy) {
            CapacityCheck::Fits => {},
            CapacityCheck::Refused => {
                return Reserve::Refused;
            },
            CapacityCheck::Wait => {
                return Reserve::Wait;
            },
        }
        let mut next = head;
        if wrap {
            self.write_eob(offset, remaining_phys as u16);
            next = next.wrapping_add(remaining_phys);
        }
        proof {
            lemma_mask_is_mod(next, self.capacity as u64);
        }
        let dst = (next & self.mask) as usize;
        let new_head = next.wrapping_add(aligned);
        Reserve::Slot(Reservation { offset: dst, head: new_head })
    }

    /// Copies `bytes` into the reserved slot.
    pub fn write(&mut self, r: &Reservation, bytes: &[u8])
        requires
            old(self).inv(),
            r.offset + bytes@.len() <= old(self).spec_capacity(),
        ensures
            final(self).spec_data() == write_at(old(self).spec_data(), r.offset as int, bytes@),
            final(self).spec_head() == old(self).spec_head(),
            final(self).spec_tail_cache() == old(self).spec_tail_cache(),
            final(self).same_control(&*old(self)),
    {
        let mut i: usize = 0;
        while i < bytes.len()
            invariant
                i <= bytes@.len(),
                r.offset + bytes@.len() <= self.data.len(),
                self.data@.len() == old(self).spec_data().len(),
                self.data@ == write_at(old(self).spec_data(), r.offset as int, bytes@.subrange(0, i as int)),
                self.head == old(self).spec_head(),
                self.tail_cache == old(self).spec_tail_cache(),
                self.same_control(&*old(self)),
            decreases bytes@.len() - i,
        {
            self.data[r.offset + i] = bytes[i];
            i = i + 1;
            proof {
                assert(self.data@ =~= write_at(old(self).spec_data(), r.offset as int, bytes@.subrange(0, i as int)));
            }
        }
        proof {
            assert(bytes@.subrange(0, bytes@.len() as int) =~= bytes@);
        }
    }

    /// Publishes a reserved slot to the drain: the producer position moves
    /// to the reservation's end.
    pub fn publish(&mut self, r: Reservation)
        ensures
            final(self).spec_head() == r.head,
            final(self).spec_data() == old(self).spec_data(),
            final(self).spec_tail_cache() == old(self).spec_tail_cache(),
            final(self).same_control(&*old(self)),
    {
        self.head = r.head;
    }
}

} // verus!

verus! {

/// A record frame written at position `p` forms a one-frame chain.
proof fn lemma_record_chain(d: Seq<u8>, cap: int, p: int, rec: Seq<u8>)
    requires
        cap > 0,
        p >= 0,
        d.len() == cap,
        is_record_frame(rec),
        p % cap + rec.len() <= cap,
        d.subrange(p % cap, p % cap + rec.len()) == rec,
    ensures
        chain(d, cap, p, p + span(rec.len() as int)),
        chain_records(d, cap, p, p + span(rec.len() as int)) == seq![rec],
{
    let o = p % cap;
    let n = rec.len() as int;
    lemma_span(n);
    assert(d[o] == rec[0]);
    assert(d[o + 1] == rec[1]);
    assert(d.subrange(o + 2, o + 4) =~= rec.subrange(2, 4));
    assert(hdr_size(d, cap, o) == n);
    let e = p + span(n);
    assert(chain(d, cap, e, e));
    assert(chain_records(d, cap, e, e) =~= Seq::<Seq<u8>>::empty());
    assert(chain_records(d, cap, p, e) =~= seq![rec]);
}

/// An end-of-buffer filler at position `p` that covers the rest of the
/// buffer extends a chain that starts where the filler ends.
proof fn lemma_eob_chain(d: Seq<u8>, cap: int, p: int, rem: int, end: int)
    requires
        cap > 0,
        p >= 0,
        d.len() == cap,
        p % cap + rem == cap,
        64 <= rem < 0x10000,
        rem % 64 == 0,
        d.subrange(p % cap, p % cap + 4) == eob_header(rem as u16),
        chain(d, cap, p + rem, end),
    ensures
        chain(d, cap, p, end),
        chain_records(d, cap, p, end) == chain_records(d, cap, p + rem, end),
{
    let o = p % cap;
    let h = d.subrange(o, o + 4);
    lemma_le16_roundtrip(rem as u16);
    assert(d[o] == h[0]);
    assert(d[o + 1] == h[1]);
    assert(d.subrange(o + 2, o + 4) =~= h.subrange(2, 4));
    assert(h.subrange(2, 4) =~= le16(rem as u16));
    assert(hdr_size(d, cap, o) == rem);
    lemma_span(rem);
}

/// Writes to positions `[lo, hi)` leave the bytes of positions `[a, b)`
/// alone when the two ranges lie within one lap.
proof fn lemma_write_outside(d: Seq<u8>, cap: int, o: int, bytes: Seq<u8>, q: int, a: int, b: int)
    requires
        cap > 0,
        0 <= a <= b <= q,
        d.len() == cap,
        o == q % cap,
        o + bytes.len() <= cap,
        q + bytes.len() <= a + cap,
    ensures
        agree(d, write_at(d, o, bytes), cap, a, b),
{
    let d2 = write_at(d, o, bytes);
    assert forall|p: int| a <= p < b implies #[trigger] d[p % cap] == d2[p % cap] by {
        let k = p % cap;
        if o <= k < o + bytes.len() {
            let i = k - o;
            lemma_mod_step(q, i, cap);
            lemma_mod_distinct(p, q + i, cap);
        }
    }
}

/// Agreement over a range carries over to its sub-ranges.
proof fn lemma_agree_sub(d1: Seq<u8>, d2: Seq<u8>, cap: int, a: int, b: int, a2: int, b2: int)
    requires
        agree(d1, d2, cap, a, b),
        a <= a2,
        b2 <= b,
    ensures
        agree(d1, d2, cap, a2, b2),
{
    assert forall|p: int| a2 <= p < b2 implies #[trigger] d1[p % cap] == d2[p % cap] by {
        assert(a <= p < b);
    }
}

proof fn lemma_agree_trans(d1: Seq<u8>, d2: Seq<u8>, d3: Seq<u8>, cap: int, a: int, b: int)
    requires
        agree(d1, d2, cap, a, b),
        agree(d2, d3, cap, a, b),
    ensures
        agree(d1, d3, cap, a, b),
{
    assert forall|p: int| a <= p < b implies #[trigger] d1[p % cap] == d3[p % cap] by {
        assert(d1[p % cap] == d2[p % cap]);
    }
}

} // verus!

verus! {

/// Where the plan puts the record: offset zero after a wrap, the
/// producer's own offset otherwise; either way inside the buffer.
proof fn lemma_plan_dst(head: u64, cap: int, n: int)
    requires
        is_pow2_u64(cap),
        64 <= cap,
        head % 64 == 0,
        HEADER_SIZE <= n <= MAX_RECORD_SIZE,
        head + plan_needed(head, cap, n) <= u64::MAX,
        plan_needed(head, cap, n) <= cap - 1,
    ensures
        plan_next(head, cap, n) as int % cap == (if plan_wrap(head, cap, n) { 0 } else { head as int % cap }),
        plan_next(head, cap, n) as int % cap + n <= cap,
        plan_next(head, cap, n) + span(n) == head + plan_needed(head, cap, n),
        plan_wrap(head, cap, n) ==> plan_next(head, cap, n) == head + (cap - head as int % cap),
        head as int % cap + 64 <= cap,
        (cap - head as int % cap) % 64 == 0,
{
    let o = head as int % cap;
    lemma_span(n);
    lemma_offset_aligned(head, cap);
    crate::bits::lemma_pow2_multiple_of_64(cap);
    if plan_wrap(head, cap, n) {
        let q = head as int / cap;
        vstd::arithmetic::div_mod::lemma_fundamental_div_mod(head as int, cap);
        assert(head + (cap - o) == cap * (q + 1)) by {
            vstd::arithmetic::mul::lemma_mul_is_distributive_add(cap, q, 1);
        }
        vstd::arithmetic::mul::lemma_mul_is_commutative(q + 1, cap);
        vstd::arithmetic::div_mod::lemma_mod_multiples_basic(q + 1, cap);
    }
}

/// The filler written at the producer position survives the record write.
proof fn lemma_eob_survives(d1: Seq<u8>, cap: int, head: u64, n: int, rec: Seq<u8>)
    requires
        cap > 0,
        d1.len() == cap,
        rec.len() == n,
        head as int % cap + 4 <= cap,
        plan_wrap(head, cap, n),
        plan_next(head, cap, n) as int % cap + n <= cap,
        plan_next(head, cap, n) == head + (cap - head as int % cap),
        plan_next(head, cap, n) + n <= head + cap,
        cap - head as int % cap >= 4,
    ensures
        write_at(d1, plan_next(head, cap, n) as int % cap, rec).subrange(
            head as int % cap,
            head as int % cap + 4,
        ) == d1.subrange(head as int % cap, head as int % cap + 4),
{
    let o = head as int % cap;
    let next = plan_next(head, cap, n);
    let dst = next as int % cap;
    let d2 = write_at(d1, dst, rec);
    assert forall|j: int| 0 <= j < 4 implies #[trigger] d2.subrange(o, o + 4)[j] == d1.subrange(o, o + 4)[j] by {
        lemma_mod_step(head as int, j, cap);
        if dst <= o + j < dst + n {
            let i = o + j - dst;
            lemma_mod_step(next as int, i, cap);
            lemma_mod_distinct(head as int + j, next as int + i, cap);
        }
    }
    assert(d2.subrange(o, o + 4) =~= d1.subrange(o, o + 4));
}

/// The record's and the filler's writes leave the chain `[tail, head)`
/// intact.
#[verifier::spinoff_prover]
proof fn lemma_old_chain_survives(
    d0: Seq<u8>,
    d2: Seq<u8>,
    cap: int,
    tail: int,
    hc: int,
    head: u64,
    rec: Seq<u8>,
)
    requires
        is_pow2_u64(cap),
        64 <= cap,
        d0.len() == cap,
        0 <= tail <= hc <= head,
        head % 64 == 0,
        chain(d0, cap, tail, hc),
        chain(d0, cap, hc, head as int),
        is_record_frame(rec),
        head + plan_needed(head, cap, rec.len() as int) - tail <= cap - 1,
        head + plan_needed(head, cap, rec.len() as int) <= u64::MAX,
        d2 == write_at(
            (if plan_wrap(head, cap, rec.len() as int) {
                write_at(d0, head as int % cap, eob_header((cap - head as int % cap) as u16))
            } else {
                d0
            }),
            plan_next(head, cap, rec.len() as int) as int % cap,
            rec,
        ),
    ensures
        chain(d2, cap, tail, hc),
        chain(d2, cap, hc, head as int),
        chain(d2, cap, tail, head as int),
        chain_records(d2, cap, tail, head as int) == chain_records(d0, cap, tail, head as int),
{
    let n = rec.len() as int;
    let o = head as int % cap;
    let rem = cap - o;
    let wrap = plan_wrap(head, cap, n);
    let next = plan_next(head, cap, n);
    lemma_plan_dst(head, cap, n);
    let d1 = if wrap { write_at(d0, o, eob_header(rem as u16)) } else { d0 };
    let dst = next as int % cap;
    if wrap {
        lemma_write_outside(d0, cap, o, eob_header(rem as u16), head as int, tail, head as int);
    } else {
        assert(agree(d0, d1, cap, tail, head as int));
    }
    lemma_write_outside(d1, cap, dst, rec, next as int, tail, head as int);
    lemma_agree_trans(d0, d1, d2, cap, tail, head as int);
    lemma_agree_sub(d0, d2, cap, tail, head as int, tail, hc);
    lemma_agree_sub(d0, d2, cap, tail, head as int, hc, head as int);
    lemma_chain_agree(d0, d2, cap, tail, hc);
    lemma_chain_agree(d0, d2, cap, hc, head as int);
    lemma_chain_concat(d0, cap, tail, hc, head as int);
    lemma_chain_concat(d2, cap, tail, hc, head as int);
}

/// The filler (when the record wraps) and the record form a chain from the
/// producer position to the new one whose only record is `rec`.
#[verifier::spinoff_prover]
proof fn lemma_new_frames(d0: Seq<u8>, d2: Seq<u8>, cap: int, head: u64, rec: Seq<u8>)
    requires
        is_pow2_u64(cap),
        64 <= cap,
        d0.len() == cap,
        head % 64 == 0,
        is_record_frame(rec),
        plan_needed(head, cap, rec.len() as int) <= cap - 1,
        head + plan_needed(head, cap, rec.len() as int) <= u64::MAX,
        d2 == write_at(
            (if plan_wrap(head, cap, rec.len() as int) {
                write_at(d0, head as int % cap, eob_header((cap - head as int % cap) as u16))
            } else {
                d0
            }),
            plan_next(head, cap, rec.len() as int) as int % cap,
            rec,
        ),
    ensures
        chain(d2, cap, head as int, plan_next(head, cap, rec.len() as int) + span(rec.len() as int)),
        chain_records(d2, cap, head as int, plan_next(head, cap, rec.len() as int) + span(rec.len() as int))
            == seq![rec],
{
    let n = rec.len() as int;
    let o = head as int % cap;
    let rem = cap - o;
    let wrap = plan_wrap(head, cap, n);
    let next = plan_next(head, cap, n);
    let new_head = next + span(n);
    lemma_plan_dst(head, cap, n);
    let d1 = if wrap { write_at(d0, o, eob_header(rem as u16)) } else { d0 };
    let dst = next as int % cap;
    assert(d2.subrange(dst, dst + n) =~= rec);
    lemma_record_chain(d2, cap, next as int, rec);
    if wrap {
        lemma_eob_survives(d1, cap, head, n, rec);
        assert(d1.subrange(o, o + 4) =~= eob_header(rem as u16));
        lemma_eob_chain(d2, cap, head as int, rem, new_head);
    }
}

/// Appending a record at the producer position, with a filler when it
/// wraps, keeps the chain from `tail` and adds exactly that record to it.
proof fn lemma_append_record(
    d0: Seq<u8>,
    d2: Seq<u8>,
    cap: int,
    tail: int,
    hc: int,
    head: u64,
    rec: Seq<u8>,
)
    requires
        is_pow2_u64(cap),
        64 <= cap,
        d0.len() == cap,
        0 <= tail <= hc <= head,
        head % 64 == 0,
        chain(d0, cap, tail, hc),
        chain(d0, cap, hc, head as int),
        is_record_frame(rec),
        head + plan_needed(head, cap, rec.len() as int) - tail <= cap - 1,
        head + plan_needed(head, cap, rec.len() as int) <= u64::MAX,
        d2 == write_at(
            (if plan_wrap(head, cap, rec.len() as int) {
                write_at(d0, head as int % cap, eob_header((cap - head as int % cap) as u16))
            } else {
                d0
            }),
            plan_next(head, cap, rec.len() as int) as int % cap,
            rec,
        ),
    ensures
        chain(d2, cap, tail, hc),
        chain(d2, cap, hc, plan_next(head, cap, rec.len() as int) + span(rec.len() as int)),
        chain_records(d2, cap, tail, plan_next(head, cap, rec.len() as int) + span(rec.len() as int))
            == chain_records(d0, cap, tail, head as int).push(rec),
{
    let n = rec.len() as int;
    let new_head = plan_next(head, cap, n) + span(n);
    lemma_old_chain_survives(d0, d2, cap, tail, hc, head, rec);
    lemma_new_frames(d0, d2, cap, head, rec);
    lemma_chain_concat(d2, cap, hc, head as int, new_head);
    lemma_chain_concat(d2, cap, tail, head as int, new_head);
    assert(chain_records(d0, cap, tail, head as int).push(rec)
        =~= chain_records(d2, cap, tail, head as int) + seq![rec]);
}

} // verus!

verus! {

/// When the plan fits and no position wraps, the write stays within one
/// lap of the drain's tail and keeps positions slot-aligned.
proof fn lemma_plan_fits(head: u64, cap: int, n: int, cached: u64, tail: u64, mask: u64)
    requires
        is_pow2_u64(cap),
        64 <= cap,
        mask == cap - 1,
        head % 64 == 0,
        HEADER_SIZE <= n <= MAX_RECORD_SIZE,
        cached <= tail <= head,
        head + cap + 0x10000 <= u64::MAX,
        fits(head, plan_needed(head, cap, n), cached, mask)
            || fits(head, plan_needed(head, cap, n), tail, mask),
    ensures
        plan_needed(head, cap, n) <= cap - 1,
        head + plan_needed(head, cap, n) - tail <= cap - 1,
        head + plan_needed(head, cap, n) <= u64::MAX,
        plan_needed(head, cap, n) % 64 == 0,
{
    lemma_span(n);
    lemma_offset_aligned(head, cap);
    crate::bits::lemma_pow2_multiple_of_64(cap);
}

/// Whether a record of `n` bytes fits in the ring, against the cached tail
/// or, failing that, the current one.
pub open spec fn write_fits(r: &RingBuffer, n: int) -> bool {
    let cap = r.spec_capacity() as int;
    let head = r.spec_head();
    let needed = plan_needed(head, cap, n);
    fits(head, needed, r.spec_tail_cache(), r.spec_mask()) || fits(head, needed, r.spec_tail(), r.spec_mask())
}

/// The outcome of writing a record of `n` bytes under `policy`: its slot
/// (after any end-of-buffer filler) when it fits; otherwise a wait under
/// [`Backpressure::Block`], else a refusal.
pub open spec fn write_outcome(r: &RingBuffer, n: int, policy: Backpressure) -> Reserve {
    let cap = r.spec_capacity() as int;
    let next = plan_next(r.spec_head(), cap, n);
    if write_fits(r, n) {
        Reserve::Slot(Reservation { offset: (next as int % cap) as usize, head: (next + span(n)) as u64 })
    } else if when_full(policy) == CapacityCheck::Wait {
        Reserve::Wait
    } else {
        Reserve::Refused
    }
}

/// A slot the ring hands out lies in free space: it starts on a slot
/// boundary inside the storage and holds the whole record there, and the
/// producer position it leads to stays slot-aligned and less than a lap
/// ahead of the drain's tail, so the record never overwrites bytes the
/// drain has not consumed.
pub proof fn law_reserved_slot_is_free(r: RingBuffer, n: int, policy: Backpressure)
    requires
        r.wf(),
        HEADER_SIZE <= n <= MAX_RECORD_SIZE,
        r.spec_head() + r.spec_capacity() + 0x10000 <= u64::MAX,
    ensures
        write_outcome(&r, n, policy) matches Reserve::Slot(s) ==> {
            &&& s.offset % 64 == 0
            &&& s.offset + n <= r.spec_capacity()
            &&& s.head % 64 == 0
            &&& r.spec_head() < s.head
            &&& s.head - r.spec_tail() <= r.spec_mask()
        },
{
    let cap = r.spec_capacity() as int;
    let head = r.spec_head();
    if write_fits(&r, n) {
        lemma_plan_fits(head, cap, n, r.spec_tail_cache(), r.spec_tail(), r.spec_mask());
        lemma_plan_dst(head, cap, n);
        lemma_offset_aligned(head, cap);
        lemma_span(n);
    }
}

impl RingBuffer {
    /// Whether the free-running producer position is still clear of the
    /// end of the `u64` range by more than a lap and a record.
    pub fn has_headroom(&self) -> (b: bool)
        requires
            self.inv(),
        ensures
            b == (self.spec_head() + self.spec_capacity() + 0x10000 <= u64::MAX),
    {
        self.head <= u64::MAX - 0x10000 - self.capacity as u64
    }

    /// Writes one record into the ring: reserves its slot (with the policy
    /// applied), copies the bytes and publishes them.
    ///
    /// A written record is appended to the records pending for the drain;
    /// a refused one leaves them as they were.
    #[verifier::spinoff_prover]
    #[verifier::rlimit(40)]
    pub fn write_record(&mut self, record: &[u8], policy: Backpressure) -> (r: Reserve)
        requires
            old(self).wf(),
            is_record_frame(record@),
            old(self).spec_head() + old(self).spec_capacity() + 0x10000 <= u64::MAX,
        ensures
            r == write_outcome(&*old(self), record@.len() as int, policy),
            r is Slot ==> final(self).spec_head() == r->Slot_0.head,
            !(r is Slot) ==> final(self).spec_head() == old(self).spec_head() && final(self).spec_data()
                == old(self).spec_data(),
            final(self).spec_tail_cache() == old(self).spec_tail(),
            final(self).same_control(&*old(self)),
            final(self).wf(),
            r is Slot ==> final(self).pending() == old(self).pending().push(record@),
            !(r is Slot) ==> final(self).pending() == old(self).pending(),
    {
        let ghost cap = self.capacity as int;
        let ghost head0 = self.head;
        let ghost n = record@.len() as int;
        let ghost d0 = self.data@;
        let res = self.reserve(record.len(), policy);
        match res {
            Reserve::Slot(r) => {
                proof {
                    lemma_plan_fits(head0, cap, n, old(self).tail_cache, self.tail, self.mask);
                    lemma_plan_dst(head0, cap, n);
                }
                self.write(&r, record);
                self.publish(r);
                proof {
                    lemma_append_record(d0, self.data@, cap, self.tail as int, self.head_cache as int, head0, record@);
                }
            },
            _ => {},
        }
        res
    }
}

} // verus!

verus! {

/// Copies `len` bytes of `data` from `start` on.
pub fn copy_range(data: &Vec<u8>, start: usize, len: usize) -> (r: Vec<u8>)
    requires
        start + len <= data@.len(),
    ensures
        r@ == data@.subrange(start as int, start + len),
{
    let mut r: Vec<u8> = Vec::new();
    let mut i: usize = 0;
    while i < len
        invariant
            i <= len,
            start + len <= data.len(),
            r@ == data@.subrange(start as int, start + i),
        decreases len - i,
    {
        r.push(data[start + i]);
        i = i + 1;
        proof {
            assert(r@ =~= data@.subrange(start as int, start + i));
        }
    }
    r
}

/// The byte sequences of a list of records.
pub open spec fn records_view(v: Seq<Vec<u8>>) -> Seq<Seq<u8>> {
    v.map_values(|r: Vec<u8>| r@)
}

/// What one drain pass delivers and where it leaves `tail` and the cached
/// head: the pass refreshes its cached head only when it has caught up with
/// it, and walks up to the cached head.
pub open spec fn drain_pass(data: Seq<u8>, cap: int, tail: u64, head_cache: u64, head: u64) -> (Seq<Seq<u8>>, int, u64) {
    let hc = if tail == head_cache { head } else { head_cache };
    if tail == hc {
        (Seq::empty(), tail as int, head_cache)
    } else {
        let w = walk(data, cap, tail as int, hc as int);
        (w.0, w.1, hc)
    }
}

impl RingBuffer {
    /// One drain pass over the ring: delivers every record in
    /// `[tail, head)` that the pass sees, skipping end-of-buffer fillers,
    /// stopping at an empty slot, and resynchronising to the published head
    /// on a corrupt frame. Returns whether any record was delivered, and the
    /// records.
    ///
    /// On a well-formed ring the records come out oldest first, each
    /// exactly once: what is delivered followed by what is still pending is
    /// what was pending before, and a pass that starts caught up with its
    /// cached head drains everything.
    pub fn drain_records(&mut self) -> (res: (bool, Vec<Vec<u8>>))
        requires
            old(self).inv(),
            old(self).spec_head() + 0x10000 <= u64::MAX,
            old(self).spec_head_cache() + 0x10000 <= u64::MAX,
        ensures
            ({
                let p = drain_pass(
                    old(self).spec_data(),
                    old(self).spec_capacity() as int,
                    old(self).spec_tail(),
                    old(self).spec_head_cache(),
                    old(self).spec_head(),
                );
                &&& records_view(res.1@) == p.0
                &&& res.0 == (p.0.len() > 0)
                &&& final(self).spec_tail() == p.1
                &&& final(self).spec_head_cache() == p.2
            }),
            final(self).spec_data() == old(self).spec_data(),
            final(self).spec_head() == old(self).spec_head(),
            final(self).spec_tail_cache() == old(self).spec_tail_cache(),
            final(self).spec_capacity() == old(self).spec_capacity(),
            final(self).spec_mask() == old(self).spec_mask(),
            final(self).spec_live() == old(self).spec_live(),
            final(self).spec_thread_id() == old(self).spec_thread_id(),
            final(self).spec_thread_name() == old(self).spec_thread_name(),
            final(self).spec_serial() == old(self).spec_serial(),
            final(self).spec_helper_reserved() == old(self).spec_helper_reserved(),
            !final(self).spec_draining(),
            final(self).spec_recyclable() == old(self).spec_recyclable(),
            final(self).spec_recycled() == old(self).spec_recycled(),
            final(self).spec_handed_off() == old(self).spec_handed_off(),
            old(self).wf() ==> {
                &&& final(self).wf()
                &&& records_view(res.1@) + final(self).pending() == old(self).pending()
                &&& old(self).spec_tail() == old(self).spec_head_cache() ==> final(self).pending().len() == 0
            },
    {
        self.draining = true;
        let ghost cap = self.capacity as int;
        let ghost d = self.data@;
        let capacity = self.capacity;
        let mask = self.mask;
        let mut tail = self.tail;
        let mut head_cache = self.head_cache;
        let mut out: Vec<Vec<u8>> = Vec::new();
        if tail == head_cache {
            head_cache = self.head;
            if tail == head_cache {
                self.draining = false;
                proof {
                    assert(records_view(out@) =~= Seq::<Seq<u8>>::empty());
                    if old(self).wf() {
                        assert(self.pending() =~= Seq::<Seq<u8>>::empty());
                        assert(records_view(out@) + self.pending() =~= old(self).pending());
                    }
                }
                return (false, out);
            }
        }
        let ghost hc = head_cache;
        let ghost target = walk(d, cap, tail as int, hc as int);
        let mut had_work = false;
        while tail < head_cache
            invariant_except_break
                target.0 == records_view(out@) + walk(d, cap, tail as int, hc as int).0,
                target.1 == walk(d, cap, tail as int, hc as int).1,
            invariant
                self.data@ == d,
                self.capacity == capacity,
                capacity == cap,
                cap == d.len(),
                self.inv(),
                mask == cap - 1,
                head_cache == hc,
                hc + 0x10000 <= u64::MAX,
                had_work == (records_view(out@).len() > 0),
            ensures
                target.0 == records_view(out@),
                target.1 == tail,
            decreases (if tail <= hc { hc - tail } else { 0 }),
        {
            proof {
                lemma_mask_is_mod(tail, capacity as u64);
            }
            let offset = (tail & mask) as usize;
            let version = self.data[offset];
            let rectype = if capacity - offset >= 2 { self.data[offset + 1] } else { 0 };
            let total_size: u64 = if capacity - offset >= 4 {
                (self.data[offset + 2] as u64) + 256 * (self.data[offset + 3] as u64)
            } else {
                0
            };
            proof {
                if capacity - offset >= 4 {
                    assert(d.subrange(offset + 2, offset + 4)[0] == d[offset + 2]);
                    assert(d.subrange(offset + 2, offset + 4)[1] == d[offset + 3]);
                }
                assert(total_size == hdr_size(d, cap, offset as int));
                assert(rectype == hdr_type(d, cap, offset as int));
            }
            if total_size == 0 {
                proof {
                    assert(records_view(out@) + Seq::<Seq<u8>>::empty() =~= records_view(out@));
                }
                break;
            }
            if version != VERSION || (rectype != LOG_RECORD && rectype != END_OF_BUFFER)
                || total_size < HEADER_SIZE as u64 || offset as u64 + total_size > capacity as u64 {
                tail = head_cache;
                proof {
                    assert(records_view(out@) + Seq::<Seq<u8>>::empty() =~= records_view(out@));
                }
                break;
            }
            let aligned = align_up(total_size, SLOT_SIZE as u64);
            proof {
                lemma_align_slot(total_size, aligned);
                lemma_span(total_size as int);
            }
            if rectype == END_OF_BUFFER {
                tail = tail + aligned;
                continue;
            }
            let record = copy_range(&self.data, offset, total_size as usize);
            let ghost before = records_view(out@);
            out.push(record);
            proof {
                assert(records_view(out@) =~= before.push(record@));
                assert(seq![record@] + walk(d, cap, (tail + aligned) as int, hc as int).0
                    == walk(d, cap, tail as int, hc as int).0);
                assert(before + walk(d, cap, tail as int, hc as int).0
                    =~= records_view(out@) + walk(d, cap, (tail + aligned) as int, hc as int).0);
            }
            had_work = true;
            tail = tail + aligned;
        }
        self.tail = tail;
        self.head_cache = head_cache;
        self.draining = false;
        proof {
            if old(self).wf() {
                let t0 = old(self).tail as int;
                let hc0 = old(self).head_cache as int;
                let h = old(self).head as int;
                if t0 == hc0 {
                    assert(chain(d, cap, h, h));
                    lemma_chain_concat(d, cap, t0, hc0, h);
                }
                lemma_walk_chain(d, cap, t0, hc as int);
                lemma_chain_concat(d, cap, t0, hc as int, h);
                assert(chain(d, cap, hc as int, hc as int));
            }
        }
        (had_work, out)
    }
}

} // verus!

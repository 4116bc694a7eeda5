use ticklog::bits::align_up;
use ticklog::builder::Backpressure;
use ticklog::record::{END_OF_BUFFER, VERSION};
use ticklog::ring::{Reservation, Reserve, RingBuffer, DEFAULT_RING_SIZE, SLOT_SIZE};

const CAP: usize = DEFAULT_RING_SIZE;

fn slot_of(r: Reserve) -> Option<Reservation> {
    match r {
        Reserve::Slot(s) => Some(s),
        _ => None,
    }
}

#[test]
fn constants_are_power_of_two() {
    assert!(CAP.is_power_of_two());
    assert!(SLOT_SIZE.is_power_of_two());
}

#[test]
fn default_capacity_is_1mb() {
    assert_eq!(CAP, 1024 * 1024);
}

#[test]
fn with_capacity_accepts_power_of_two() {
    let rb = RingBuffer::with_capacity(64);
    assert_eq!(rb.capacity(), 64);
    assert_eq!(rb.mask(), 63);
}

#[test]
fn new_initializes_head_to_zero() {
    let rb = RingBuffer::new();
    assert_eq!(rb.head(), 0);
}

#[test]
fn new_initializes_tail_to_zero() {
    let rb = RingBuffer::new();
    assert_eq!(rb.tail(), 0);
}

#[test]
fn new_initializes_tail_cache_to_zero() {
    let rb = RingBuffer::new();
    assert_eq!(rb.tail_cache(), 0);
}

#[test]
fn new_initializes_head_cache_to_zero() {
    let rb = RingBuffer::new();
    assert_eq!(rb.head_cache(), 0);
}

#[test]
fn new_sets_live_to_true() {
    let rb = RingBuffer::new();
    assert!(rb.is_live());
}

#[test]
fn new_zero_initializes_data_region() {
    let rb = RingBuffer::new();
    let cap = rb.capacity();
    assert_eq!(cap, CAP);
    let data = rb.data();
    assert_eq!(data.len(), CAP);
    assert!(data.iter().all(|&b| b == 0));
}

#[test]
fn tail_cache_and_head_cache_are_zeroed() {
    let rb = RingBuffer::new();
    assert_eq!(rb.tail_cache(), 0);
    assert_eq!(rb.head_cache(), 0);
}

#[test]
fn align_up_already_aligned() {
    assert_eq!(align_up(64, 64), 64);
    assert_eq!(align_up(128, 64), 128);
    assert_eq!(align_up(0, 64), 0);
}

#[test]
fn align_up_not_aligned() {
    assert_eq!(align_up(1, 64), 64);
    assert_eq!(align_up(63, 64), 64);
    assert_eq!(align_up(65, 64), 128);
}

#[test]
fn align_up_align_1_is_identity() {
    assert_eq!(align_up(0, 1), 0);
    assert_eq!(align_up(1, 1), 1);
    assert_eq!(align_up(42, 1), 42);
    assert_eq!(align_up(u64::MAX, 1), u64::MAX);
}

#[test]
fn align_up_power_of_two_aligns() {
    assert_eq!(align_up(0, 2), 0);
    assert_eq!(align_up(1, 2), 2);
    assert_eq!(align_up(2, 2), 2);
    assert_eq!(align_up(3, 2), 4);

    assert_eq!(align_up(0, 8), 0);
    assert_eq!(align_up(7, 8), 8);
    assert_eq!(align_up(8, 8), 8);
    assert_eq!(align_up(9, 8), 16);
}

#[test]
fn align_up_large_values() {
    let n = u64::MAX - 100;
    let aligned = align_up(n, 64);
    assert_eq!(aligned % 64, 0);
    assert!(aligned >= n);
}

#[test]
fn align_up_slot_size_boundary() {
    let slot = SLOT_SIZE as u64;
    assert_eq!(align_up(0, slot), 0);
    assert_eq!(align_up(1, slot), slot);
    assert_eq!(align_up(slot - 1, slot), slot);
    assert_eq!(align_up(slot, slot), slot);
    assert_eq!(align_up(slot + 1, slot), 2 * slot);
}

#[test]
fn bitmask_is_capacity_minus_one() {
    let rb = RingBuffer::with_capacity(1024);
    assert_eq!(rb.mask(), 1023);
}

#[test]
fn head_wrap_with_bitmask() {
    let rb = RingBuffer::with_capacity(1024);
    let head: u64 = 1024 + 42;
    let offset = head & rb.mask();
    assert_eq!(offset, 42);
}

#[test]
fn head_at_exact_capacity_wraps_to_zero() {
    let rb = RingBuffer::with_capacity(1024);
    let head: u64 = 1024;
    let offset = head & rb.mask();
    assert_eq!(offset, 0);
}

#[test]
fn write_record_places_record_and_advances_head() {
    let mut rb = RingBuffer::new();
    let record = [0xABu8; 40];
    let len = record.len();
    let slot = slot_of(rb.reserve(len, Backpressure::Drop)).unwrap();
    rb.write(&slot, &record);
    rb.publish(slot);

    let aligned = align_up(40, SLOT_SIZE as u64);
    assert_eq!(rb.head(), aligned);

    let d = rb.data();
    assert_eq!(&d[..40], &record[..]);
}

#[test]
fn write_record_wraps_with_eob_at_ring_end() {
    let mut rb = RingBuffer::new();
    let slot = SLOT_SIZE as u64;
    let start = CAP as u64 - slot;
    rb.store_head(start);
    rb.store_tail(start);
    rb.store_tail_cache(start);

    let record = vec![0xCDu8; slot as usize + 1];
    let aligned = align_up(record.len() as u64, slot);
    let len = record.len();
    let res = slot_of(rb.reserve(len, Backpressure::Drop)).unwrap();
    rb.write(&res, &record);
    rb.publish(res);

    assert_eq!(rb.head(), start + slot + aligned);

    let d = rb.data();
    let eob = (start & (CAP as u64 - 1)) as usize;
    assert_eq!(d[eob], VERSION);
    assert_eq!(d[eob + 1], END_OF_BUFFER);
    assert_eq!(u16::from_le_bytes([d[eob + 2], d[eob + 3]]) as u64, slot);
    assert_eq!(&d[..record.len()], &record[..]);
}

#[test]
fn write_record_drops_when_full_under_drop_policy() {
    let mut rb = RingBuffer::new();
    rb.store_head(CAP as u64);
    rb.store_tail(0);
    rb.store_tail_cache(0);

    let record = [0u8; 40];
    assert!(slot_of(rb.reserve(record.len(), Backpressure::Drop)).is_none());
    assert_eq!(rb.head(), CAP as u64);
}

#[test]
fn full_ring_under_block_policy_asks_to_wait() {
    let mut rb = RingBuffer::new();
    rb.store_head(CAP as u64);
    rb.store_tail(0);
    rb.store_tail_cache(0);
    assert!(matches!(rb.reserve(40, Backpressure::Block), Reserve::Wait));
    // Once the drain frees the ring, the same request is granted.
    rb.store_tail(CAP as u64);
    let slot = slot_of(rb.reserve(40, Backpressure::Block)).unwrap();
    assert_eq!(slot.offset, 0);
    assert_eq!(slot.head, CAP as u64 + 64);
}

#[test]
fn default_size_is_reexported() {
    assert_eq!(DEFAULT_RING_SIZE, 1024 * 1024);
}

#[test]
fn reservation_roundtrips_fields() {
    let offset = 0x1234usize;
    let r = Reservation { offset, head: 42 };
    assert_eq!(r.offset, offset);
    assert_eq!(r.head, 42);
}

fn assert_send<T: Send>() {}

fn assert_sync<T: Sync>() {}

#[test]
fn ring_buffer_is_send() {
    assert_send::<RingBuffer>();
}

#[test]
fn ring_buffer_is_sync() {
    assert_sync::<RingBuffer>();
}

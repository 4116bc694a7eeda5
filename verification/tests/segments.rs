use ticklog::ring::RingBuffer;
use ticklog::segments::{drain_recycle, pool_size, NANOLOG_POOL_BUDGET};

#[test]
fn pool_size_fills_the_budget() {
    assert_eq!(pool_size(4096), NANOLOG_POOL_BUDGET / 4096);
    assert_eq!(pool_size(1 << 20), 8);
    assert_eq!(pool_size(1 << 24), 1);
}

#[test]
fn recycle_returns_segment_to_pool_and_notifies() {
    let mut ring = RingBuffer::with_capacity_pooled(4096, true);
    ring.mark_handed_off();
    assert!(drain_recycle(&mut ring));
    // A second return of the same incarnation is refused.
    assert!(!drain_recycle(&mut ring));
    // Claiming it anew makes it returnable again.
    ring.reset_for_reuse();
    assert!(drain_recycle(&mut ring));
}

#[test]
fn quill_segments_are_not_recyclable() {
    let mut ring = RingBuffer::with_capacity_pooled(4096, false);
    assert!(!ring.recyclable());
    assert!(!drain_recycle(&mut ring));
}

#[test]
fn bounded_policy_preallocates_its_pool() {
    let spares = ticklog::segments::spare_rings(ticklog::builder::Backpressure::NanoLog, 1 << 20);
    assert_eq!(spares.len(), 8);
    for r in &spares {
        assert!(r.recyclable());
        assert!(r.is_live());
        assert_eq!(r.capacity(), 1 << 20);
        assert_eq!(r.head(), r.tail());
    }
    assert!(ticklog::segments::spare_rings(ticklog::builder::Backpressure::Quill, 4096).is_empty());
    assert!(ticklog::segments::spare_rings(ticklog::builder::Backpressure::Drop, 4096).is_empty());
}

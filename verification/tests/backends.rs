use ticklog::builder::{default_line_pattern_bytes, Backpressure};
use ticklog::drain::{drain_staging, LineFormat};
use ticklog::format::Template;
use ticklog::level::Level;
use ticklog::record::{Site, FLAG_SITE, HEADER_SIZE, LOG_RECORD, VERSION};
use ticklog::ring::{Reserve, DEFAULT_RING_SIZE, SLOT_SIZE};
use ticklog::ringbuf_backend::SliceFifo;
use ticklog::ringbuffer_backend::FifoRing;
use ticklog::rtrb_backend::RtrbRing;
use ticklog::timestamp::Calibration;
use ticklog::triple_buffer_backend::TripleExchange;

const CAP: usize = SLOT_SIZE * 256;
const ROOM: usize = SLOT_SIZE;

fn is_slot(r: Reserve) -> bool {
    matches!(r, Reserve::Slot(_))
}

// ---- ringbuffer ------------------------------------------------------------

#[test]
fn ringbuffer_backend_new_default_capacity() {
    let rb = FifoRing::new();
    assert_eq!(rb.capacity(), DEFAULT_RING_SIZE);
}

#[test]
fn ringbuffer_backend_reserve_and_commit_fills_fifo() {
    let mut rb = FifoRing::with_capacity(CAP);
    let payload = vec![0xABu8; 100];
    let slot = rb.reserve(payload.len(), Backpressure::Drop);
    assert!(matches!(slot, Reserve::Slot(r) if r.offset == 0 && r.head == 0));
    rb.commit(&payload);
    assert!(rb.is_live());
}

#[test]
fn ringbuffer_backend_reserve_drops_when_full() {
    let mut rb = FifoRing::with_capacity(SLOT_SIZE);
    let payload = vec![0u8; SLOT_SIZE - 1];
    assert!(is_slot(rb.reserve(payload.len(), Backpressure::Drop)));
    rb.commit(&payload);
    assert!(!is_slot(rb.reserve(1, Backpressure::Drop)));
}

#[test]
fn ringbuffer_backend_publish_is_noop() {
    let rb = FifoRing::with_capacity(CAP);
    if let Reserve::Slot(slot) = rb.reserve(1, Backpressure::Drop) {
        rb.publish(slot);
    } else {
        panic!("expected a slot");
    }
    assert!(rb.is_empty());
}

#[test]
fn ringbuffer_backend_pop_available_moves_all_bytes_in_order() {
    let mut rb = FifoRing::with_capacity(CAP);
    rb.commit(b"abc");
    rb.commit(b"def");
    let mut out = Vec::new();
    assert_eq!(rb.pop_available(&mut out), 6);
    assert_eq!(out, b"abcdef");
    assert!(rb.is_empty());
}

// ---- ringbuf ---------------------------------------------------------------

#[test]
fn ringbuf_backend_new_default_capacity() {
    let rb = SliceFifo::new();
    assert_eq!(rb.capacity(), DEFAULT_RING_SIZE);
}

#[test]
fn ringbuf_backend_reserve_and_commit_fills_fifo() {
    let mut rb = SliceFifo::with_capacity(CAP);
    let payload = vec![0xABu8; 100];
    let slot = rb.reserve(payload.len(), Backpressure::Drop);
    assert!(matches!(slot, Reserve::Slot(r) if r.offset == 0 && r.head == 0));
    rb.commit(&payload);
    assert!(rb.is_live());
    assert!(!rb.is_empty());
}

#[test]
fn ringbuf_backend_reserve_drops_when_full() {
    let mut rb = SliceFifo::with_capacity(SLOT_SIZE);
    let payload = vec![0u8; SLOT_SIZE - 1];
    assert!(is_slot(rb.reserve(payload.len(), Backpressure::Drop)));
    rb.commit(&payload);
    assert!(!is_slot(rb.reserve(1, Backpressure::Drop)));
}

#[test]
fn ringbuf_backend_publish_is_noop() {
    let rb = SliceFifo::with_capacity(CAP);
    if let Reserve::Slot(slot) = rb.reserve(1, Backpressure::Drop) {
        rb.publish(slot);
    } else {
        panic!("expected a slot");
    }
    assert!(rb.is_empty());
}

#[test]
fn ringbuf_backend_pop_available_moves_all_bytes_in_order() {
    let mut rb = SliceFifo::with_capacity(CAP);
    rb.commit(b"abc");
    rb.commit(b"def");
    let mut out = Vec::new();
    assert_eq!(rb.pop_available(&mut out), 6);
    assert_eq!(out, b"abcdef");
    assert!(rb.is_empty());
}

// ---- rtrb ------------------------------------------------------------------

#[test]
fn split_default_capacity() {
    let ring = RtrbRing::split(DEFAULT_RING_SIZE, 1);
    assert_eq!(ring.capacity(), DEFAULT_RING_SIZE - 1);
}

#[test]
fn rtrb_backend_reserve_and_commit_fills_fifo() {
    let mut ring = RtrbRing::split(CAP, 1);
    ring.set_chunk_size(1);
    let payload = vec![0xABu8; 100];
    assert!(is_slot(ring.reserve(payload.len(), Backpressure::Drop)));
    ring.commit(&payload);
    assert!(ring.is_live());
    assert!(!ring.is_empty());
    let mut out = Vec::new();
    assert_eq!(ring.pop_available(&mut out), payload.len());
    assert_eq!(out, payload);
    assert!(ring.is_empty());
}

#[test]
fn rtrb_backend_reserve_drops_when_full() {
    let mut ring = RtrbRing::split(ROOM, 1);
    let payload = vec![0u8; ROOM - 2];
    assert!(is_slot(ring.reserve(payload.len(), Backpressure::Drop)));
    ring.commit(&payload);
    assert!(!is_slot(ring.reserve(1, Backpressure::Drop)));
}

#[test]
fn rtrb_backend_pop_available_moves_all_bytes_in_order() {
    let mut ring = RtrbRing::split(CAP, 1);
    ring.set_chunk_size(1);
    ring.commit(b"abc");
    ring.commit(b"def");
    let mut out = Vec::new();
    assert_eq!(ring.pop_available(&mut out), 6);
    assert_eq!(out, b"abcdef");
    assert!(ring.is_empty());
}

#[test]
fn chunk_size_one_commits_directly_without_staging() {
    let mut ring = RtrbRing::split(CAP, 1);
    ring.set_chunk_size(1);
    ring.commit(b"abc");
    assert_eq!(ring.staged_len(), 0);
    assert_eq!(ring.staged_records(), 0);
    ring.commit(b"def");
    assert_eq!(ring.staged_len(), 0);
    assert_eq!(ring.staged_records(), 0);
    let mut out = Vec::new();
    assert_eq!(ring.pop_available(&mut out), 6);
    assert_eq!(out, b"abcdef");
    assert!(ring.is_empty());
}

#[test]
fn direct_commit_respects_reserve_capacity() {
    let mut ring = RtrbRing::split(ROOM, 1);
    ring.set_chunk_size(1);
    let payload = vec![0u8; ROOM - 2];
    assert!(is_slot(ring.reserve(payload.len(), Backpressure::Drop)));
    ring.commit(&payload);
    assert!(!is_slot(ring.reserve(1, Backpressure::Drop)));
    let mut out = Vec::new();
    assert_eq!(ring.pop_available(&mut out), ROOM - 2);
    assert!(ring.is_empty());
}

#[test]
fn direct_and_staged_commits_interleave() {
    let mut ring = RtrbRing::split(CAP, 1);
    ring.set_chunk_size(1);
    ring.commit(b"aa");
    ring.set_chunk_size(2);
    ring.commit(b"bb");
    assert!(ring.staged_len() > 0);
    ring.commit(b"cc");
    assert_eq!(ring.staged_len(), 0);
    let mut out = Vec::new();
    assert_eq!(ring.pop_available(&mut out), 6);
    assert_eq!(out, b"aabbcc");
    assert!(ring.is_empty());
}

#[test]
fn pop_available_handles_wrapped_chunk() {
    let mut ring = RtrbRing::split(ROOM, 1);
    ring.set_chunk_size(1);
    let first = vec![0xAAu8; 40];
    ring.commit(&first);
    let mut out = Vec::new();
    assert_eq!(ring.pop_available(&mut out), 40);
    assert_eq!(out, first);
    let second = vec![0xBBu8; 40];
    assert!(is_slot(ring.reserve(second.len(), Backpressure::Drop)));
    ring.commit(&second);
    let mut wrapped = Vec::new();
    assert_eq!(ring.pop_available(&mut wrapped), 40);
    assert_eq!(wrapped, second);
    assert!(ring.is_empty());
}

#[test]
fn staged_records_flush_only_when_chunk_size_reached() {
    let mut ring = RtrbRing::split(CAP, 1);
    ring.set_chunk_size(2);
    ring.commit(b"11");
    assert!(ring.is_empty());
    ring.commit(b"22");
    assert!(!ring.is_empty());
    let mut out = Vec::new();
    assert_eq!(ring.pop_available(&mut out), 4);
    assert_eq!(out, b"1122");
    assert!(ring.is_empty());
}

#[test]
fn set_dead_marks_registration_dead() {
    let mut ring = RtrbRing::split(CAP, 1);
    assert!(ring.is_live());
    ring.set_dead();
    assert!(!ring.is_live());
}

#[test]
fn thread_info_roundtrip_through_shared() {
    let mut ring = RtrbRing::split(CAP, 1);
    ring.set_thread_info(7, "worker");
    assert_eq!(ring.thread_id(), 7);
    assert_eq!(ring.thread_name(), "worker");
    ring.set_thread_info(8, "worker-2");
    assert_eq!(ring.thread_id(), 8);
    assert_eq!(ring.thread_name(), "worker-2");
}

// ---- triple_buffer ---------------------------------------------------------

#[test]
fn commit_and_pop_delivers_the_record() {
    let mut rb = TripleExchange::with_capacity(DEFAULT_RING_SIZE);
    assert!(matches!(rb.reserve(5, Backpressure::Drop), Reserve::Slot(r) if r.offset == 0 && r.head == 0));
    rb.commit(b"hello");
    let mut out = Vec::new();
    assert_eq!(rb.pop_available(&mut out), 5);
    assert_eq!(out, b"hello");
    assert!(rb.is_empty());
}

#[test]
fn reserve_returns_none_when_drain_shut_down() {
    let mut rb = TripleExchange::with_capacity(DEFAULT_RING_SIZE);
    assert!(is_slot(rb.reserve(1, Backpressure::Block)));
    rb.commit(b"x");
    rb.set_dead();
    assert!(matches!(rb.reserve(1, Backpressure::Block), Reserve::Refused));
}

#[test]
fn outstanding_value_makes_every_policy_wait() {
    let mut rb = TripleExchange::with_capacity(DEFAULT_RING_SIZE);
    rb.commit(b"x");
    assert!(matches!(rb.reserve(1, Backpressure::Drop), Reserve::Wait));
    assert!(matches!(rb.reserve(1, Backpressure::Block), Reserve::Wait));
    let mut out = Vec::new();
    assert_eq!(rb.pop_available(&mut out), 1);
    assert!(is_slot(rb.reserve(1, Backpressure::Drop)));
}

#[test]
fn direct_commit_overwrites_outstanding_value() {
    let mut rb = TripleExchange::with_capacity(DEFAULT_RING_SIZE);
    rb.commit(b"first-older");
    rb.commit(b"second");
    let mut out = Vec::new();
    assert_eq!(rb.pop_available(&mut out), 6);
    assert_eq!(out, b"second");
    assert!(rb.is_empty());
}

#[test]
fn pop_returns_zero_when_nothing_published() {
    let mut rb = TripleExchange::with_capacity(DEFAULT_RING_SIZE);
    assert!(rb.is_empty());
    let mut out = Vec::new();
    assert_eq!(rb.pop_available(&mut out), 0);
}

// ---- FIFO drain --------------------------------------------------------------

fn build_record(level: Level, site: u64) -> Vec<u8> {
    let mut payload = site.to_le_bytes().to_vec();
    payload.push(0);
    let total_size = (HEADER_SIZE + payload.len()) as u16;
    let mut record = vec![VERSION, LOG_RECORD];
    record.extend_from_slice(&total_size.to_le_bytes());
    record.push(level.to_u8());
    record.extend_from_slice(&FLAG_SITE.to_le_bytes());
    record.push(0);
    record.extend_from_slice(&0u64.to_le_bytes());
    record.extend_from_slice(&payload);
    record
}

fn staging_lines(staging: &mut Vec<u8>, sites: &[Site]) -> (bool, Vec<(String, Level)>) {
    let pattern = Template::parse(&default_line_pattern_bytes()).unwrap();
    let f = LineFormat {
        timezone_offset: 0,
        calibration: Calibration { ns_num: 1, ns_den: 1, counter_base: 0, wall_base_ns: 0 },
        line_pattern: &pattern,
        sites,
        files: &[],
    };
    let (had_work, lines) = drain_staging(staging, &f, 0, b"");
    (had_work, lines.into_iter().map(|l| (String::from_utf8(l.bytes).unwrap(), l.level)).collect())
}

#[test]
fn fifo_drain_formats_complete_records() {
    let sites = vec![Site { fmt: "x={}", file: "a.rs", line: 7 }];
    let mut rb = FifoRing::with_capacity(CAP);
    let mut record = build_record(Level::Info, 0);
    // One u64 argument: count 1, tag, payload.
    let n = record.len();
    record[n - 1] = 1;
    record.push(0x00);
    record.extend_from_slice(&42u64.to_le_bytes());
    let total = record.len() as u16;
    record[2..4].copy_from_slice(&total.to_le_bytes());
    rb.commit(&record);

    let mut staging = Vec::new();
    rb.pop_available(&mut staging);
    let (had_work, lines) = staging_lines(&mut staging, &sites);
    assert!(had_work);
    assert_eq!(lines.len(), 1);
    assert_eq!(lines[0].0, "1970-01-01T00:00:00.000000000Z INFO a.rs:7 x=42");
    assert!(staging.is_empty());
    let (had_work, _) = staging_lines(&mut staging, &sites);
    assert!(!had_work);
}

#[test]
fn fifo_drain_passes_whole_records_atomically() {
    let sites = vec![Site { fmt: "one", file: "", line: 0 }, Site { fmt: "two", file: "", line: 0 }];
    let mut rb = FifoRing::with_capacity(CAP);
    rb.commit(&build_record(Level::Info, 0));
    rb.commit(&build_record(Level::Warn, 1));
    let mut staging = Vec::new();
    rb.pop_available(&mut staging);
    let (had_work, lines) = staging_lines(&mut staging, &sites);
    assert!(had_work);
    assert_eq!(lines.len(), 2, "got {lines:?}");
    assert_eq!(lines[0].1, Level::Info);
    assert_eq!(lines[1].1, Level::Warn);
    assert!(rb.is_empty());
}

#[test]
fn triple_buffer_drain_delivers_latest_record_only() {
    let sites = vec![Site { fmt: "one", file: "", line: 0 }, Site { fmt: "two", file: "", line: 0 }];
    let mut rb = TripleExchange::with_capacity(DEFAULT_RING_SIZE);
    rb.commit(&build_record(Level::Info, 0));
    rb.commit(&build_record(Level::Warn, 1));
    let mut staging = Vec::new();
    rb.pop_available(&mut staging);
    let (had_work, lines) = staging_lines(&mut staging, &sites);
    assert!(had_work);
    assert_eq!(lines.len(), 1, "got {lines:?}");
    assert_eq!(lines[0].1, Level::Warn);
    let mut more = Vec::new();
    assert_eq!(rb.pop_available(&mut more), 0);
    assert!(rb.is_empty());
}

#[test]
fn fifo_drain_keeps_incomplete_record_staged() {
    let sites = vec![Site { fmt: "one", file: "", line: 0 }];
    let record = build_record(Level::Info, 0);
    let mut staging = record[..10].to_vec();
    let (had_work, lines) = staging_lines(&mut staging, &sites);
    assert!(!had_work);
    assert!(lines.is_empty());
    assert_eq!(staging, &record[..10]);
    staging.extend_from_slice(&record[10..]);
    let (had_work, lines) = staging_lines(&mut staging, &sites);
    assert!(had_work);
    assert_eq!(lines.len(), 1);
    assert!(staging.is_empty());
}

#[test]
fn fifo_drain_takes_whole_records_and_keeps_a_started_one() {
    let sites = vec![Site { fmt: "one", file: "", line: 0 }, Site { fmt: "two", file: "", line: 0 }];
    let first = build_record(Level::Info, 0);
    let second = build_record(Level::Warn, 1);
    let third = build_record(Level::Error, 0);
    let mut staging = first.clone();
    staging.extend_from_slice(&second);
    staging.extend_from_slice(&third[..HEADER_SIZE + 2]);
    let (had_work, lines) = staging_lines(&mut staging, &sites);
    assert!(had_work);
    assert_eq!(lines.len(), 2);
    assert_eq!(lines[0].1, Level::Info);
    assert_eq!(lines[1].1, Level::Warn);
    assert_eq!(staging, &third[..HEADER_SIZE + 2]);
}

#[test]
fn ringbuffer_backend_commit_past_its_bound_keeps_newest_bytes() {
    let mut rb = FifoRing::with_capacity(SLOT_SIZE);
    let bytes: Vec<u8> = (0u8..70).collect();
    rb.commit(&bytes);
    let mut out = Vec::new();
    assert_eq!(rb.pop_available(&mut out), SLOT_SIZE);
    assert_eq!(out, &bytes[70 - SLOT_SIZE..]);
}

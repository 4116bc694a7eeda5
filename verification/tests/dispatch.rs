use ticklog::builder::{default_line_pattern_bytes, Backpressure};
use ticklog::dispatch::dispatch;
use ticklog::decode::FloatHole;
use ticklog::drain::{drain_ring, fill_holes, LineFormat, Schedule, SPIN_CAP, SPIN_MIN};
use ticklog::encode::{encode_args, Arg};
use ticklog::format::{FormatSpec, Template};
use ticklog::hotpath::{take, Profiler, C_CALLS, C_DROPS, LANES};
use ticklog::level::Level;
use ticklog::record::{Site, MAX_RECORD_SIZE};
use ticklog::ring::{Reserve, RingBuffer};
use ticklog::timestamp::Calibration;

fn sites() -> Vec<Site> {
    vec![Site { fmt: "order {} filled at {}", file: "src/exec.rs", line: 12 }]
}

#[test]
fn dispatched_record_drains_back_as_its_line() {
    let mut ring = RingBuffer::with_capacity(4096);
    ring.set_thread_info(3, "exec");
    let args = encode_args(&[Arg::U64(17), Arg::Str(b"px".to_vec())]).unwrap();
    let r = dispatch(&mut ring, &mut Profiler::new(false), Level::Warn, 0, 2, &args, Backpressure::Drop, 5_000_000_000);
    assert!(matches!(r, Reserve::Slot(_)));

    let pattern = Template::parse(&default_line_pattern_bytes()).unwrap();
    let sites = sites();
    let f = LineFormat {
        timezone_offset: 0,
        calibration: Calibration { ns_num: 1, ns_den: 1, counter_base: 0, wall_base_ns: 0 },
        line_pattern: &pattern,
        sites: &sites,
        files: &[],
    };
    let (had_work, lines) = drain_ring(&mut ring, &f);
    assert!(had_work);
    assert_eq!(lines.len(), 1);
    assert_eq!(lines[0].level, Level::Warn);
    assert_eq!(
        String::from_utf8(lines[0].bytes.clone()).unwrap(),
        "1970-01-01T00:00:05.000000000Z WARN src/exec.rs:12 order 17 filled at px"
    );
    let (had_work, lines) = drain_ring(&mut ring, &f);
    assert!(!had_work);
    assert!(lines.is_empty());
}

#[test]
fn oversized_record_is_dropped_silently() {
    let mut ring = RingBuffer::with_capacity(1 << 17);
    let args = vec![0u8; MAX_RECORD_SIZE];
    let r = dispatch(&mut ring, &mut Profiler::new(false), Level::Info, 0, 1, &args, Backpressure::Block, 0);
    assert!(matches!(r, Reserve::Refused));
    assert_eq!(ring.head(), 0);
}

#[test]
fn profiler_counts_calls_and_drops() {
    let mut ring = RingBuffer::with_capacity(128);
    let mut prof = Profiler::new(true);
    assert!(matches!(dispatch(&mut ring, &mut prof, Level::Info, 0, 0, &[], Backpressure::Drop, 0), Reserve::Slot(_)));
    assert!(matches!(dispatch(&mut ring, &mut prof, Level::Info, 0, 0, &[], Backpressure::Drop, 0), Reserve::Refused));
    assert!(matches!(dispatch(&mut ring, &mut prof, Level::Info, 0, 0, &[], Backpressure::Block, 0), Reserve::Wait));
    // An oversized record is dropped uncounted.
    let big = vec![0u8; MAX_RECORD_SIZE];
    assert!(matches!(dispatch(&mut ring, &mut prof, Level::Info, 0, 1, &big, Backpressure::Drop, 0), Reserve::Refused));
    let lanes = take(&mut prof);
    assert_eq!(lanes.len(), LANES);
    assert_eq!(lanes[C_CALLS], 1);
    assert_eq!(lanes[C_DROPS], 1);
    assert_eq!(take(&mut prof)[C_CALLS], 0);

    let mut ring = RingBuffer::with_capacity(128);
    let mut off = Profiler::new(false);
    dispatch(&mut ring, &mut off, Level::Info, 0, 0, &[], Backpressure::Drop, 0);
    assert_eq!(take(&mut off)[C_CALLS], 0);
}

#[test]
fn refused_record_leaves_the_ring_as_it_was() {
    let mut ring = RingBuffer::with_capacity(128);
    let mut prof = Profiler::new(false);
    assert!(matches!(dispatch(&mut ring, &mut prof, Level::Info, 0, 0, &[], Backpressure::Drop, 0), Reserve::Slot(_)));
    let head = ring.head();
    let data = ring.data().to_vec();
    assert!(matches!(dispatch(&mut ring, &mut prof, Level::Warn, 3, 0, &[], Backpressure::Drop, 9), Reserve::Refused));
    assert_eq!(ring.head(), head);
    assert_eq!(ring.data(), &data[..]);
}

#[test]
fn full_ring_drops_or_waits_by_policy() {
    let mut ring = RingBuffer::with_capacity(128);
    // Two 64-byte slots hold one record; the ring keeps one slot free.
    assert!(matches!(dispatch(&mut ring, &mut Profiler::new(false), Level::Info, 0, 0, &[], Backpressure::Drop, 0), Reserve::Slot(_)));
    assert!(matches!(dispatch(&mut ring, &mut Profiler::new(false), Level::Info, 0, 0, &[], Backpressure::Drop, 0), Reserve::Refused));
    assert!(matches!(dispatch(&mut ring, &mut Profiler::new(false), Level::Info, 0, 0, &[], Backpressure::Block, 0), Reserve::Wait));
    // Block never refuses, not even once the producer is marked dead.
    ring.set_dead();
    assert!(matches!(dispatch(&mut ring, &mut Profiler::new(false), Level::Info, 0, 0, &[], Backpressure::Block, 0), Reserve::Wait));
}

#[test]
fn schedule_syncs_on_its_cadence_and_backs_off() {
    let mut s = Schedule::new(false);
    assert!(s.begin_pass());
    for _ in 1..1024 {
        assert!(!s.begin_pass());
    }
    assert!(s.begin_pass());

    let e = s.end_pass(true);
    assert!(!e.flush);
    assert_eq!(e.idle_spins, 0);
    let e = s.end_pass(false);
    assert!(e.flush);
    assert_eq!(e.idle_spins, SPIN_MIN);
    let mut last = 0;
    for _ in 0..10 {
        let e = s.end_pass(false);
        assert!(!e.flush);
        last = e.idle_spins;
    }
    assert_eq!(last, SPIN_CAP);

    let mut seg = Schedule::new(true);
    assert!(seg.begin_pass());
    assert!(seg.begin_pass());
}

#[test]
fn every_argument_kind_reads_back() {
    let sites = vec![Site { fmt: "{} {} {} {} {} {} {} {} {} {} {} {}", file: "k.rs", line: 1 }];
    let args = encode_args(&[
        Arg::U64(u64::MAX),
        Arg::I64(i64::MIN),
        Arg::F64Bits(2.5f64.to_bits()),
        Arg::U32(7),
        Arg::I32(-7),
        Arg::F32Bits(1.5f32.to_bits()),
        Arg::U16(65535),
        Arg::I16(-300),
        Arg::U8(255),
        Arg::I8(-128),
        Arg::Bool(false),
        Arg::Str(b"tail".to_vec()),
    ])
    .unwrap();
    let mut ring = RingBuffer::with_capacity(4096);
    ring.set_thread_info(1, "main");
    let r = dispatch(&mut ring, &mut Profiler::new(false), Level::Debug, 0, 12, &args, Backpressure::Drop, 0);
    assert!(matches!(r, Reserve::Slot(_)));
    let pattern = Template::parse(b"{message}").unwrap();
    let f = LineFormat {
        timezone_offset: 0,
        calibration: Calibration { ns_num: 1, ns_den: 1, counter_base: 0, wall_base_ns: 0 },
        line_pattern: &pattern,
        sites: &sites,
        files: &[],
    };
    let (_, lines) = drain_ring(&mut ring, &f);
    assert_eq!(lines.len(), 1);
    assert_eq!(
        String::from_utf8(lines[0].bytes.clone()).unwrap(),
        "18446744073709551615 -9223372036854775808  7 -7  65535 -300 255 -128 false tail"
    );
    let holes = &lines[0].holes;
    assert_eq!(holes.len(), 2);
    assert_eq!(holes[0].at, 42);
    assert_eq!(holes[0].bits, 2.5f64.to_bits());
    assert!(holes[0].wide);
    assert_eq!(holes[1].at, 48);
    assert_eq!(holes[1].bits, 1.5f32.to_bits() as u64);
    assert!(!holes[1].wide);
}

#[test]
fn float_texts_land_at_their_holes() {
    let spec = FormatSpec::default();
    let hole = |at: usize| FloatHole { at, bits: 0, wide: true, spec };
    let bytes = b"a= b= c=".to_vec();
    let holes = vec![hole(2), hole(5), hole(8)];
    let texts = vec![b"1.5".to_vec(), b"2".to_vec(), b"-0.25".to_vec()];
    assert_eq!(fill_holes(&bytes, &holes, &texts), b"a=1.5 b=2 c=-0.25".to_vec());
    // An offset past the end lands at the end; one before the previous
    // text lands right after it.
    let holes = vec![hole(4), hole(1), hole(99)];
    assert_eq!(fill_holes(b"abcd", &holes, &texts), b"abcd1.52-0.25".to_vec());
    assert_eq!(fill_holes(b"xyz", &[], &[]), b"xyz".to_vec());
}

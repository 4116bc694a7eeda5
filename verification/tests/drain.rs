use ticklog::builder::default_line_pattern_bytes;
use ticklog::cursor::Cursor;
use ticklog::decode::{
    decode_and_format, fmt_bool, fmt_i64, fmt_str, fmt_u64, FloatHole, TAG_BOOL, TAG_F64, TAG_I64,
    TAG_STR, TAG_U16, TAG_U64,
};
use ticklog::drain::{drain_ring, plan_sync, LineFormat, LocalSnap, RegSnap};
use ticklog::format::{FormatSpec, Template};
use ticklog::level::Level;
use ticklog::record::{
    Site, END_OF_BUFFER, FLAG_SITE, FLAG_SOURCE, FLAG_THREAD, HEADER_SIZE, LOG_RECORD,
    SITE_SECTION_SIZE, VERSION,
};
use ticklog::ring::{Reservation, RingBuffer, SLOT_SIZE};
use ticklog::bits::align_up;
use ticklog::timestamp::Calibration;

fn identity_calibration() -> Calibration {
    Calibration { ns_num: 1, ns_den: 1, counter_base: 0, wall_base_ns: 0 }
}

fn le_bytes(tag: u8, value: u64) -> (u8, Vec<u8>) {
    let bytes = match tag {
        TAG_U64 | TAG_I64 | TAG_F64 => value.to_le_bytes().to_vec(),
        TAG_U16 => (value as u16).to_le_bytes().to_vec(),
        TAG_BOOL => vec![value as u8],
        _ => panic!("unsupported tag in helper"),
    };
    (tag, bytes)
}

fn str_arg(s: &str) -> (u8, Vec<u8>) {
    let mut v = (s.len() as u16).to_le_bytes().to_vec();
    v.extend_from_slice(s.as_bytes());
    (TAG_STR, v)
}

/// A table of call sites; a record refers to one by its index.
struct Sites {
    sites: Vec<Site>,
}

impl Sites {
    fn new() -> Sites {
        Sites { sites: Vec::new() }
    }

    fn site_of(&mut self, fmt: &'static str, file: &'static str, line: u32) -> u64 {
        self.sites.push(Site { fmt, file, line });
        (self.sites.len() - 1) as u64
    }
}

fn build_record(level: Level, timestamp: u64, site: u64, args: &[(u8, Vec<u8>)]) -> Vec<u8> {
    let flags: u16 = FLAG_SITE;
    let mut payload: Vec<u8> = Vec::new();
    payload.extend_from_slice(&site.to_le_bytes());
    payload.push(args.len() as u8);
    for (tag, _) in args {
        payload.push(*tag);
    }
    for (_, data) in args {
        payload.extend_from_slice(data);
    }
    let total_size = (HEADER_SIZE + payload.len()) as u16;
    let mut record = Vec::with_capacity(total_size as usize);
    record.push(VERSION);
    record.push(LOG_RECORD);
    record.extend_from_slice(&total_size.to_le_bytes());
    record.push(level.to_u8());
    record.extend_from_slice(&flags.to_le_bytes());
    record.push(0);
    record.extend_from_slice(&timestamp.to_le_bytes());
    record.extend_from_slice(&payload);
    record
}

#[allow(clippy::too_many_arguments)]
fn build_record_with_legacy_extra(
    level: Level,
    timestamp: u64,
    site: u64,
    source: Option<(u64, u16, u32)>,
    thread_id: u64,
    thread_name: Option<&str>,
    args: &[(u8, Vec<u8>)],
) -> Vec<u8> {
    let mut flags: u16 = FLAG_SITE | FLAG_THREAD;
    if source.is_some() {
        flags |= FLAG_SOURCE;
    }
    let mut payload: Vec<u8> = Vec::new();
    payload.extend_from_slice(&site.to_le_bytes());
    if let Some((file_key, file_len, line)) = source {
        payload.extend_from_slice(&file_key.to_le_bytes());
        payload.extend_from_slice(&file_len.to_le_bytes());
        payload.extend_from_slice(&line.to_le_bytes());
    }
    payload.extend_from_slice(&thread_id.to_le_bytes());
    let name_bytes = thread_name.map_or(&b""[..], |n| n.as_bytes());
    payload.extend_from_slice(&(name_bytes.len() as u16).to_le_bytes());
    payload.extend_from_slice(name_bytes);
    payload.push(args.len() as u8);
    for (tag, _) in args {
        payload.push(*tag);
    }
    for (_, data) in args {
        payload.extend_from_slice(data);
    }
    let total_size = (HEADER_SIZE + payload.len()) as u16;
    let mut record = Vec::with_capacity(total_size as usize);
    record.push(VERSION);
    record.push(LOG_RECORD);
    record.extend_from_slice(&total_size.to_le_bytes());
    record.push(level.to_u8());
    record.extend_from_slice(&flags.to_le_bytes());
    record.push(0);
    record.extend_from_slice(&timestamp.to_le_bytes());
    record.extend_from_slice(&payload);
    record
}

fn default_line_pattern() -> Template {
    Template::parse(&default_line_pattern_bytes()).expect("default pattern is valid")
}

fn format_line(record: &[u8], sites: &Sites) -> String {
    let mut buf = Vec::new();
    let mut holes: Vec<FloatHole> = Vec::new();
    decode_and_format(
        record,
        0,
        &identity_calibration(),
        &default_line_pattern(),
        7,
        b"worker",
        &sites.sites,
        &[],
        &mut buf,
        &mut holes,
    );
    String::from_utf8(buf).unwrap()
}

fn place_record(ring: &mut RingBuffer, offset: u64, bytes: &[u8]) {
    let new_head = offset + align_up(bytes.len() as u64, SLOT_SIZE as u64);
    let r = Reservation { offset: offset as usize, head: new_head };
    ring.write(&r, bytes);
    ring.publish(r);
}

fn drain_lines(ring: &mut RingBuffer, sites: &Sites) -> (bool, Vec<(String, Level)>) {
    let pattern = default_line_pattern();
    let f = LineFormat {
        timezone_offset: 0,
        calibration: identity_calibration(),
        line_pattern: &pattern,
        sites: &sites.sites,
        files: &[],
    };
    let (had_work, lines) = drain_ring(ring, &f);
    (
        had_work,
        lines
            .into_iter()
            .map(|l| (String::from_utf8(l.bytes).unwrap(), l.level))
            .collect(),
    )
}

// ---- Cursor ----------------------------------------------------------------

#[test]
fn cursor_reads_types_and_advances() {
    let mut data = Vec::new();
    data.push(0xABu8);
    data.extend_from_slice(&0xBEEFu16.to_le_bytes());
    data.extend_from_slice(&0xDEAD_BEEFu32.to_le_bytes());
    data.extend_from_slice(&0x0102_0304_0506_0708u64.to_le_bytes());
    let mut c = Cursor::new(&data);
    assert_eq!(c.read_u8(), 0xAB);
    assert_eq!(c.read_u16(), 0xBEEF);
    assert_eq!(c.read_u32(), 0xDEAD_BEEF);
    assert_eq!(c.read_u64(), 0x0102_0304_0506_0708);
}

#[test]
fn cursor_skip_and_read_bytes() {
    let data = [1u8, 2, 3, 4, 5, 6];
    let mut c = Cursor::new(&data);
    c.skip(2);
    assert_eq!(c.read_bytes(3), &[3, 4, 5]);
    assert_eq!(c.read_u8(), 6);
}

#[test]
fn cursor_read_len_prefixed() {
    let mut data = (5u16).to_le_bytes().to_vec();
    data.extend_from_slice(b"hello");
    data.push(0x99);
    let mut c = Cursor::new(&data);
    let (s, len) = c.read_len_prefixed();
    assert_eq!(len, 5);
    assert_eq!(s, b"hello");
    assert_eq!(c.read_u8(), 0x99);
}

#[test]
fn cursor_read_len_prefixed_empty() {
    let data = (0u16).to_le_bytes().to_vec();
    let mut c = Cursor::new(&data);
    let (s, len) = c.read_len_prefixed();
    assert_eq!(len, 0);
    assert!(s.is_empty());
}

#[test]
fn cursor_clamps_reads_at_end() {
    let data = [1u8, 2, 3];
    let mut c = Cursor::new(&data);
    assert_eq!(c.read_u64(), 0);
    assert_eq!(c.remaining(), 3);
    assert_eq!(c.read_bytes(100), &[1, 2, 3]);
    assert_eq!(c.remaining(), 0);
    assert_eq!(c.read_u16(), 0);
}

#[test]
fn cursor_len_prefix_clamps_when_string_overruns() {
    let mut data = (9u16).to_le_bytes().to_vec();
    data.extend_from_slice(b"abc");
    let mut c = Cursor::new(&data);
    let (s, len) = c.read_len_prefixed();
    assert_eq!(len, 9);
    assert_eq!(s, b"abc");
}

// ---- formatters ------------------------------------------------------------

#[test]
fn formatter_u64_roundtrip() {
    let mut buf = Vec::new();
    fmt_u64(&42u64.to_le_bytes(), &FormatSpec::default(), &mut buf);
    assert_eq!(buf, b"42");
}

#[test]
fn formatter_i64_negative() {
    let mut buf = Vec::new();
    fmt_i64(&(-7i64).to_le_bytes(), &FormatSpec::default(), &mut buf);
    assert_eq!(buf, b"-7");
}

#[test]
fn formatter_bool_and_str() {
    let mut buf = Vec::new();
    fmt_bool(&[1], &FormatSpec::default(), &mut buf);
    assert_eq!(buf, b"true");

    buf.clear();
    fmt_str(b"hi", &FormatSpec::default(), &mut buf);
    assert_eq!(buf, b"hi");
}

#[test]
fn formatter_str_invalid_utf8_is_lossy() {
    let mut buf = Vec::new();
    fmt_str(&[0xFF], &FormatSpec::default(), &mut buf);
    assert_eq!(buf, "\u{FFFD}".as_bytes());
}

// ---- decode_and_format ------------------------------------------------------

#[test]
fn decode_full_line() {
    let mut sites = Sites::new();
    let s = sites.site_of("x={}", "a.rs", 7);
    let record = build_record(Level::Info, 0, s, &[le_bytes(TAG_U64, 42)]);
    let line = format_line(&record, &sites);
    assert_eq!(line, "1970-01-01T00:00:00.000000000Z INFO a.rs:7 x=42");
}

#[test]
fn decode_multiple_args_and_types() {
    let mut sites = Sites::new();
    let s = sites.site_of("{} {} {}", "", 0);
    let record = build_record(
        Level::Error,
        0,
        s,
        &[le_bytes(TAG_U16, 5), str_arg("ok"), le_bytes(TAG_BOOL, 1)],
    );
    let line = format_line(&record, &sites);
    assert_eq!(line, "1970-01-01T00:00:00.000000000Z ERROR :0 5 ok true");
}

#[test]
fn decode_escaped_braces() {
    let mut sites = Sites::new();
    let s = sites.site_of("{{{}}}", "", 0);
    let record = build_record(Level::Info, 0, s, &[le_bytes(TAG_U64, 9)]);
    let line = format_line(&record, &sites);
    assert_eq!(line, "1970-01-01T00:00:00.000000000Z INFO :0 {9}");
}

#[test]
fn decode_unknown_tag_emits_placeholder() {
    let mut sites = Sites::new();
    let s = sites.site_of("v={}", "", 0);
    let record = build_record(Level::Info, 0, s, &[(0x7F, vec![0u8])]);
    let line = format_line(&record, &sites);
    assert_eq!(line, "1970-01-01T00:00:00.000000000Z INFO :0 v=<unknown tag 0x7F>");
}

#[test]
fn decode_missing_arg_placeholder() {
    let mut sites = Sites::new();
    let s = sites.site_of("{} {}", "", 0);
    let record = build_record(Level::Info, 0, s, &[le_bytes(TAG_U64, 1)]);
    let line = format_line(&record, &sites);
    assert_eq!(line, "1970-01-01T00:00:00.000000000Z INFO :0 1 <missing arg>");
}

#[test]
fn decode_tolerates_count_byte_exceeding_tags_present() {
    let mut sites = Sites::new();
    let s = sites.site_of("v={}", "", 0);
    let mut record = build_record(Level::Info, 0, s, &[]);
    record[HEADER_SIZE + SITE_SECTION_SIZE] = 200;
    let line = format_line(&record, &sites);
    assert!(line.ends_with("v=<missing arg>"), "expected a missing-arg placeholder, got {line:?}");
}

#[test]
fn decode_timestamp_conversion() {
    let mut sites = Sites::new();
    let s = sites.site_of("t", "", 0);
    let record = build_record(Level::Info, 1_234_567_890, s, &[]);
    let line = format_line(&record, &sites);
    assert_eq!(line, "1970-01-01T00:00:01.234567890Z INFO :0 t");
}

#[test]
fn decodes_records_with_legacy_extra_sections() {
    let mut sites = Sites::new();
    let s = sites.site_of("n={}", "site.rs", 9);
    let files: Vec<&'static str> = vec!["old.rs"];
    let record = build_record_with_legacy_extra(
        Level::Info,
        0,
        s,
        Some((0, 6, 3)),
        99,
        Some("legacy"),
        &[le_bytes(TAG_U64, 7)],
    );
    let mut buf = Vec::new();
    let mut holes = Vec::new();
    decode_and_format(
        &record,
        0,
        &identity_calibration(),
        &default_line_pattern(),
        1,
        b"ring",
        &sites.sites,
        &files,
        &mut buf,
        &mut holes,
    );
    let line = String::from_utf8(buf).unwrap();
    assert!(line.ends_with("INFO old.rs:3 n=7"), "source override / message mismatch: {line:?}");
    let mut buf = Vec::new();
    let template = Template::parse(b"{timestamp} {level} {thread_id} {thread_name}: {message}")
        .expect("valid template");
    decode_and_format(
        &record,
        0,
        &identity_calibration(),
        &template,
        1,
        b"ring",
        &sites.sites,
        &files,
        &mut buf,
        &mut holes,
    );
    let line = String::from_utf8(buf).unwrap();
    assert!(
        line.contains("ThreadId(99)") && line.contains("legacy"),
        "in-band thread override not applied: {line:?}"
    );
}

#[test]
fn float_arguments_leave_holes_at_their_place() {
    let mut sites = Sites::new();
    let s = sites.site_of("a={} b={}", "", 0);
    let record = build_record(
        Level::Info,
        0,
        s,
        &[le_bytes(TAG_F64, 3.5f64.to_bits()), le_bytes(TAG_U64, 2)],
    );
    let mut buf = Vec::new();
    let mut holes = Vec::new();
    decode_and_format(
        &record,
        0,
        &identity_calibration(),
        &Template::parse(b"{message}").unwrap(),
        0,
        b"",
        &sites.sites,
        &[],
        &mut buf,
        &mut holes,
    );
    assert_eq!(buf, b"a= b=2");
    assert_eq!(holes.len(), 1);
    assert_eq!(holes[0].at, 2);
    assert_eq!(holes[0].bits, 3.5f64.to_bits());
    assert!(holes[0].wide);
}

#[test]
fn unresolved_site_key_renders_no_site() {
    let sites = Sites::new();
    let record = build_record(Level::Warn, 0, 5, &[]);
    let line = format_line(&record, &sites);
    assert_eq!(line, "1970-01-01T00:00:00.000000000Z WARN : ");
}

// ---- poll ------------------------------------------------------------------

#[test]
fn poll_empty_ring_no_accepts() {
    let sites = Sites::new();
    let mut ring = RingBuffer::new();
    let (had_work, lines) = drain_lines(&mut ring, &sites);
    assert!(!had_work);
    assert!(lines.is_empty());
}

#[test]
fn poll_one_record_accepts_and_advances_tail() {
    let mut sites = Sites::new();
    let s = sites.site_of("x={}", "a.rs", 7);
    let mut ring = RingBuffer::new();
    let record = build_record(Level::Info, 0, s, &[le_bytes(TAG_U64, 42)]);
    place_record(&mut ring, 0, &record);
    let head = ring.head();

    let (had_work, lines) = drain_lines(&mut ring, &sites);
    assert!(had_work);
    assert_eq!(lines.len(), 1);
    assert_eq!(lines[0].0, "1970-01-01T00:00:00.000000000Z INFO a.rs:7 x=42");
    assert_eq!(lines[0].1, Level::Info);
    assert_eq!(ring.tail(), head);
    let (had_work, _) = drain_lines(&mut ring, &sites);
    assert!(!had_work);
}

#[test]
fn poll_discards_corrupt_record_and_resyncs_to_head() {
    let mut sites = Sites::new();
    let mut ring = RingBuffer::new();
    let r1 = build_record(Level::Info, 0, sites.site_of("first", "", 0), &[]);
    place_record(&mut ring, 0, &r1);
    let off2 = align_up(r1.len() as u64, SLOT_SIZE as u64);
    let mut bad = build_record(Level::Info, 0, sites.site_of("corrupt", "", 0), &[]);
    bad[1] = 0x7F;
    place_record(&mut ring, off2, &bad);
    let off3 = off2 + align_up(bad.len() as u64, SLOT_SIZE as u64);
    let r2 = build_record(Level::Info, 0, sites.site_of("second", "", 0), &[]);
    place_record(&mut ring, off3, &r2);

    let (_, lines) = drain_lines(&mut ring, &sites);
    assert_eq!(lines.len(), 1, "got {lines:?}");
    assert!(lines[0].0.ends_with("first"), "got {:?}", lines[0].0);
    assert_eq!(ring.tail(), ring.head());
}

#[test]
fn poll_skips_end_of_buffer_record() {
    let mut sites = Sites::new();
    let mut ring = RingBuffer::new();
    let mut eob = Vec::new();
    eob.push(VERSION);
    eob.push(END_OF_BUFFER);
    eob.extend_from_slice(&(SLOT_SIZE as u16).to_le_bytes());
    eob.resize(SLOT_SIZE, 0);
    place_record(&mut ring, 0, &eob);
    let record = build_record(Level::Info, 0, sites.site_of("hi", "", 0), &[]);
    place_record(&mut ring, SLOT_SIZE as u64, &record);

    let (had_work, lines) = drain_lines(&mut ring, &sites);
    assert!(had_work);
    assert_eq!(lines.len(), 1);
    assert_eq!(lines[0].0, "1970-01-01T00:00:00.000000000Z INFO :0 hi");
}

#[test]
fn poll_multiple_records_in_one_ring() {
    let mut sites = Sites::new();
    let mut ring = RingBuffer::new();
    let r1 = build_record(Level::Info, 0, sites.site_of("a", "", 0), &[]);
    let r2 = build_record(Level::Warn, 0, sites.site_of("b", "", 0), &[]);
    let slot = SLOT_SIZE as u64;
    ring.write(&Reservation { offset: 0, head: 0 }, &r1);
    ring.write(&Reservation { offset: slot as usize, head: 0 }, &r2);
    ring.store_head(2 * slot);

    let (had_work, lines) = drain_lines(&mut ring, &sites);
    assert!(had_work);
    assert_eq!(lines.len(), 2);
    assert_eq!(lines[0].1, Level::Info);
    assert_eq!(lines[1].1, Level::Warn);
}

// ---- sync ------------------------------------------------------------------

#[test]
fn sync_picks_up_and_drops_rings() {
    let reg = [RegSnap { live: true, helper_reserved: false, serial: 4 }];
    let plan = plan_sync(&reg, &[]);
    assert_eq!(plan.add_registry, vec![(0, 4)]);
    assert!(plan.finalize_registry.is_empty());

    // The ring goes dead; the next sync drops it from the list.
    let reg = [RegSnap { live: false, helper_reserved: false, serial: 4 }];
    let local = [LocalSnap { reg_index: Some(0), live: false, helper_reserved: false }];
    let plan = plan_sync(&reg, &local);
    assert!(plan.keep_local.is_empty());
    assert!(plan.add_registry.is_empty());
    assert_eq!(plan.finalize_registry, vec![0]);
    assert_eq!(plan.retain, vec![false]);
}

#[test]
fn sync_does_not_add_same_ring_twice() {
    let reg = [RegSnap { live: true, helper_reserved: false, serial: 1 }];
    let first = plan_sync(&reg, &[]);
    assert_eq!(first.add_registry.len(), 1);
    let local = [LocalSnap { reg_index: Some(0), live: true, helper_reserved: false }];
    let second = plan_sync(&reg, &local);
    let count = second.keep_local.len() + second.add_registry.len();
    assert_eq!(count, 1);
}

#[test]
fn sync_drains_dead_ring_before_dropping_it() {
    let mut sites = Sites::new();
    let mut ring = RingBuffer::new();
    let record = build_record(Level::Info, 0, sites.site_of("bye", "", 0), &[]);
    place_record(&mut ring, 0, &record);
    ring.set_dead();

    // The ring is on the drain's list but not in the registry.
    let local = [LocalSnap { reg_index: None, live: ring.is_live(), helper_reserved: ring.helper_reserved() }];
    let plan = plan_sync(&[], &local);
    assert_eq!(plan.finalize_local, vec![0]);
    assert!(plan.keep_local.is_empty());

    let (_, lines) = drain_lines(&mut ring, &sites);
    assert_eq!(lines.len(), 1);
    assert_eq!(lines[0].0, "1970-01-01T00:00:00.000000000Z INFO :0 bye");
}

#[test]
fn sync_refreshes_serial_of_reregistered_ring() {
    let reg = [
        RegSnap { live: true, helper_reserved: false, serial: 9 },
        RegSnap { live: false, helper_reserved: true, serial: 2 },
    ];
    let local = [LocalSnap { reg_index: Some(0), live: true, helper_reserved: false }];
    let plan = plan_sync(&reg, &local);
    assert_eq!(plan.keep_local, vec![(0, 9)]);
    assert_eq!(plan.add_registry, vec![(1, 2)]);
    assert!(plan.finalize_registry.is_empty());
    assert_eq!(plan.retain, vec![true, true]);
}

use ticklog::encode::{encode_args, Arg};
use ticklog::level::Level;
use ticklog::record::{
    assemble, BASE_RECORD_SIZE, COUNT_SIZE, FLAG_SITE, HEADER_SIZE, LOG_RECORD, MAX_RECORD_SIZE,
    SITE_SECTION_SIZE, VERSION,
};

/// The key the test site is registered under.
const SITE_KEY: u64 = 7;

/// Assembles a site-layout record with `args`; false when it cannot be framed.
fn check_assemble(scratch: &mut Vec<u8>, level: Level, timestamp: u64, site_key: u64, args: &[Arg]) -> bool {
    if args.len() > u8::MAX as usize {
        return false;
    }
    let encoded = match encode_args(args) {
        Some(e) => e,
        None => return false,
    };
    let total_size = HEADER_SIZE + SITE_SECTION_SIZE + COUNT_SIZE + encoded.len();
    if total_size > MAX_RECORD_SIZE {
        return false;
    }
    assemble(
        scratch,
        level,
        timestamp,
        FLAG_SITE,
        site_key,
        args.len() as u8,
        total_size,
        &encoded,
    );
    true
}

fn read_u16(bytes: &[u8], offset: usize) -> u16 {
    u16::from_le_bytes(bytes[offset..offset + 2].try_into().unwrap())
}

fn read_u64(bytes: &[u8], offset: usize) -> u64 {
    u64::from_le_bytes(bytes[offset..offset + 8].try_into().unwrap())
}

#[test]
fn header_fields_are_written() {
    let mut buf = Vec::new();
    let ok = check_assemble(&mut buf, Level::Warn, 0xABCD, SITE_KEY, &[]);
    assert!(ok);

    assert_eq!(buf[0], VERSION);
    assert_eq!(buf[1], LOG_RECORD);
    assert_eq!(read_u16(&buf, 2) as usize, buf.len());
    assert_eq!(buf[4], Level::Warn.to_u8());
    assert_eq!(read_u16(&buf, 5), FLAG_SITE);
    assert_eq!(buf[7], 0);
    assert_eq!(read_u64(&buf, 8), 0xABCD);
}

#[test]
fn site_section_references_the_call_site_descriptor() {
    let mut buf = Vec::new();
    check_assemble(&mut buf, Level::Info, 0, SITE_KEY, &[Arg::U64(1)]);

    let site = read_u64(&buf, HEADER_SIZE);
    assert_eq!(site, SITE_KEY);

    let count_at = HEADER_SIZE + SITE_SECTION_SIZE;
    assert_eq!(buf[count_at], 1);
}

#[test]
fn arguments_are_tag_grouped_then_payload_grouped() {
    let mut buf = Vec::new();
    check_assemble(&mut buf, Level::Info, 0, 3, &[Arg::U16(0x1234), Arg::Bool(true)]);

    let args_at = HEADER_SIZE + SITE_SECTION_SIZE;
    assert_eq!(buf[args_at], 2);
    assert_eq!(buf[args_at + 1], 0x06);
    assert_eq!(buf[args_at + 2], 0x0A);
    assert_eq!(read_u16(&buf, args_at + 3), 0x1234);
    assert_eq!(buf[args_at + 5], 1);
}

#[test]
fn total_size_matches_buffer_length() {
    let mut buf = Vec::new();
    check_assemble(&mut buf, Level::Error, 0, SITE_KEY, &[Arg::Str(b"hello".to_vec())]);
    assert_eq!(read_u16(&buf, 2) as usize, buf.len());
}

#[test]
fn rejects_more_than_255_arguments() {
    let args: Vec<Arg> = (0..256).map(|_| Arg::U8(1)).collect();
    let mut buf = Vec::new();
    assert!(!check_assemble(&mut buf, Level::Info, 0, SITE_KEY, &args));
}

#[test]
fn rejects_record_larger_than_u16_total_size() {
    let big = "x".repeat(u16::MAX as usize);
    let mut buf = Vec::new();
    assert!(!check_assemble(&mut buf, Level::Info, 0, SITE_KEY, &[Arg::Str(big.into_bytes())]));
}

#[test]
fn zero_args_writes_count_zero() {
    let mut buf = Vec::new();
    check_assemble(&mut buf, Level::Info, 0, SITE_KEY, &[]);
    let args_at = HEADER_SIZE + SITE_SECTION_SIZE;
    assert_eq!(buf[args_at], 0);
    assert_eq!(buf.len(), args_at + 1);
}

#[test]
fn base_record_size_is_header_site_and_count() {
    assert_eq!(BASE_RECORD_SIZE, HEADER_SIZE + SITE_SECTION_SIZE + COUNT_SIZE);
    assert_eq!(BASE_RECORD_SIZE, 25);
}

#[test]
fn signed_arguments_are_twos_complement() {
    let enc = encode_args(&[Arg::I16(-2), Arg::I8(-1), Arg::I64(-3)]).unwrap();
    assert_eq!(&enc[..3], &[0x07, 0x09, 0x01]);
    assert_eq!(&enc[3..5], &(-2i16).to_le_bytes());
    assert_eq!(enc[5], 0xFF);
    assert_eq!(&enc[6..14], &(-3i64).to_le_bytes());
}

#[test]
fn string_longer_than_its_prefix_is_not_encodable() {
    let big = vec![b'a'; 65536];
    assert!(encode_args(&[Arg::Str(big)]).is_none());
}

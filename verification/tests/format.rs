use ticklog::format::{
    format_bool, format_i32, format_i64, format_i8, format_str, format_u64, parse_spec, Align, Field,
    FormatSpec, PatternError, Radix, Segment, Template,
};
use ticklog::timestamp::{format_iso8601, ticks_to_ns, Calibration};

fn fmt_u64(v: u64, spec: &str) -> String {
    let mut buf = Vec::new();
    format_u64(v, &parse_spec(spec.as_bytes()), &mut buf);
    String::from_utf8(buf).unwrap()
}

fn fmt_i64(v: i64, spec: &str) -> String {
    let mut buf = Vec::new();
    format_i64(v, &parse_spec(spec.as_bytes()), &mut buf);
    String::from_utf8(buf).unwrap()
}

fn fmt_str(s: &str, spec: &str) -> String {
    let mut buf = Vec::new();
    format_str(s.as_bytes(), &parse_spec(spec.as_bytes()), &mut buf);
    String::from_utf8(buf).unwrap()
}

#[test]
fn bare_placeholder_is_the_default_spec() {
    assert_eq!(parse_spec(b""), FormatSpec::default());
    assert_eq!(parse_spec(b":"), FormatSpec::default());
}

#[test]
fn spec_parses_every_component() {
    let s = parse_spec(b":*^+#012.3X");
    assert_eq!(s.fill, b'*');
    assert_eq!(s.align, Align::Center);
    assert!(s.plus);
    assert!(s.alternate);
    assert!(s.zero);
    assert_eq!(s.width, Some(12));
    assert_eq!(s.precision, Some(3));
    assert_eq!(s.radix, Radix::UpperHex);
}

#[test]
fn spec_with_trailing_junk_is_the_default() {
    assert_eq!(parse_spec(b":>5q"), FormatSpec::default());
}

#[test]
fn integers_match_std_formatting() {
    assert_eq!(fmt_u64(42, ""), format!("{}", 42u64));
    assert_eq!(fmt_u64(42, ":>5"), format!("{:>5}", 42u64));
    assert_eq!(fmt_u64(42, ":<5"), format!("{:<5}", 42u64));
    assert_eq!(fmt_u64(42, ":^6"), format!("{:^6}", 42u64));
    assert_eq!(fmt_u64(42, ":#x"), format!("{:#x}", 42u64));
    assert_eq!(fmt_u64(42, ":#X"), format!("{:#X}", 42u64));
    assert_eq!(fmt_u64(5, ":08b"), format!("{:08b}", 5u64));
    assert_eq!(fmt_u64(8, ":o"), format!("{:o}", 8u64));
    assert_eq!(fmt_u64(7, ":+"), format!("{:+}", 7u64));
    assert_eq!(fmt_u64(u64::MAX, ""), u64::MAX.to_string());
    assert_eq!(fmt_u64(0, ""), "0");
    assert_eq!(fmt_i64(-42, ":06"), format!("{:06}", -42i64));
    assert_eq!(fmt_i64(-42, ":>6"), format!("{:>6}", -42i64));
    assert_eq!(fmt_i64(i64::MIN, ""), i64::MIN.to_string());
    assert_eq!(fmt_i64(-1, ":x"), format!("{:x}", -1i64));
}

#[test]
fn narrow_signed_hex_uses_their_own_width() {
    let mut buf = Vec::new();
    format_i32(-1, &parse_spec(b":x"), &mut buf);
    assert_eq!(buf, format!("{:x}", -1i32).as_bytes());
    buf.clear();
    format_i8(-2, &parse_spec(b":#x"), &mut buf);
    assert_eq!(buf, format!("{:#x}", -2i8).as_bytes());
}

#[test]
fn strings_pad_and_truncate_by_characters() {
    assert_eq!(fmt_str("INFO", ":>5"), format!("{:>5}", "INFO"));
    assert_eq!(fmt_str("ab", ":-<4"), format!("{:-<4}", "ab"));
    assert_eq!(fmt_str("héllo", ":.2"), format!("{:.2}", "héllo"));
    assert_eq!(fmt_str("é", ":>3"), format!("{:>3}", "é"));
    assert_eq!(fmt_str("abc", ":^7"), format!("{:^7}", "abc"));
}

#[test]
fn bools_format_like_strings() {
    let mut buf = Vec::new();
    format_bool(false, &parse_spec(b":>7"), &mut buf);
    assert_eq!(buf, format!("{:>7}", false).as_bytes());
}

#[test]
fn template_parses_fields_literals_and_escapes() {
    let t = Template::parse(b"[{level:>5}] {{x}} {message}").unwrap();
    assert_eq!(t.segments.len(), 4);
    match &t.segments[0] {
        Segment::Lit(b) => assert_eq!(b, b"["),
        _ => panic!("expected a literal"),
    }
    match &t.segments[1] {
        Segment::Place { field, spec } => {
            assert_eq!(*field, Field::Level);
            assert_eq!(spec.width, Some(5));
            assert_eq!(spec.align, Align::Right);
        },
        _ => panic!("expected a placeholder"),
    }
    match &t.segments[2] {
        Segment::Lit(b) => assert_eq!(b, b"] {x} "),
        _ => panic!("expected a literal"),
    }
    match &t.segments[3] {
        Segment::Place { field, .. } => assert_eq!(*field, Field::Message),
        _ => panic!("expected a placeholder"),
    }
}

#[test]
fn template_errors_point_at_the_brace() {
    assert!(matches!(Template::parse(b"{unknown_field}"), Err(PatternError::UnknownField { at: 0 })));
    assert!(matches!(Template::parse(b"ab {level"), Err(PatternError::Unclosed { at: 3 })));
    assert!(matches!(Template::parse(b"a}b"), Err(PatternError::UnmatchedClose { at: 1 })));
    assert!(matches!(Template::parse(b"{}"), Err(PatternError::UnknownField { at: 0 })));
}

#[test]
fn iso8601_of_epoch_and_offsets() {
    let mut buf = Vec::new();
    format_iso8601(0, 0, &mut buf);
    assert_eq!(buf, b"1970-01-01T00:00:00.000000000Z");
    buf.clear();
    format_iso8601(1_234_567_890, 0, &mut buf);
    assert_eq!(buf, b"1970-01-01T00:00:01.234567890Z");
    buf.clear();
    format_iso8601(0, -3600, &mut buf);
    assert_eq!(buf, b"1969-12-31T23:00:00.000000000-01:00");
    buf.clear();
    format_iso8601(0, 19800, &mut buf);
    assert_eq!(buf, b"1970-01-01T05:30:00.000000000+05:30");
}

#[test]
fn iso8601_handles_leap_years() {
    let mut buf = Vec::new();
    // 2000-02-29T12:00:00Z is 951825600 seconds after the epoch.
    format_iso8601(951_825_600_000_000_000, 0, &mut buf);
    assert_eq!(buf, b"2000-02-29T12:00:00.000000000Z");
    buf.clear();
    // 2024-12-31T23:59:59.5Z.
    format_iso8601(1_735_689_599_500_000_000, 0, &mut buf);
    assert_eq!(buf, b"2024-12-31T23:59:59.500000000Z");
}

#[test]
fn ticks_scale_around_the_calibration_point() {
    let c = Calibration { ns_num: 1, ns_den: 3, counter_base: 300, wall_base_ns: 1_000 };
    assert_eq!(ticks_to_ns(300, &c), 1_000);
    assert_eq!(ticks_to_ns(600, &c), 1_100);
    assert_eq!(ticks_to_ns(0, &c), 900);
    let far = Calibration { ns_num: 1, ns_den: 1, counter_base: u64::MAX, wall_base_ns: 5 };
    assert_eq!(ticks_to_ns(0, &far), 0);
    let degenerate = Calibration { ns_num: 1, ns_den: 0, counter_base: 0, wall_base_ns: 77 };
    assert_eq!(ticks_to_ns(123, &degenerate), 77);
}

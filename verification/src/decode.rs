//! Decoding records back into log lines.
//!
//! A record's argument section holds one type tag per argument, then the
//! payloads in the same order. Fixed-size values are little-endian; a
//! string is a `u16` length prefix followed by its bytes. Floating-point
//! arguments are not rendered here: the line gets a [`FloatHole`] at the
//! place where the value belongs, and whoever owns the line fills it.
use vstd::prelude::*;
use vstd::utf8::valid_utf8;
use vstd::string::StringSliceAdditionalSpecFns;
use crate::cursor::{Cursor, cur_u8, cur_u16, cur_u32, cur_u64, cur_skip, cur_bytes, cur_len_prefixed};
use crate::format::{
    FormatSpec, Field, Segment, SegmentView, Template, spec_int, spec_signed, spec_str, bool_text, twos,
    format_u64, format_i64, format_u32, format_i32, format_u16, format_i16, format_u8, format_i8,
    format_bool, format_str, push_bytes, spec_parse_spec, parse_spec, find_byte, find,
};
use crate::level::Level;
use crate::record::{Site, FLAG_SITE, FLAG_SOURCE, FLAG_THREAD, FLAG_PROCESS, FLAG_COMPLEX};
use crate::text::{utf8_lossy, lossy, is_utf8};
use crate::timestamp::{Calibration, spec_ticks_to_ns, ticks_to_ns, spec_iso8601, format_iso8601};
use crate::wire::{from_le16, from_le32, from_le64};

verus! {

pub const TAG_U64: u8 = 0x00;
pub const TAG_I64: u8 = 0x01;
pub const TAG_F64: u8 = 0x02;
pub const TAG_U32: u8 = 0x03;
pub const TAG_I32: u8 = 0x04;
pub const TAG_F32: u8 = 0x05;
pub const TAG_U16: u8 = 0x06;
pub const TAG_I16: u8 = 0x07;
pub const TAG_U8: u8 = 0x08;
pub const TAG_I8: u8 = 0x09;
pub const TAG_BOOL: u8 = 0x0A;
pub const TAG_STR: u8 = 0x0B;
/// Number of known tags.
pub const TAG_COUNT: usize = 12;

/// Payload size of a fixed-size tag; `0` for the string tag and unknown
/// tags.
pub open spec fn fixed_size(tag: u8) -> int {
    if tag <= 2 {
        8
    } else if tag <= 5 {
        4
    } else if tag <= 7 {
        2
    } else if tag <= 10 {
        1
    } else {
        0
    }
}

/// The payload size of a fixed-size tag.
pub fn fixed_size_of(tag: u8) -> (n: usize)
    ensures
        n == fixed_size(tag),
{
    if tag <= 2 {
        8
    } else if tag <= 5 {
        4
    } else if tag <= 7 {
        2
    } else if tag <= 10 {
        1
    } else {
        0
    }
}

/// A floating-point argument left for the line's owner to render: the byte
/// offset in the line where its text belongs, its bits, whether it is an
/// `f64` (else an `f32`, in the low 32 bits), and its spec.
#[derive(Clone, Copy, Debug, PartialEq, Eq, Structural)]
pub struct FloatHole {
    pub at: usize,
    pub bits: u64,
    pub wide: bool,
    pub spec: FormatSpec,
}

/// The signed value of `bits` read as a two's-complement number modulo `m`.
pub open spec fn signed_of(bits: nat, m: int) -> int {
    if bits >= m / 2 { bits - m } else { bits as int }
}

/// The text of a fixed-size, non-float argument with payload `p`.
pub open spec fn fixed_text(tag: u8, spec: FormatSpec, p: Seq<u8>) -> Seq<u8> {
    if tag == TAG_U64 {
        spec_int(spec, false, from_le64(p) as nat)
    } else if tag == TAG_I64 {
        spec_signed(spec, signed_of(from_le64(p) as nat, 0x1_0000_0000_0000_0000), from_le64(p) as nat)
    } else if tag == TAG_U32 {
        spec_int(spec, false, from_le32(p) as nat)
    } else if tag == TAG_I32 {
        spec_signed(spec, signed_of(from_le32(p) as nat, 0x1_0000_0000), from_le32(p) as nat)
    } else if tag == TAG_U16 {
        spec_int(spec, false, from_le16(p) as nat)
    } else if tag == TAG_I16 {
        spec_signed(spec, signed_of(from_le16(p) as nat, 0x10000), from_le16(p) as nat)
    } else if tag == TAG_U8 {
        spec_int(spec, false, p[0] as nat)
    } else if tag == TAG_I8 {
        spec_signed(spec, signed_of(p[0] as nat, 0x100), p[0] as nat)
    } else {
        spec_str(spec, bool_text(p[0] != 0))
    }
}

proof fn lemma_twos_signed(bits: nat, m: int)
    requires
        m >= 2,
        m % 2 == 0,
        bits < m,
    ensures
        twos(signed_of(bits, m), m) == bits,
{
}

/// Formats an 8-byte `u64` payload.
pub fn fmt_u64(data: &[u8], spec: &FormatSpec, buf: &mut Vec<u8>)
    requires
        data@.len() == 8,
    ensures
        final(buf)@ == old(buf)@ + fixed_text(TAG_U64, *spec, data@),
{
    let mut c = Cursor::new(data);
    let v = c.read_u64();
    proof {
        assert(data@.subrange(0, 8) =~= data@);
    }
    format_u64(v, spec, buf);
}

/// Formats an 8-byte `i64` payload.
pub fn fmt_i64(data: &[u8], spec: &FormatSpec, buf: &mut Vec<u8>)
    requires
        data@.len() == 8,
    ensures
        final(buf)@ == old(buf)@ + fixed_text(TAG_I64, *spec, data@),
{
    let mut c = Cursor::new(data);
    let b = c.read_u64();
    proof {
        assert(data@.subrange(0, 8) =~= data@);
        lemma_twos_signed(b as nat, 0x1_0000_0000_0000_0000);
    }
    let v: i64 = if b < 0x8000_0000_0000_0000 {
        b as i64
    } else {
        ((b as i128) - 0x1_0000_0000_0000_0000i128) as i64
    };
    format_i64(v, spec, buf);
}

/// Formats a 4-byte `u32` payload.
pub fn fmt_u32(data: &[u8], spec: &FormatSpec, buf: &mut Vec<u8>)
    requires
        data@.len() == 4,
    ensures
        final(buf)@ == old(buf)@ + fixed_text(TAG_U32, *spec, data@),
{
    let mut c = Cursor::new(data);
    let v = c.read_u32();
    proof {
        assert(data@.subrange(0, 4) =~= data@);
    }
    format_u32(v, spec, buf);
}

/// Formats a 4-byte `i32` payload.
pub fn fmt_i32(data: &[u8], spec: &FormatSpec, buf: &mut Vec<u8>)
    requires
        data@.len() == 4,
    ensures
        final(buf)@ == old(buf)@ + fixed_text(TAG_I32, *spec, data@),
{
    let mut c = Cursor::new(data);
    let b = c.read_u32();
    proof {
        assert(data@.subrange(0, 4) =~= data@);
        lemma_twos_signed(b as nat, 0x1_0000_0000);
    }
    let v: i32 = if b < 0x8000_0000 {
        b as i32
    } else {
        ((b as i64) - 0x1_0000_0000i64) as i32
    };
    format_i32(v, spec, buf);
}

/// Formats a 2-byte `u16` payload.
pub fn fmt_u16(data: &[u8], spec: &FormatSpec, buf: &mut Vec<u8>)
    requires
        data@.len() == 2,
    ensures
        final(buf)@ == old(buf)@ + fixed_text(TAG_U16, *spec, data@),
{
    let mut c = Cursor::new(data);
    let v = c.read_u16();
    proof {
        assert(data@.subrange(0, 2) =~= data@);
    }
    format_u16(v, spec, buf);
}

/// Formats a 2-byte `i16` payload.
pub fn fmt_i16(data: &[u8], spec: &FormatSpec, buf: &mut Vec<u8>)
    requires
        data@.len() == 2,
    ensures
        final(buf)@ == old(buf)@ + fixed_text(TAG_I16, *spec, data@),
{
    let mut c = Cursor::new(data);
    let b = c.read_u16();
    proof {
        assert(data@.subrange(0, 2) =~= data@);
        lemma_twos_signed(b as nat, 0x10000);
    }
    let v: i16 = if b < 0x8000 {
        b as i16
    } else {
        ((b as i32) - 0x10000i32) as i16
    };
    format_i16(v, spec, buf);
}

/// Formats a 1-byte `u8` payload.
pub fn fmt_u8(data: &[u8], spec: &FormatSpec, buf: &mut Vec<u8>)
    requires
        data@.len() == 1,
    ensures
        final(buf)@ == old(buf)@ + fixed_text(TAG_U8, *spec, data@),
{
    format_u8(data[0], spec, buf);
}

/// Formats a 1-byte `i8` payload.
pub fn fmt_i8(data: &[u8], spec: &FormatSpec, buf: &mut Vec<u8>)
    requires
        data@.len() == 1,
    ensures
        final(buf)@ == old(buf)@ + fixed_text(TAG_I8, *spec, data@),
{
    let b = data[0];
    proof {
        lemma_twos_signed(b as nat, 0x100);
    }
    let v: i8 = if b < 0x80 {
        b as i8
    } else {
        ((b as i16) - 0x100i16) as i8
    };
    format_i8(v, spec, buf);
}

/// Formats a 1-byte `bool` payload (any non-zero byte is `true`).
pub fn fmt_bool(data: &[u8], spec: &FormatSpec, buf: &mut Vec<u8>)
    requires
        data@.len() == 1,
    ensures
        final(buf)@ == old(buf)@ + fixed_text(TAG_BOOL, *spec, data@),
{
    format_bool(data[0] != 0, spec, buf);
}

/// Formats a string payload; bytes that are not UTF-8 are replaced as
/// `String::from_utf8_lossy` replaces them.
pub fn fmt_str(data: &[u8], spec: &FormatSpec, buf: &mut Vec<u8>)
    ensures
        final(buf)@ == old(buf)@ + spec_str(*spec, utf8_lossy(data@)),
{
    let s = lossy(data);
    format_str(s.as_slice(), spec, buf);
}

/// The placeholder written for an argument whose tag is unknown:
/// `<unknown tag 0xNN>` with the tag in upper-case hex.
pub open spec fn unknown_tag_text(tag: u8) -> Seq<u8> {
    seq![60u8, 117, 110, 107, 110, 111, 119, 110, 32, 116, 97, 103, 32, 48, 120]
        + seq![hex_digit(tag / 16), hex_digit(tag % 16), 62u8]
}

pub open spec fn hex_digit(d: u8) -> u8 {
    if d < 10 { (48 + d) as u8 } else { (55 + d) as u8 }
}

/// Appends `<unknown tag 0xNN>`.
pub fn write_unknown_tag(tag: u8, buf: &mut Vec<u8>)
    ensures
        final(buf)@ == old(buf)@ + unknown_tag_text(tag),
{
    let head: Vec<u8> = vec![60u8, 117, 110, 107, 110, 111, 119, 110, 32, 116, 97, 103, 32, 48, 120];
    push_bytes(buf, head.as_slice());
    let hi = tag / 16;
    let lo = tag % 16;
    buf.push(if hi < 10 { 48 + hi } else { 55 + hi });
    buf.push(if lo < 10 { 48 + lo } else { 55 + lo });
    buf.push(62u8);
    proof {
        assert(buf@ =~= old(buf)@ + unknown_tag_text(tag));
    }
}

/// What formatting one argument does to the line and its holes, and where
/// it leaves the reader, or `None` for an unknown tag or a fixed-size
/// payload cut short by the end of the record (the reader's position is
/// then lost, and the reader is left where it was).
pub open spec fn spec_format_arg(
    tag: u8,
    spec: FormatSpec,
    d: Seq<u8>,
    p: int,
    out: Seq<u8>,
    holes: Seq<FloatHole>,
) -> Option<(Seq<u8>, Seq<FloatHole>, int)> {
    if tag == TAG_STR {
        let (b, _len, q) = cur_len_prefixed(d, p);
        Some((out + spec_str(spec, utf8_lossy(b)), holes, q))
    } else if tag < TAG_STR {
        let (payload, q) = cur_bytes(d, p, fixed_size(tag));
        if payload.len() < fixed_size(tag) {
            None
        } else if tag == TAG_F64 {
            Some((out, holes.push(FloatHole { at: out.len() as usize, bits: from_le64(payload), wide: true, spec }), q))
        } else if tag == TAG_F32 {
            Some((out, holes.push(FloatHole { at: out.len() as usize, bits: from_le32(payload) as u64, wide: false, spec }), q))
        } else {
            Some((out + fixed_text(tag, spec, payload), holes, q))
        }
    } else {
        None
    }
}

/// Reads and formats one argument of type `tag` from the cursor. Returns
/// `false` for an unknown tag or a cut-short payload, leaving the cursor
/// where it was.
pub fn format_arg(tag: u8, spec: &FormatSpec, c: &mut Cursor, buf: &mut Vec<u8>, holes: &mut Vec<FloatHole>) -> (ok: bool)
    requires
        old(c).wf(),
    ensures
        final(c).wf(),
        final(c).spec_data() == old(c).spec_data(),
        match spec_format_arg(tag, *spec, old(c).spec_data(), old(c).spec_pos(), old(buf)@, old(holes)@) {
            Some((o, h, q)) => ok && final(buf)@ == o && final(holes)@ == h && final(c).spec_pos() == q,
            None => !ok && final(buf)@ == old(buf)@ && final(holes)@ == old(holes)@ && final(c).spec_pos()
                == old(c).spec_pos(),
        },
{
    if tag == TAG_STR {
        let (data, _len) = c.read_len_prefixed();
        fmt_str(data, spec, buf);
        return true;
    }
    if tag >= TAG_STR {
        return false;
    }
    let size = fixed_size_of(tag);
    if c.remaining() < size {
        return false;
    }
    let data = c.read_bytes(size);
    if tag == TAG_F64 {
        let mut r = Cursor::new(data);
        let bits = r.read_u64();
        proof {
            assert(data@.subrange(0, 8) =~= data@);
        }
        holes.push(FloatHole { at: buf.len(), bits, wide: true, spec: *spec });
    } else if tag == TAG_F32 {
        let mut r = Cursor::new(data);
        let bits = r.read_u32();
        proof {
            assert(data@.subrange(0, 4) =~= data@);
        }
        holes.push(FloatHole { at: buf.len(), bits: bits as u64, wide: false, spec: *spec });
    } else if tag == TAG_U64 {
        fmt_u64(data, spec, buf);
    } else if tag == TAG_I64 {
        fmt_i64(data, spec, buf);
    } else if tag == TAG_U32 {
        fmt_u32(data, spec, buf);
    } else if tag == TAG_I32 {
        fmt_i32(data, spec, buf);
    } else if tag == TAG_U16 {
        fmt_u16(data, spec, buf);
    } else if tag == TAG_I16 {
        fmt_i16(data, spec, buf);
    } else if tag == TAG_U8 {
        fmt_u8(data, spec, buf);
    } else if tag == TAG_I8 {
        fmt_i8(data, spec, buf);
    } else {
        fmt_bool(data, spec, buf);
    }
    true
}

/// `<missing arg>`
pub open spec fn missing_arg_text() -> Seq<u8> {
    seq![60u8, 109, 105, 115, 115, 105, 110, 103, 32, 97, 114, 103, 62]
}

/// The message of format string `fmt` from byte `i` on, with the `k`-th of
/// the argument `tags` next, arguments read from `d` at `p`, appended to
/// `out` and `holes`; `ok` turns false once an argument could not be read,
/// after which the remaining arguments are only reported by tag. Returns the
/// line, the holes and the reader's final position.
///
/// `{{` and `}}` stand for literal braces; `{...}` takes the next argument
/// (formatted under the spec inside the braces) or writes `<missing arg>`
/// when the tags have run out; an unreadable argument writes
/// `<unknown tag 0xNN>`.
pub open spec fn interleave_from(
    fmt: Seq<u8>,
    tags: Seq<u8>,
    d: Seq<u8>,
    i: int,
    k: int,
    ok: bool,
    p: int,
    out: Seq<u8>,
    holes: Seq<FloatHole>,
) -> (Seq<u8>, Seq<FloatHole>, int)
    decreases fmt.len() - i,
{
    if i >= fmt.len() || i < 0 {
        (out, holes, p)
    } else if fmt[i] == 123 {
        if i + 1 < fmt.len() && fmt[i + 1] == 123 {
            interleave_from(fmt, tags, d, i + 2, k, ok, p, out.push(123), holes)
        } else {
            let j = find_byte(fmt, 125, i + 1);
            let spec = spec_parse_spec(fmt.subrange(i + 1, j));
            let ni = if j < fmt.len() { j + 1 } else { j };
            proof {
                crate::format::lemma_find_byte_bounds(fmt, 125, i + 1);
            }
            if 0 <= k < tags.len() {
                let tag = tags[k];
                if ok {
                    match spec_format_arg(tag, spec, d, p, out, holes) {
                        Some((o, h, q)) => interleave_from(fmt, tags, d, ni, k + 1, true, q, o, h),
                        None => interleave_from(fmt, tags, d, ni, k + 1, false, p, out + unknown_tag_text(tag), holes),
                    }
                } else {
                    interleave_from(fmt, tags, d, ni, k + 1, false, p, out + unknown_tag_text(tag), holes)
                }
            } else {
                interleave_from(fmt, tags, d, ni, k + 1, ok, p, out + missing_arg_text(), holes)
            }
        }
    } else if fmt[i] == 125 {
        let ni = if i + 1 < fmt.len() { i + 2 } else { fmt.len() as int };
        interleave_from(fmt, tags, d, ni, k, ok, p, out.push(125), holes)
    } else {
        interleave_from(fmt, tags, d, i + 1, k, ok, p, out.push(fmt[i]), holes)
    }
}

/// No byte of `s` is a brace.
pub open spec fn brace_free(s: Seq<u8>) -> bool {
    forall|m: int| 0 <= m < s.len() ==> s[m] != 123 && s[m] != 125
}

proof fn lemma_find_close(s: Seq<u8>, i: int, e: int)
    requires
        0 <= i <= e < s.len(),
        s[e] == 125,
        forall|m: int| i <= m < e ==> s[m] != 125,
    ensures
        find_byte(s, 125, i) == e,
    decreases e - i,
{
    if i < e {
        lemma_find_close(s, i + 1, e);
    }
}

proof fn lemma_literal_run(
    fmt: Seq<u8>,
    tags: Seq<u8>,
    d: Seq<u8>,
    i: int,
    e: int,
    k: int,
    ok: bool,
    p: int,
    out: Seq<u8>,
    holes: Seq<FloatHole>,
)
    requires
        0 <= i <= e <= fmt.len(),
        forall|m: int| i <= m < e ==> fmt[m] != 123 && fmt[m] != 125,
    ensures
        interleave_from(fmt, tags, d, i, k, ok, p, out, holes) == interleave_from(
            fmt,
            tags,
            d,
            e,
            k,
            ok,
            p,
            out + fmt.subrange(i, e),
            holes,
        ),
    decreases e - i,
{
    if i < e {
        lemma_literal_run(fmt, tags, d, i + 1, e, k, ok, p, out.push(fmt[i]), holes);
        assert(out.push(fmt[i]) + fmt.subrange(i + 1, e) =~= out + fmt.subrange(i, e));
    } else {
        assert(out + fmt.subrange(i, e) =~= out);
    }
}

/// A placeholder formats its argument under its own spec: for a format
/// string `pre{S}post` (no other braces) with one readable argument, the
/// message is `pre`, then the argument formatted under the spec parsed
/// from the placeholder's text `S`, then `post`; the reader ends just past
/// the argument.
pub proof fn law_placeholder_spec_formats_its_argument(
    pre: Seq<u8>,
    inner: Seq<u8>,
    post: Seq<u8>,
    tag: u8,
    d: Seq<u8>,
    p: int,
    out: Seq<u8>,
    holes: Seq<FloatHole>,
)
    requires
        brace_free(pre),
        brace_free(inner),
        brace_free(post),
        spec_format_arg(tag, spec_parse_spec(inner), d, p, out + pre, holes) is Some,
    ensures
        ({
            let fmt = pre + seq![123u8] + inner + seq![125u8] + post;
            let (o, h, q) = spec_format_arg(tag, spec_parse_spec(inner), d, p, out + pre, holes)->0;
            interleave_from(fmt, seq![tag], d, 0, 0, true, p, out, holes) == (o + post, h, q)
        }),
{
    let fmt = pre + seq![123u8] + inner + seq![125u8] + post;
    let tags = seq![tag];
    let i = pre.len() as int;
    let j = i + 1 + inner.len();
    assert(fmt.subrange(0, i) =~= pre);
    lemma_literal_run(fmt, tags, d, 0, i, 0, true, p, out, holes);
    assert(fmt[i] == 123);
    assert(fmt[j] == 125);
    if i + 1 < fmt.len() {
        assert(fmt[i + 1] != 123);
    }
    lemma_find_close(fmt, i + 1, j);
    assert(fmt.subrange(i + 1, j) =~= inner);
    let (o, h, q) = spec_format_arg(tag, spec_parse_spec(inner), d, p, out + pre, holes)->0;
    lemma_literal_run(fmt, tags, d, j + 1, fmt.len() as int, 1, true, q, o, h);
    assert(fmt.subrange(j + 1, fmt.len() as int) =~= post);
}

/// Writes the message: walks the format string, substituting each `{...}`
/// placeholder with the next argument read from the cursor (see
/// [`interleave_from`]).
pub fn interleave(fmt: &[u8], tags: &[u8], c: &mut Cursor, buf: &mut Vec<u8>, holes: &mut Vec<FloatHole>)
    requires
        old(c).wf(),
    ensures
        final(c).wf(),
        final(c).spec_data() == old(c).spec_data(),
        (final(buf)@, final(holes)@, final(c).spec_pos()) == interleave_from(
            fmt@,
            tags@,
            old(c).spec_data(),
            0,
            0,
            true,
            old(c).spec_pos(),
            old(buf)@,
            old(holes)@,
        ),
{
    let n = fmt.len();
    let ghost d = c.spec_data();
    let ghost target = interleave_from(fmt@, tags@, d, 0, 0, true, c.spec_pos(), buf@, holes@);
    let mut i: usize = 0;
    let mut k: usize = 0;
    let mut ok = true;
    let missing: Vec<u8> = vec![60u8, 109, 105, 115, 115, 105, 110, 103, 32, 97, 114, 103, 62];
    proof {
        assert(missing@ =~= missing_arg_text());
    }
    while i < n
        invariant
            n == fmt@.len(),
            i <= n,
            k <= i,
            c.wf(),
            c.spec_data() == d,
            missing@ == missing_arg_text(),
            target == interleave_from(fmt@, tags@, d, i as int, k as int, ok, c.spec_pos(), buf@, holes@),
        decreases n - i,
    {
        let b = fmt[i];
        if b == 123 {
            if i + 1 < n && fmt[i + 1] == 123 {
                buf.push(123u8);
                i = i + 2;
            } else {
                let j = find(fmt, 125, i + 1);
                let spec = parse_spec(&fmt[i + 1..j]);
                let ni = if j < n { j + 1 } else { j };
                if k < tags.len() {
                    let tag = tags[k];
                    if ok {
                        if !format_arg(tag, &spec, c, buf, holes) {
                            ok = false;
                            write_unknown_tag(tag, buf);
                        }
                    } else {
                        write_unknown_tag(tag, buf);
                    }
                } else {
                    push_bytes(buf, missing.as_slice());
                }
                k = k + 1;
                i = ni;
            }
        } else if b == 125 {
            buf.push(125u8);
            i = if i + 1 < n { i + 2 } else { n };
        } else {
            buf.push(b);
            i = i + 1;
        }
    }
}

/// What a line pattern renders from one record.
pub struct LineCtx {
    pub ns: u64,
    pub timezone_offset: i32,
    pub level: Level,
    pub fmt: Seq<u8>,
    pub file_line: Option<(Seq<u8>, u32)>,
    pub thread_id: u64,
    pub thread_name: Option<Seq<u8>>,
    pub tags: Seq<u8>,
}

/// `ThreadId(`
pub open spec fn thread_id_open() -> Seq<u8> {
    seq![84u8, 104, 114, 101, 97, 100, 73, 100, 40]
}

/// What one pattern segment appends, reading message arguments from `d`
/// at `p`.
pub open spec fn render_seg(
    seg: SegmentView,
    ctx: LineCtx,
    d: Seq<u8>,
    p: int,
    out: Seq<u8>,
    holes: Seq<FloatHole>,
) -> (Seq<u8>, Seq<FloatHole>, int) {
    match seg {
        SegmentView::Lit(b) => (out + b, holes, p),
        SegmentView::Place(f, spec) => match f {
            Field::Timestamp => (out + spec_iso8601(ctx.ns, ctx.timezone_offset as int), holes, p),
            Field::Level => (out + spec_str(spec, ctx.level.spec_name()), holes, p),
            Field::File => match ctx.file_line {
                Some((file, _)) => (out + spec_str(spec, file), holes, p),
                None => (out, holes, p),
            },
            Field::Line => match ctx.file_line {
                Some((_, line)) => (out + spec_int(spec, false, line as nat), holes, p),
                None => (out, holes, p),
            },
            Field::ThreadName => match ctx.thread_name {
                Some(name) => (out + spec_str(spec, name), holes, p),
                None => (out, holes, p),
            },
            Field::ThreadId => (out + thread_id_open() + spec_int(spec, false, ctx.thread_id as nat) + seq![41u8], holes, p),
            Field::Message => interleave_from(ctx.fmt, ctx.tags, d, 0, 0, true, p, out, holes),
        },
    }
}

/// The line the segments `segs[idx..]` append.
pub open spec fn render_from(
    segs: Seq<SegmentView>,
    idx: int,
    ctx: LineCtx,
    d: Seq<u8>,
    p: int,
    out: Seq<u8>,
    holes: Seq<FloatHole>,
) -> (Seq<u8>, Seq<FloatHole>, int)
    decreases segs.len() - idx,
{
    if idx >= segs.len() || idx < 0 {
        (out, holes, p)
    } else {
        let (o, h, q) = render_seg(segs[idx], ctx, d, p, out, holes);
        render_from(segs, idx + 1, ctx, d, q, o, h)
    }
}

/// Each field of the line pattern is formatted under its own placeholder's
/// spec, the way the value formatters do it: for a pattern
/// `a{field:S}b`, the line is `a`, then the level name, file or thread name
/// formatted as a string under `S` (as `format_str` does), or the line or
/// thread id formatted as a number under `S` (as `format_u64` does), then
/// `b`; the reader does not move.
pub proof fn law_fields_use_their_placeholder_spec(
    a: Seq<u8>,
    b: Seq<u8>,
    field: Field,
    spec: FormatSpec,
    ctx: LineCtx,
    d: Seq<u8>,
    p: int,
    out: Seq<u8>,
    holes: Seq<FloatHole>,
)
    requires
        field != Field::Message,
        field != Field::Timestamp,
        ctx.file_line is Some,
        ctx.thread_name is Some,
    ensures
        ({
            let segs = seq![SegmentView::Lit(a), SegmentView::Place(field, spec), SegmentView::Lit(b)];
            let text = match field {
                Field::Level => spec_str(spec, ctx.level.spec_name()),
                Field::File => spec_str(spec, ctx.file_line.unwrap().0),
                Field::Line => spec_int(spec, false, ctx.file_line.unwrap().1 as nat),
                Field::ThreadName => spec_str(spec, ctx.thread_name->0),
                _ => thread_id_open() + spec_int(spec, false, ctx.thread_id as nat) + seq![41u8],
            };
            render_from(segs, 0, ctx, d, p, out, holes) == (out + a + text + b, holes, p)
        }),
{
    let segs = seq![SegmentView::Lit(a), SegmentView::Place(field, spec), SegmentView::Lit(b)];
    reveal_with_fuel(render_from, 4);
    let text = match field {
        Field::Level => spec_str(spec, ctx.level.spec_name()),
        Field::File => spec_str(spec, ctx.file_line.unwrap().0),
        Field::Line => spec_int(spec, false, ctx.file_line.unwrap().1 as nat),
        Field::ThreadName => spec_str(spec, ctx.thread_name->0),
        _ => thread_id_open() + spec_int(spec, false, ctx.thread_id as nat) + seq![41u8],
    };
    assert(out + a + text + b =~= out + a + text + b);
}

/// The parts of a record a line is rendered from, gathered for the
/// renderer.
pub struct LineParts<'a> {
    pub ns: u64,
    pub timezone_offset: i32,
    pub level: Level,
    pub fmt: &'a [u8],
    pub file_line: Option<(&'a [u8], u32)>,
    pub thread_id: u64,
    pub thread_name: Option<&'a [u8]>,
    pub tags: &'a [u8],
}

impl<'a> LineParts<'a> {
    pub open spec fn ctx(&self) -> LineCtx {
        LineCtx {
            ns: self.ns,
            timezone_offset: self.timezone_offset,
            level: self.level,
            fmt: self.fmt@,
            file_line: match self.file_line {
                Some((f, l)) => Some((f@, l)),
                None => None,
            },
            thread_id: self.thread_id,
            thread_name: match self.thread_name {
                Some(n) => Some(n@),
                None => None,
            },
            tags: self.tags@,
        }
    }
}

fn render_segment(seg: &Segment, parts: &LineParts, c: &mut Cursor, buf: &mut Vec<u8>, holes: &mut Vec<FloatHole>)
    requires
        old(c).wf(),
    ensures
        final(c).wf(),
        final(c).spec_data() == old(c).spec_data(),
        (final(buf)@, final(holes)@, final(c).spec_pos()) == render_seg(
            seg@,
            parts.ctx(),
            old(c).spec_data(),
            old(c).spec_pos(),
            old(buf)@,
            old(holes)@,
        ),
{
    match seg {
        Segment::Lit(s) => push_bytes(buf, s.as_slice()),
        Segment::Place { field, spec } => match field {
            Field::Timestamp => format_iso8601(parts.ns, parts.timezone_offset, buf),
            Field::Level => {
                let name = parts.level.name();
                format_str(name.as_slice(), spec, buf);
            },
            Field::File => {
                if let Some((file, _)) = parts.file_line {
                    format_str(file, spec, buf);
                }
            },
            Field::Line => {
                if let Some((_, line)) = parts.file_line {
                    format_u32(line, spec, buf);
                }
            },
            Field::ThreadName => {
                if let Some(name) = parts.thread_name {
                    format_str(name, spec, buf);
                }
            },
            Field::ThreadId => {
                let open: Vec<u8> = vec![84u8, 104, 114, 101, 97, 100, 73, 100, 40];
                proof {
                    assert(open@ =~= thread_id_open());
                }
                push_bytes(buf, open.as_slice());
                format_u64(parts.thread_id, spec, buf);
                buf.push(41u8);
                proof {
                    assert(buf@ =~= old(buf)@ + thread_id_open() + spec_int(*spec, false, parts.thread_id as nat) + seq![41u8]);
                }
            },
            Field::Message => interleave(parts.fmt, parts.tags, c, buf, holes),
        },
    }
}

/// Renders one log line by walking the pattern and rendering each segment
/// (see [`render_seg`]); message arguments are read from the cursor.
pub fn render_pattern(template: &Template, parts: &LineParts, c: &mut Cursor, buf: &mut Vec<u8>, holes: &mut Vec<FloatHole>)
    requires
        old(c).wf(),
    ensures
        final(c).wf(),
        final(c).spec_data() == old(c).spec_data(),
        (final(buf)@, final(holes)@, final(c).spec_pos()) == render_from(
            template@,
            0,
            parts.ctx(),
            old(c).spec_data(),
            old(c).spec_pos(),
            old(buf)@,
            old(holes)@,
        ),
{
    let ghost d = c.spec_data();
    let ghost target = render_from(template@, 0, parts.ctx(), d, c.spec_pos(), buf@, holes@);
    let mut idx: usize = 0;
    while idx < template.segments.len()
        invariant
            idx <= template.segments@.len(),
            c.wf(),
            c.spec_data() == d,
            target == render_from(template@, idx as int, parts.ctx(), d, c.spec_pos(), buf@, holes@),
        decreases template.segments@.len() - idx,
    {
        render_segment(&template.segments[idx], parts, c, buf, holes);
        idx = idx + 1;
    }
}

/// `<file>`, shown for a legacy source section whose file cannot be
/// resolved or is not UTF-8.
pub open spec fn unknown_file_text() -> Seq<u8> {
    seq![60u8, 102, 105, 108, 101, 62]
}

/// The file a legacy source section names: the first `len` bytes of file
/// `key` of the table.
pub open spec fn source_file(files: Seq<&str>, key: u64, len: u16) -> Seq<u8> {
    if key < files.len() {
        let fb = files[key as int].spec_bytes();
        let b = fb.subrange(0, if len <= fb.len() { len as int } else { fb.len() as int });
        if valid_utf8(b) { b } else { unknown_file_text() }
    } else {
        unknown_file_text()
    }
}

/// The header fields a line needs: level byte, flags, timestamp, and the
/// position after the header.
pub open spec fn spec_header_fields(d: Seq<u8>) -> (u8, u16, u64, int) {
    let p1 = cur_skip(d, 0, 4);
    let (lb, p2) = cur_u8(d, p1);
    let (flags, p3) = cur_u16(d, p2);
    let p4 = cur_skip(d, p3, 1);
    let (ts, p5) = cur_u64(d, p4);
    (lb, flags, ts, p5)
}

/// The site section: the format string and file/line of the call site the
/// key resolves to in `sites` (none when the section is absent or the key
/// resolves to nothing), and the position after it.
pub open spec fn spec_site_section(d: Seq<u8>, p: int, flags: u16, sites: Seq<Site>) -> (Seq<u8>, Option<(Seq<u8>, u32)>, int) {
    if flags & FLAG_SITE != 0 {
        let (key, q) = cur_u64(d, p);
        if key < sites.len() {
            let site = sites[key as int];
            (site.fmt.spec_bytes(), Some((site.file.spec_bytes(), site.line)), q)
        } else {
            (Seq::empty(), None, q)
        }
    } else {
        (Seq::empty(), None, p)
    }
}

/// The legacy source section: it overrides the file and line, and the
/// position after it.
pub open spec fn spec_source_section(d: Seq<u8>, p: int, flags: u16, files: Seq<&str>, fl: Option<(Seq<u8>, u32)>) -> (Option<(Seq<u8>, u32)>, int) {
    if flags & FLAG_SOURCE != 0 {
        let (key, q1) = cur_u64(d, p);
        let (len, q2) = cur_u16(d, q1);
        let (line, q3) = cur_u32(d, q2);
        (Some((source_file(files, key, len), line)), q3)
    } else {
        (fl, p)
    }
}

/// The legacy thread section: it overrides the thread id, and the name
/// when the name is non-empty UTF-8; the position after it.
pub open spec fn spec_thread_section(d: Seq<u8>, p: int, flags: u16, tid: u64, name: Seq<u8>) -> (u64, Seq<u8>, int) {
    if flags & FLAG_THREAD != 0 {
        let (id, q1) = cur_u64(d, p);
        let (nb, nlen, q2) = cur_len_prefixed(d, q1);
        (id, if nlen > 0 && valid_utf8(nb) { nb } else { name }, q2)
    } else {
        (tid, name, p)
    }
}

/// The position after the process and complex-type sections.
pub open spec fn spec_skip_sections(d: Seq<u8>, p: int, flags: u16) -> int {
    let q = if flags & FLAG_PROCESS != 0 { cur_skip(d, p, 4) } else { p };
    if flags & FLAG_COMPLEX != 0 { cur_skip(d, q, 8) } else { q }
}

/// The level a level byte decodes to; an unknown byte reads as an error.
pub open spec fn level_or_error(b: u8) -> Level {
    match Level::spec_from_u8(b) {
        Some(l) => l,
        None => Level::Error,
    }
}

/// Everything a line is rendered from, and where the argument payloads
/// start.
pub open spec fn spec_line_ctx(
    record: Seq<u8>,
    timezone_offset: i32,
    cal: Calibration,
    ring_thread_id: u64,
    ring_thread_name: Seq<u8>,
    sites: Seq<Site>,
    files: Seq<&str>,
) -> (LineCtx, int) {
    let (lb, flags, ts, p1) = spec_header_fields(record);
    let (fmt, fl, p2) = spec_site_section(record, p1, flags, sites);
    let (fl2, p3) = spec_source_section(record, p2, flags, files, fl);
    let (tid, tname, p4) = spec_thread_section(record, p3, flags, ring_thread_id, ring_thread_name);
    let p5 = spec_skip_sections(record, p4, flags);
    let (n, p6) = cur_u8(record, p5);
    let (tags, p7) = cur_bytes(record, p6, n as int);
    (
        LineCtx {
            ns: spec_ticks_to_ns(ts, cal),
            timezone_offset,
            level: level_or_error(lb),
            fmt,
            file_line: fl2,
            thread_id: tid,
            thread_name: Some(tname),
            tags,
        },
        p7,
    )
}

/// The line decoded from `record` and its float holes, appended to `out`
/// and `holes`.
pub open spec fn spec_decode(
    record: Seq<u8>,
    timezone_offset: i32,
    cal: Calibration,
    template: Seq<SegmentView>,
    ring_thread_id: u64,
    ring_thread_name: Seq<u8>,
    sites: Seq<Site>,
    files: Seq<&str>,
    out: Seq<u8>,
    holes: Seq<FloatHole>,
) -> (Seq<u8>, Seq<FloatHole>) {
    let (ctx, p) = spec_line_ctx(record, timezone_offset, cal, ring_thread_id, ring_thread_name, sites, files);
    let (o, h, _q) = render_from(template, 0, ctx, record, p, out, holes);
    (o, h)
}

fn read_header(c: &mut Cursor) -> (r: (u8, u16, u64))
    requires
        old(c).wf(),
        old(c).spec_pos() == 0,
    ensures
        final(c).wf(),
        final(c).spec_data() == old(c).spec_data(),
        (r.0, r.1, r.2, final(c).spec_pos()) == spec_header_fields(old(c).spec_data()),
{
    c.skip(4);
    let lb = c.read_u8();
    let flags = c.read_u16();
    c.skip(1);
    let ts = c.read_u64();
    (lb, flags, ts)
}

fn read_site<'s>(c: &mut Cursor, flags: u16, sites: &'s [Site]) -> (r: (&'s [u8], Option<(&'s [u8], u32)>))
    requires
        old(c).wf(),
    ensures
        final(c).wf(),
        final(c).spec_data() == old(c).spec_data(),
        ({
            let (f, fl, q) = spec_site_section(old(c).spec_data(), old(c).spec_pos(), flags, sites@);
            &&& r.0@ == f
            &&& q == final(c).spec_pos()
            &&& match r.1 {
                Some((file, line)) => fl == Some((file@, line)),
                None => fl is None,
            }
        }),
{
    if flags & FLAG_SITE != 0 {
        let key = c.read_u64();
        if key < sites.len() as u64 {
            let site = &sites[key as usize];
            (site.fmt.as_bytes(), Some((site.file.as_bytes(), site.line)))
        } else {
            (&[], None)
        }
    } else {
        (&[], None)
    }
}

fn read_source<'a>(
    c: &mut Cursor<'a>,
    flags: u16,
    files: &'a [&'static str],
    unknown: &'a [u8],
    fl: Option<(&'a [u8], u32)>,
) -> (r: Option<(&'a [u8], u32)>)
    requires
        old(c).wf(),
        unknown@ == unknown_file_text(),
    ensures
        final(c).wf(),
        final(c).spec_data() == old(c).spec_data(),
        ({
            let fl_view = match fl {
                Some((f, l)) => Some((f@, l)),
                None => None,
            };
            let (fl2, q) = spec_source_section(old(c).spec_data(), old(c).spec_pos(), flags, files@, fl_view);
            &&& q == final(c).spec_pos()
            &&& match r {
                Some((f, l)) => fl2 == Some((f@, l)),
                None => fl2 is None,
            }
        }),
{
    if flags & FLAG_SOURCE != 0 {
        let key = c.read_u64();
        let len = c.read_u16();
        let line = c.read_u32();
        if key < files.len() as u64 {
            let fb = files[key as usize].as_bytes();
            let k: usize = if (len as usize) <= fb.len() { len as usize } else { fb.len() };
            let b = &fb[0..k];
            if is_utf8(b) {
                Some((b, line))
            } else {
                Some((unknown, line))
            }
        } else {
            Some((unknown, line))
        }
    } else {
        fl
    }
}

fn read_thread<'a>(c: &mut Cursor<'a>, flags: u16, tid: u64, name: &'a [u8]) -> (r: (u64, &'a [u8]))
    requires
        old(c).wf(),
    ensures
        final(c).wf(),
        final(c).spec_data() == old(c).spec_data(),
        (r.0, r.1@, final(c).spec_pos()) == spec_thread_section(old(c).spec_data(), old(c).spec_pos(), flags, tid, name@),
{
    if flags & FLAG_THREAD != 0 {
        let id = c.read_u64();
        let (nb, nlen) = c.read_len_prefixed();
        if nlen > 0 && is_utf8(nb) {
            (id, nb)
        } else {
            (id, name)
        }
    } else {
        (tid, name)
    }
}

fn skip_sections(c: &mut Cursor, flags: u16)
    requires
        old(c).wf(),
    ensures
        final(c).wf(),
        final(c).spec_data() == old(c).spec_data(),
        final(c).spec_pos() == spec_skip_sections(old(c).spec_data(), old(c).spec_pos(), flags),
{
    if flags & FLAG_PROCESS != 0 {
        c.skip(4);
    }
    if flags & FLAG_COMPLEX != 0 {
        c.skip(8);
    }
}

/// Decodes one record and appends its line to `buf`, and a hole to
/// `holes` for each floating-point argument (see [`spec_decode`]).
///
/// The site and legacy source sections carry keys: a site key is an index
/// into `sites`, a legacy file key an index into `files`. The ring's thread
/// identity is used unless a legacy thread section overrides it. The line
/// has no trailing newline.
pub fn decode_and_format<'a>(
    record: &'a [u8],
    timezone_offset: i32,
    calibration: &Calibration,
    line_pattern: &Template,
    ring_thread_id: u64,
    ring_thread_name: &'a [u8],
    sites: &'a [Site],
    files: &'a [&'static str],
    buf: &mut Vec<u8>,
    holes: &mut Vec<FloatHole>,
)
    ensures
        (final(buf)@, final(holes)@) == spec_decode(
            record@,
            timezone_offset,
            *calibration,
            line_pattern@,
            ring_thread_id,
            ring_thread_name@,
            sites@,
            files@,
            old(buf)@,
            old(holes)@,
        ),
{
    let unknown: Vec<u8> = vec![60u8, 102, 105, 108, 101, 62];
    proof {
        assert(unknown@ =~= unknown_file_text());
    }
    let mut c = Cursor::new(record);
    let (lb, flags, ts) = read_header(&mut c);
    let level = match Level::from_u8(lb) {
        Some(l) => l,
        None => Level::Error,
    };
    let ns = ticks_to_ns(ts, calibration);
    let (fmt, fl) = read_site(&mut c, flags, sites);
    let fl2 = read_source(&mut c, flags, files, unknown.as_slice(), fl);
    let (tid, tname) = read_thread(&mut c, flags, ring_thread_id, ring_thread_name);
    skip_sections(&mut c, flags);
    let n = c.read_u8();
    let tags = c.read_bytes(n as usize);
    let parts = LineParts {
        ns,
        timezone_offset,
        level,
        fmt,
        file_line: fl2,
        thread_id: tid,
        thread_name: Some(tname),
        tags,
    };
    proof {
        let (ctx, p) = spec_line_ctx(record@, timezone_offset, *calibration, ring_thread_id, ring_thread_name@, sites@, files@);
        assert(parts.ctx() == ctx);
        assert(c.spec_pos() == p);
    }
    render_pattern(line_pattern, &parts, &mut c, buf, holes);
}

} // verus!

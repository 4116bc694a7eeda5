//! Encoding log-call arguments into a record's argument section: one type
//! tag per argument, then the payloads in the same order.
use vstd::prelude::*;
use crate::decode::{
    TAG_U64, TAG_I64, TAG_F64, TAG_U32, TAG_I32, TAG_F32, TAG_U16, TAG_I16, TAG_U8, TAG_I8, TAG_BOOL, TAG_STR,
};
use crate::format::{push_bytes, twos, spec_int, spec_signed, spec_str, bool_text, FormatSpec};
use crate::decode::{spec_format_arg, FloatHole};
use crate::text::utf8_lossy;
use crate::wire::{le16, le32, le64, from_le16, from_le32, from_le64, push_le16, push_le32, push_le64, lemma_le16_roundtrip, lemma_le32_roundtrip, lemma_le64_roundtrip};

verus! {

/// One argument of a log call. Floating-point values travel as their bits.
#[derive(Clone, Debug)]
pub enum Arg {
    U64(u64),
    I64(i64),
    F64Bits(u64),
    U32(u32),
    I32(i32),
    F32Bits(u32),
    U16(u16),
    I16(i16),
    U8(u8),
    I8(i8),
    Bool(bool),
    Str(Vec<u8>),
}

/// The type tag of an argument.
pub open spec fn arg_tag(a: Arg) -> u8 {
    match a {
        Arg::U64(_) => TAG_U64,
        Arg::I64(_) => TAG_I64,
        Arg::F64Bits(_) => TAG_F64,
        Arg::U32(_) => TAG_U32,
        Arg::I32(_) => TAG_I32,
        Arg::F32Bits(_) => TAG_F32,
        Arg::U16(_) => TAG_U16,
        Arg::I16(_) => TAG_I16,
        Arg::U8(_) => TAG_U8,
        Arg::I8(_) => TAG_I8,
        Arg::Bool(_) => TAG_BOOL,
        Arg::Str(_) => TAG_STR,
    }
}

/// The payload of an argument: little-endian bits for fixed-size values
/// (two's complement for signed ones), one byte for a `bool`, and a `u16`
/// length prefix followed by the bytes for a string.
pub open spec fn arg_payload(a: Arg) -> Seq<u8> {
    match a {
        Arg::U64(v) => le64(v),
        Arg::I64(v) => le64(twos(v as int, 0x1_0000_0000_0000_0000) as u64),
        Arg::F64Bits(v) => le64(v),
        Arg::U32(v) => le32(v),
        Arg::I32(v) => le32(twos(v as int, 0x1_0000_0000) as u32),
        Arg::F32Bits(v) => le32(v),
        Arg::U16(v) => le16(v),
        Arg::I16(v) => le16(twos(v as int, 0x10000) as u16),
        Arg::U8(v) => seq![v],
        Arg::I8(v) => seq![twos(v as int, 0x100) as u8],
        Arg::Bool(v) => seq![if v { 1u8 } else { 0u8 }],
        Arg::Str(b) => le16(b@.len() as u16) + b@,
    }
}

/// The tags of `args`, in order.
pub open spec fn arg_tags(args: Seq<Arg>) -> Seq<u8> {
    args.map_values(|a: Arg| arg_tag(a))
}

/// The payloads of `args`, concatenated in order.
pub open spec fn arg_payloads(args: Seq<Arg>) -> Seq<u8>
    decreases args.len(),
{
    if args.len() == 0 {
        Seq::empty()
    } else {
        arg_payloads(args.drop_last()) + arg_payload(args.last())
    }
}

/// Whether every string argument fits its `u16` length prefix.
pub open spec fn args_encodable(args: Seq<Arg>) -> bool {
    forall|i: int| 0 <= i < args.len() ==> (#[trigger] args[i] matches Arg::Str(b) ==> b@.len() <= u16::MAX)
}

/// Appends the payload of one argument.
fn push_payload(buf: &mut Vec<u8>, a: &Arg)
    requires
        a matches Arg::Str(b) ==> b@.len() <= u16::MAX,
    ensures
        final(buf)@ == old(buf)@ + arg_payload(*a),
{
    match a {
        Arg::U64(v) => push_le64(buf, *v),
        Arg::I64(v) => {
            let bits: u64 = if *v < 0 { ((*v as i128) + 0x1_0000_0000_0000_0000i128) as u64 } else { *v as u64 };
            push_le64(buf, bits);
        },
        Arg::F64Bits(v) => push_le64(buf, *v),
        Arg::U32(v) => push_le32(buf, *v),
        Arg::I32(v) => {
            let bits: u32 = if *v < 0 { ((*v as i64) + 0x1_0000_0000i64) as u32 } else { *v as u32 };
            push_le32(buf, bits);
        },
        Arg::F32Bits(v) => push_le32(buf, *v),
        Arg::U16(v) => push_le16(buf, *v),
        Arg::I16(v) => {
            let bits: u16 = if *v < 0 { ((*v as i32) + 0x10000i32) as u16 } else { *v as u16 };
            push_le16(buf, bits);
        },
        Arg::U8(v) => buf.push(*v),
        Arg::I8(v) => {
            let bits: u8 = if *v < 0 { ((*v as i16) + 0x100i16) as u8 } else { *v as u8 };
            buf.push(bits);
        },
        Arg::Bool(v) => buf.push(if *v { 1u8 } else { 0u8 }),
        Arg::Str(b) => {
            push_le16(buf, b.len() as u16);
            push_bytes(buf, b.as_slice());
        },
    }
    proof {
        assert(buf@ =~= old(buf)@ + arg_payload(*a));
    }
}

/// Encodes the argument section after the count byte: the tags, then the
/// payloads. `None` when a string is too long for its length prefix.
pub fn encode_args(args: &[Arg]) -> (r: Option<Vec<u8>>)
    ensures
        r is Some <==> args_encodable(args@),
        r matches Some(v) ==> v@ == arg_tags(args@) + arg_payloads(args@),
{
    let mut out: Vec<u8> = Vec::new();
    let mut i: usize = 0;
    while i < args.len()
        invariant
            i <= args@.len(),
            out@ == arg_tags(args@.subrange(0, i as int)),
            forall|k: int| 0 <= k < i ==> (#[trigger] args@[k] matches Arg::Str(b) ==> b@.len() <= u16::MAX),
        decreases args@.len() - i,
    {
        let tag: u8 = match &args[i] {
            Arg::U64(_) => TAG_U64,
            Arg::I64(_) => TAG_I64,
            Arg::F64Bits(_) => TAG_F64,
            Arg::U32(_) => TAG_U32,
            Arg::I32(_) => TAG_I32,
            Arg::F32Bits(_) => TAG_F32,
            Arg::U16(_) => TAG_U16,
            Arg::I16(_) => TAG_I16,
            Arg::U8(_) => TAG_U8,
            Arg::I8(_) => TAG_I8,
            Arg::Bool(_) => TAG_BOOL,
            Arg::Str(b) => {
                if b.len() > 65535 {
                    proof {
                        assert(!(args@[i as int] matches Arg::Str(b) ==> b@.len() <= u16::MAX));
                    }
                    return None;
                }
                TAG_STR
            },
        };
        out.push(tag);
        proof {
            assert(args@.subrange(0, i + 1) =~= args@.subrange(0, i as int).push(args@[i as int]));
            assert(arg_tags(args@.subrange(0, i + 1)) =~= arg_tags(args@.subrange(0, i as int)).push(tag));
        }
        i = i + 1;
    }
    proof {
        assert(args@.subrange(0, args@.len() as int) =~= args@);
    }
    let ghost tags = out@;
    let mut j: usize = 0;
    while j < args.len()
        invariant
            j <= args@.len(),
            args_encodable(args@),
            out@ == tags + arg_payloads(args@.subrange(0, j as int)),
        decreases args@.len() - j,
    {
        proof {
            assert(args@[j as int] matches Arg::Str(b) ==> b@.len() <= u16::MAX);
        }
        push_payload(&mut out, &args[j]);
        proof {
            assert(args@.subrange(0, j + 1).drop_last() =~= args@.subrange(0, j as int));
            assert(out@ =~= tags + arg_payloads(args@.subrange(0, j + 1)));
        }
        j = j + 1;
    }
    proof {
        assert(args@.subrange(0, args@.len() as int) =~= args@);
    }
    Some(out)
}

/// What reading an argument back appends to a line `out` and its float
/// holes `holes`: the value's text under `spec`, or, for a float, a hole at
/// the end of the line that carries its bits.
pub open spec fn arg_shown(a: Arg, spec: FormatSpec, out: Seq<u8>, holes: Seq<FloatHole>) -> (Seq<u8>, Seq<FloatHole>) {
    match a {
        Arg::U64(v) => (out + spec_int(spec, false, v as nat), holes),
        Arg::I64(v) => (out + spec_signed(spec, v as int, twos(v as int, 0x1_0000_0000_0000_0000)), holes),
        Arg::F64Bits(v) => (out, holes.push(FloatHole { at: out.len() as usize, bits: v, wide: true, spec })),
        Arg::U32(v) => (out + spec_int(spec, false, v as nat), holes),
        Arg::I32(v) => (out + spec_signed(spec, v as int, twos(v as int, 0x1_0000_0000)), holes),
        Arg::F32Bits(v) => (out, holes.push(FloatHole { at: out.len() as usize, bits: v as u64, wide: false, spec })),
        Arg::U16(v) => (out + spec_int(spec, false, v as nat), holes),
        Arg::I16(v) => (out + spec_signed(spec, v as int, twos(v as int, 0x10000)), holes),
        Arg::U8(v) => (out + spec_int(spec, false, v as nat), holes),
        Arg::I8(v) => (out + spec_signed(spec, v as int, twos(v as int, 0x100)), holes),
        Arg::Bool(v) => (out + spec_str(spec, bool_text(v)), holes),
        Arg::Str(b) => (out + spec_str(spec, utf8_lossy(b@)), holes),
    }
}

/// An argument reads back as what was written: formatting the payload of
/// `a` under its own tag, wherever it stands in a record, appends the text
/// of `a`'s value (or a hole carrying a float's bits) and moves the reader
/// exactly past the payload.
pub proof fn law_encoded_arg_reads_back(
    a: Arg,
    spec: FormatSpec,
    before: Seq<u8>,
    after: Seq<u8>,
    out: Seq<u8>,
    holes: Seq<FloatHole>,
)
    requires
        a matches Arg::Str(b) ==> b@.len() <= u16::MAX,
    ensures
        spec_format_arg(arg_tag(a), spec, before + arg_payload(a) + after, before.len() as int, out, holes)
            == Some((arg_shown(a, spec, out, holes).0, arg_shown(a, spec, out, holes).1,
                (before.len() + arg_payload(a).len()) as int)),
{
    let d = before + arg_payload(a) + after;
    let p = before.len() as int;
    let n = arg_payload(a).len() as int;
    assert(d.subrange(p, p + n) =~= arg_payload(a));
    match a {
        Arg::U64(v) => {
            lemma_le64_roundtrip(v);
        },
        Arg::I64(v) => {
            let bits = twos(v as int, 0x1_0000_0000_0000_0000) as u64;
            lemma_le64_roundtrip(bits);
            lemma_signed_twos(v as int, 0x1_0000_0000_0000_0000);
        },
        Arg::F64Bits(v) => {
            lemma_le64_roundtrip(v);
        },
        Arg::U32(v) => {
            lemma_le32_roundtrip(v);
        },
        Arg::I32(v) => {
            let bits = twos(v as int, 0x1_0000_0000) as u32;
            lemma_le32_roundtrip(bits);
            lemma_signed_twos(v as int, 0x1_0000_0000);
        },
        Arg::F32Bits(v) => {
            lemma_le32_roundtrip(v);
        },
        Arg::U16(v) => {
            lemma_le16_roundtrip(v);
        },
        Arg::I16(v) => {
            let bits = twos(v as int, 0x10000) as u16;
            lemma_le16_roundtrip(bits);
            lemma_signed_twos(v as int, 0x10000);
        },
        Arg::U8(v) => {},
        Arg::I8(v) => {
            lemma_signed_twos(v as int, 0x100);
        },
        Arg::Bool(v) => {},
        Arg::Str(b) => {
            let len = b@.len() as u16;
            lemma_le16_roundtrip(len);
            assert(d.subrange(p, p + 2) =~= le16(len));
            assert(d.subrange(p + 2, p + 2 + len) =~= b@);
        },
    }
}

/// A signed value in range is recovered from its two's-complement image.
proof fn lemma_signed_twos(v: int, m: int)
    requires
        m >= 2,
        m % 2 == 0,
        -(m / 2) <= v < m / 2,
    ensures
        crate::decode::signed_of(twos(v, m), m) == v,
{
}

} // verus!

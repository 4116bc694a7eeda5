//! Value formatting with `std::fmt`-style specs.
//!
//! A spec is written after a colon inside a placeholder, in the order
//! `[[fill]align][+][#][0][width][.precision][type]`, where `align` is one of
//! `<`, `^`, `>`, the fill is one ASCII byte, and `type` is one of `x`, `X`,
//! `b`, `o` (or `?`, which formats as the plain form). Numbers align right
//! and strings left unless told otherwise; the `0` flag pads a number with
//! zeros after its sign and radix prefix; a precision cuts a string to that
//! many characters and is ignored for numbers. Widths and precisions of
//! more than eight digits stop growing at the eighth.
use vstd::prelude::*;

verus! {

/// Alignment of a padded value.
#[derive(Clone, Copy, Debug, PartialEq, Eq, Structural)]
pub enum Align {
    /// The type's own default.
    Unset,
    Left,
    Right,
    Center,
}

/// The radix an integer is written in.
#[derive(Clone, Copy, Debug, PartialEq, Eq, Structural)]
pub enum Radix {
    Decimal,
    LowerHex,
    UpperHex,
    Binary,
    Octal,
}

/// A parsed format spec.
#[derive(Clone, Copy, Debug, PartialEq, Eq, Structural)]
pub struct FormatSpec {
    /// The fill byte used for padding.
    pub fill: u8,
    pub align: Align,
    /// Always print a sign.
    pub plus: bool,
    /// Print the radix prefix (`0x`, `0b`, `0o`).
    pub alternate: bool,
    /// Pad numbers with zeros after the sign.
    pub zero: bool,
    pub width: Option<usize>,
    pub precision: Option<usize>,
    pub radix: Radix,
}

/// The spec of a bare `{}` placeholder.
pub open spec fn default_spec() -> FormatSpec {
    FormatSpec {
        fill: 32,
        align: Align::Unset,
        plus: false,
        alternate: false,
        zero: false,
        width: None,
        precision: None,
        radix: Radix::Decimal,
    }
}

impl Default for FormatSpec {
    fn default() -> (s: FormatSpec)
        ensures
            s == default_spec(),
    {
        FormatSpec {
            fill: 32,
            align: Align::Unset,
            plus: false,
            alternate: false,
            zero: false,
            width: None,
            precision: None,
            radix: Radix::Decimal,
        }
    }
}

// ---------------------------------------------------------------------------
// Integers
// ---------------------------------------------------------------------------

/// The ASCII digit for `d`.
pub open spec fn digit(d: nat, upper: bool) -> u8 {
    if d < 10 {
        (48 + d) as u8
    } else if upper {
        (55 + d) as u8
    } else {
        (87 + d) as u8
    }
}

/// The digits of `n` in base `radix`, most significant first, with no
/// leading zeros (zero itself is one digit).
pub open spec fn digits(n: nat, radix: nat, upper: bool) -> Seq<u8>
    decreases n,
{
    if radix < 2 {
        Seq::empty()
    } else if n < radix {
        seq![digit(n, upper)]
    } else {
        proof {
            assert(n / radix < n) by (nonlinear_arith)
                requires
                    radix >= 2,
                    n >= radix,
            ;
        }
        digits(n / radix, radix, upper).push(digit(n % radix, upper))
    }
}

/// Two to the power `k`.
pub open spec fn two_pow(k: nat) -> nat
    decreases k,
{
    if k == 0 {
        1
    } else {
        2 * two_pow((k - 1) as nat)
    }
}

/// A number below `2^k` has at most `k + 1` digits in any base.
proof fn lemma_digits_len(n: nat, radix: nat, upper: bool, k: nat)
    requires
        2 <= radix,
        n < two_pow(k),
    ensures
        1 <= digits(n, radix, upper).len() <= k + 1,
    decreases k,
{
    if n >= radix {
        assert(k > 0);
        assert(n / radix <= n / 2) by (nonlinear_arith)
            requires
                radix >= 2,
        ;
        assert(n / radix < two_pow((k - 1) as nat));
        lemma_digits_len(n / radix, radix, upper, (k - 1) as nat);
    }
}

/// A `u64` has at most 65 digits in any base.
proof fn lemma_u64_digits_len(n: u64, radix: nat, upper: bool)
    requires
        2 <= radix,
    ensures
        1 <= digits(n as nat, radix, upper).len() <= 65,
{
    reveal_with_fuel(two_pow, 65);
    assert(two_pow(64) == 0x1_0000_0000_0000_0000);
    lemma_digits_len(n as nat, radix, upper, 64);
}

pub open spec fn radix_base(r: Radix) -> nat {
    match r {
        Radix::Decimal => 10,
        Radix::LowerHex => 16,
        Radix::UpperHex => 16,
        Radix::Binary => 2,
        Radix::Octal => 8,
    }
}

pub open spec fn radix_upper(r: Radix) -> bool {
    r == Radix::UpperHex
}

/// The prefix `#` asks for.
pub open spec fn radix_prefix(r: Radix) -> Seq<u8> {
    match r {
        Radix::Decimal => Seq::empty(),
        Radix::LowerHex => seq![48u8, 120],
        Radix::UpperHex => seq![48u8, 120],
        Radix::Binary => seq![48u8, 98],
        Radix::Octal => seq![48u8, 111],
    }
}

/// `n` copies of the byte `c`.
pub open spec fn fill_seq(c: u8, n: nat) -> Seq<u8> {
    Seq::new(n, |i: int| c)
}

/// `body`, of `chars` characters, padded to the spec's width with its fill
/// and alignment (`default` when the spec sets none).
pub open spec fn spec_pad(spec: FormatSpec, body: Seq<u8>, chars: nat, default: Align) -> Seq<u8> {
    match spec.width {
        Some(w) => if chars < w {
            let pad = (w - chars) as nat;
            let a = if spec.align == Align::Unset { default } else { spec.align };
            match a {
                Align::Left => body + fill_seq(spec.fill, pad),
                Align::Center => fill_seq(spec.fill, pad / 2) + body + fill_seq(spec.fill, (pad - pad / 2) as nat),
                _ => fill_seq(spec.fill, pad) + body,
            }
        } else {
            body
        },
        None => body,
    }
}

/// Padding places the body whole and fills only around it: the result is
/// the body when no wider width is asked for; otherwise it is exactly the
/// width in characters, with `pad` fill bytes split by the alignment:
/// all after the body (left), all before it (right), or for centring the
/// smaller half `pad / 2` before and the larger half after, as `std::fmt`
/// does (`{:^5}` of `42` is `" 42  "`).
pub proof fn law_padding_splits_the_fill(spec: FormatSpec, body: Seq<u8>, chars: nat, default: Align)
    ensures
        ({
            let r = spec_pad(spec, body, chars, default);
            let a = if spec.align == Align::Unset { default } else { spec.align };
            match spec.width {
                Some(w) if chars < w => {
                    let pad = (w - chars) as int;
                    let before = if a == Align::Left { 0 } else if a == Align::Center { pad / 2 } else { pad };
                    &&& r.len() == body.len() + pad
                    &&& 0 <= before <= pad
                    &&& a == Align::Center ==> before <= pad - before <= before + 1
                    &&& forall|k: int| 0 <= k < before ==> r[k] == spec.fill
                    &&& r.subrange(before, before + body.len()) == body
                    &&& forall|k: int| before + body.len() <= k < r.len() ==> r[k] == spec.fill
                },
                _ => r == body,
            }
        }),
{
    let r = spec_pad(spec, body, chars, default);
    let a = if spec.align == Align::Unset { default } else { spec.align };
    match spec.width {
        Some(w) => {
            if chars < w {
                let pad = (w - chars) as int;
                let before = if a == Align::Left { 0 } else if a == Align::Center { pad / 2 } else { pad };
                assert(r.subrange(before, before + body.len()) =~= body);
            }
        },
        None => {},
    }
}

/// The sign and radix prefix of a formatted integer.
pub open spec fn int_prefix(spec: FormatSpec, negative: bool) -> Seq<u8> {
    (if negative {
        seq![45u8]
    } else if spec.plus {
        seq![43u8]
    } else {
        Seq::empty()
    }) + (if spec.alternate { radix_prefix(spec.radix) } else { Seq::empty() })
}

/// An integer of magnitude `mag` formatted under `spec`.
pub open spec fn spec_int(spec: FormatSpec, negative: bool, mag: nat) -> Seq<u8> {
    let prefix = int_prefix(spec, negative);
    let ds = digits(mag, radix_base(spec.radix), radix_upper(spec.radix));
    let n = prefix.len() + ds.len();
    match spec.width {
        Some(w) => if spec.zero && n < w {
            prefix + fill_seq(48, (w - n) as nat) + ds
        } else {
            spec_pad(spec, prefix + ds, n, Align::Right)
        },
        None => prefix + ds,
    }
}

/// The two's-complement image of `v` modulo `m`.
pub open spec fn twos(v: int, m: int) -> nat {
    if v < 0 { (v + m) as nat } else { v as nat }
}

/// A signed value whose unsigned image of the same width is `bits`, as
/// formatted under `spec`: decimal writes the sign and magnitude, the other
/// radixes the two's-complement bits.
pub open spec fn spec_signed(spec: FormatSpec, v: int, bits: nat) -> Seq<u8> {
    if spec.radix == Radix::Decimal {
        if v < 0 {
            spec_int(spec, true, (-v) as nat)
        } else {
            spec_int(spec, false, v as nat)
        }
    } else {
        spec_int(spec, false, bits)
    }
}

/// Appends the digits of `n` in base `radix`.
fn push_digits(n: u64, radix: u64, upper: bool, buf: &mut Vec<u8>)
    requires
        2 <= radix <= 16,
    ensures
        final(buf)@ == old(buf)@ + digits(n as nat, radix as nat, upper),
    decreases n,
{
    if n >= radix {
        assert(n / radix < n) by (nonlinear_arith)
            requires
                radix >= 2,
                n >= radix,
        ;
        push_digits(n / radix, radix, upper, buf);
    }
    assert(n % radix < radix) by (nonlinear_arith)
        requires
            radix >= 2,
    ;
    assert(n < radix ==> n % radix == n) by (nonlinear_arith)
        requires
            radix >= 2,
    ;
    let d = (n % radix) as u8;
    let c = if d < 10 {
        48 + d
    } else if upper {
        55 + d
    } else {
        87 + d
    };
    buf.push(c);
    proof {
        assert(buf@ =~= old(buf)@ + digits(n as nat, radix as nat, upper));
    }
}

/// Appends `n` copies of `c`.
pub fn push_fill(buf: &mut Vec<u8>, c: u8, n: usize)
    ensures
        final(buf)@ == old(buf)@ + fill_seq(c, n as nat),
{
    let mut i: usize = 0;
    while i < n
        invariant
            i <= n,
            buf@ == old(buf)@ + fill_seq(c, i as nat),
        decreases n - i,
    {
        buf.push(c);
        i = i + 1;
        proof {
            assert(buf@ =~= old(buf)@ + fill_seq(c, i as nat));
        }
    }
}

/// Appends the bytes of `src`.
pub fn push_bytes(buf: &mut Vec<u8>, src: &[u8])
    ensures
        final(buf)@ == old(buf)@ + src@,
{
    let mut i: usize = 0;
    while i < src.len()
        invariant
            i <= src@.len(),
            buf@ == old(buf)@ + src@.subrange(0, i as int),
        decreases src@.len() - i,
    {
        buf.push(src[i]);
        i = i + 1;
        proof {
            assert(buf@ =~= old(buf)@ + src@.subrange(0, i as int));
        }
    }
    proof {
        assert(src@.subrange(0, src@.len() as int) =~= src@);
    }
}

/// Appends `body`, of `chars` characters, padded under `spec`.
pub fn emit_padded(buf: &mut Vec<u8>, body: &[u8], chars: usize, spec: &FormatSpec, default: Align)
    ensures
        final(buf)@ == old(buf)@ + spec_pad(*spec, body@, chars as nat, default),
{
    match spec.width {
        Some(w) => {
            if chars < w {
                let pad = w - chars;
                let a = if spec.align == Align::Unset { default } else { spec.align };
                match a {
                    Align::Left => {
                        push_bytes(buf, body);
                        push_fill(buf, spec.fill, pad);
                    },
                    Align::Center => {
                        push_fill(buf, spec.fill, pad / 2);
                        push_bytes(buf, body);
                        push_fill(buf, spec.fill, pad - pad / 2);
                    },
                    _ => {
                        push_fill(buf, spec.fill, pad);
                        push_bytes(buf, body);
                    },
                }
                proof {
                    assert(buf@ =~= old(buf)@ + spec_pad(*spec, body@, chars as nat, default));
                }
            } else {
                push_bytes(buf, body);
            }
        },
        None => {
            push_bytes(buf, body);
        },
    }
}

/// The sign and radix prefix bytes under `spec`.
fn prefix_bytes(spec: &FormatSpec, negative: bool) -> (p: Vec<u8>)
    ensures
        p@ == int_prefix(*spec, negative),
        p@.len() <= 3,
{
    let mut prefix: Vec<u8> = Vec::new();
    if negative {
        prefix.push(45u8);
    } else if spec.plus {
        prefix.push(43u8);
    }
    if spec.alternate {
        match spec.radix {
            Radix::Decimal => {},
            Radix::LowerHex => {
                prefix.push(48u8);
                prefix.push(120u8);
            },
            Radix::UpperHex => {
                prefix.push(48u8);
                prefix.push(120u8);
            },
            Radix::Binary => {
                prefix.push(48u8);
                prefix.push(98u8);
            },
            Radix::Octal => {
                prefix.push(48u8);
                prefix.push(111u8);
            },
        }
    }
    proof {
        assert(prefix@ =~= int_prefix(*spec, negative));
    }
    prefix
}

/// The digits of `mag` in the spec's radix.
fn digit_bytes(mag: u64, radix: Radix) -> (d: Vec<u8>)
    ensures
        d@ == digits(mag as nat, radix_base(radix), radix_upper(radix)),
        1 <= d@.len() <= 65,
{
    let (base, upper): (u64, bool) = match radix {
        Radix::Decimal => (10, false),
        Radix::LowerHex => (16, false),
        Radix::UpperHex => (16, true),
        Radix::Binary => (2, false),
        Radix::Octal => (8, false),
    };
    let mut ds: Vec<u8> = Vec::new();
    push_digits(mag, base, upper, &mut ds);
    proof {
        assert(ds@ =~= digits(mag as nat, radix_base(radix), radix_upper(radix)));
        lemma_u64_digits_len(mag, radix_base(radix), radix_upper(radix));
    }
    ds
}

/// Appends an integer of magnitude `mag` (with a minus sign when
/// `negative`) formatted under `spec`.
pub fn format_int(mag: u64, negative: bool, spec: &FormatSpec, buf: &mut Vec<u8>)
    ensures
        final(buf)@ == old(buf)@ + spec_int(*spec, negative, mag as nat),
{
    let prefix = prefix_bytes(spec, negative);
    let ds = digit_bytes(mag, spec.radix);
    let n = prefix.len() + ds.len();
    match spec.width {
        Some(w) => {
            if spec.zero && n < w {
                push_bytes(buf, prefix.as_slice());
                push_fill(buf, 48u8, w - n);
                push_bytes(buf, ds.as_slice());
                proof {
                    assert(buf@ =~= old(buf)@ + spec_int(*spec, negative, mag as nat));
                }
            } else {
                let mut body = prefix;
                push_bytes(&mut body, ds.as_slice());
                emit_padded(buf, body.as_slice(), n, spec, Align::Right);
            }
        },
        None => {
            push_bytes(buf, prefix.as_slice());
            push_bytes(buf, ds.as_slice());
            proof {
                assert(buf@ =~= old(buf)@ + spec_int(*spec, negative, mag as nat));
            }
        },
    }
}

/// Appends `v` formatted under `spec`.
pub fn format_u64(v: u64, spec: &FormatSpec, buf: &mut Vec<u8>)
    ensures
        final(buf)@ == old(buf)@ + spec_int(*spec, false, v as nat),
{
    format_int(v, false, spec, buf);
}

/// Appends `v` formatted under `spec`.
pub fn format_u32(v: u32, spec: &FormatSpec, buf: &mut Vec<u8>)
    ensures
        final(buf)@ == old(buf)@ + spec_int(*spec, false, v as nat),
{
    format_int(v as u64, false, spec, buf);
}

/// Appends `v` formatted under `spec`.
pub fn format_u16(v: u16, spec: &FormatSpec, buf: &mut Vec<u8>)
    ensures
        final(buf)@ == old(buf)@ + spec_int(*spec, false, v as nat),
{
    format_int(v as u64, false, spec, buf);
}

/// Appends `v` formatted under `spec`.
pub fn format_u8(v: u8, spec: &FormatSpec, buf: &mut Vec<u8>)
    ensures
        final(buf)@ == old(buf)@ + spec_int(*spec, false, v as nat),
{
    format_int(v as u64, false, spec, buf);
}

/// Appends `v` formatted under `spec`.
pub fn format_i64(v: i64, spec: &FormatSpec, buf: &mut Vec<u8>)
    ensures
        final(buf)@ == old(buf)@ + spec_signed(*spec, v as int, twos(v as int, 0x1_0000_0000_0000_0000)),
{
    match spec.radix {
        Radix::Decimal => {
            let mag: u64 = if v < 0 { (-(v as i128)) as u64 } else { v as u64 };
            format_int(mag, v < 0, spec, buf);
        },
        _ => {
            let bits: u64 = if v < 0 { ((v as i128) + 0x1_0000_0000_0000_0000i128) as u64 } else { v as u64 };
            format_int(bits, false, spec, buf);
        },
    }
}

/// Appends `v` formatted under `spec`.
pub fn format_i32(v: i32, spec: &FormatSpec, buf: &mut Vec<u8>)
    ensures
        final(buf)@ == old(buf)@ + spec_signed(*spec, v as int, twos(v as int, 0x1_0000_0000)),
{
    match spec.radix {
        Radix::Decimal => {
            let mag: u64 = if v < 0 { (-(v as i64)) as u64 } else { v as u64 };
            format_int(mag, v < 0, spec, buf);
        },
        _ => {
            let bits: u64 = if v < 0 { ((v as i64) + 0x1_0000_0000i64) as u64 } else { v as u64 };
            format_int(bits, false, spec, buf);
        },
    }
}

/// Appends `v` formatted under `spec`.
pub fn format_i16(v: i16, spec: &FormatSpec, buf: &mut Vec<u8>)
    ensures
        final(buf)@ == old(buf)@ + spec_signed(*spec, v as int, twos(v as int, 0x10000)),
{
    match spec.radix {
        Radix::Decimal => {
            let mag: u64 = if v < 0 { (-(v as i64)) as u64 } else { v as u64 };
            format_int(mag, v < 0, spec, buf);
        },
        _ => {
            let bits: u64 = if v < 0 { ((v as i64) + 0x10000i64) as u64 } else { v as u64 };
            format_int(bits, false, spec, buf);
        },
    }
}

/// Appends `v` formatted under `spec`.
pub fn format_i8(v: i8, spec: &FormatSpec, buf: &mut Vec<u8>)
    ensures
        final(buf)@ == old(buf)@ + spec_signed(*spec, v as int, twos(v as int, 0x100)),
{
    match spec.radix {
        Radix::Decimal => {
            let mag: u64 = if v < 0 { (-(v as i64)) as u64 } else { v as u64 };
            format_int(mag, v < 0, spec, buf);
        },
        _ => {
            let bits: u64 = if v < 0 { ((v as i64) + 0x100i64) as u64 } else { v as u64 };
            format_int(bits, false, spec, buf);
        },
    }
}

// ---------------------------------------------------------------------------
// Strings
// ---------------------------------------------------------------------------

/// A UTF-8 continuation byte (`10xxxxxx`).
pub open spec fn is_cont(b: u8) -> bool {
    128 <= b < 192
}

/// The number of characters in UTF-8 bytes: the bytes that start one.
pub open spec fn char_count(b: Seq<u8>) -> nat
    decreases b.len(),
{
    if b.len() == 0 {
        0
    } else {
        char_count(b.drop_last()) + (if is_cont(b.last()) { 0nat } else { 1nat })
    }
}

/// The bytes of the first `n` characters of `b`.
pub open spec fn take_chars(b: Seq<u8>, n: nat) -> Seq<u8>
    decreases b.len(),
{
    if b.len() == 0 {
        Seq::empty()
    } else if is_cont(b[0]) {
        seq![b[0]] + take_chars(b.drop_first(), n)
    } else if n == 0 {
        Seq::empty()
    } else {
        seq![b[0]] + take_chars(b.drop_first(), (n - 1) as nat)
    }
}

/// The bytes a string argument contributes under `spec`: cut to the
/// precision, then padded (left-aligned unless told otherwise).
pub open spec fn spec_str(spec: FormatSpec, s: Seq<u8>) -> Seq<u8> {
    let body = match spec.precision {
        Some(p) => take_chars(s, p as nat),
        None => s,
    };
    spec_pad(spec, body, char_count(body), Align::Left)
}

/// Counts the characters in UTF-8 bytes.
pub fn count_chars(b: &[u8]) -> (n: usize)
    ensures
        n == char_count(b@),
{
    let mut n: usize = 0;
    let mut i: usize = 0;
    while i < b.len()
        invariant
            i <= b@.len(),
            n == char_count(b@.subrange(0, i as int)),
            n <= i,
        decreases b@.len() - i,
    {
        proof {
            assert(b@.subrange(0, i + 1).drop_last() =~= b@.subrange(0, i as int));
        }
        if !(128 <= b[i] && b[i] < 192) {
            n = n + 1;
        }
        i = i + 1;
    }
    proof {
        assert(b@.subrange(0, b@.len() as int) =~= b@);
    }
    n
}

/// The byte length of the first `n` characters of `b`.
fn char_prefix_len(b: &[u8], n: usize) -> (k: usize)
    ensures
        k <= b@.len(),
        b@.subrange(0, k as int) == take_chars(b@, n as nat),
{
    let mut i: usize = 0;
    let mut left: usize = n;
    proof {
        assert(b@.subrange(0, b@.len() as int) =~= b@);
        assert(b@.subrange(0, 0) + take_chars(b@, n as nat) =~= take_chars(b@, n as nat));
    }
    while i < b.len()
        invariant_except_break
            i <= b@.len(),
            take_chars(b@, n as nat) == b@.subrange(0, i as int) + take_chars(
                b@.subrange(i as int, b@.len() as int),
                left as nat,
            ),
        ensures
            i <= b@.len(),
            take_chars(b@, n as nat) == b@.subrange(0, i as int),
        decreases b@.len() - i,
    {
        let ghost rest = b@.subrange(i as int, b@.len() as int);
        proof {
            assert(rest.drop_first() =~= b@.subrange(i + 1, b@.len() as int));
            assert(rest[0] == b@[i as int]);
        }
        let c = b[i];
        if !(128 <= c && c < 192) {
            if left == 0 {
                proof {
                    assert(b@.subrange(0, i as int) + Seq::<u8>::empty() =~= b@.subrange(0, i as int));
                }
                break;
            }
            left = left - 1;
        }
        proof {
            assert(b@.subrange(0, i as int) + seq![c] =~= b@.subrange(0, i + 1));
        }
        i = i + 1;
    }
    proof {
        if i == b@.len() {
            assert(b@.subrange(i as int, b@.len() as int) =~= Seq::<u8>::empty());
            assert(b@.subrange(0, i as int) + Seq::<u8>::empty() =~= b@.subrange(0, i as int));
        }
    }
    i
}

/// Appends the UTF-8 string `s` formatted under `spec`.
pub fn format_str(s: &[u8], spec: &FormatSpec, buf: &mut Vec<u8>)
    ensures
        final(buf)@ == old(buf)@ + spec_str(*spec, s@),
{
    let body: &[u8] = match spec.precision {
        Some(p) => {
            let k = char_prefix_len(s, p);
            &s[0..k]
        },
        None => s,
    };
    let chars = count_chars(body);
    emit_padded(buf, body, chars, spec, Align::Left);
}

/// `true` or `false`, as bytes.
pub open spec fn bool_text(b: bool) -> Seq<u8> {
    if b {
        seq![116u8, 114, 117, 101]
    } else {
        seq![102u8, 97, 108, 115, 101]
    }
}

/// Appends `true` or `false` formatted like a string under `spec`.
pub fn format_bool(v: bool, spec: &FormatSpec, buf: &mut Vec<u8>)
    ensures
        final(buf)@ == old(buf)@ + spec_str(*spec, bool_text(v)),
{
    let text: Vec<u8> = if v {
        vec![116u8, 114, 117, 101]
    } else {
        vec![102u8, 97, 108, 115, 101]
    };
    proof {
        assert(text@ =~= bool_text(v));
    }
    format_str(text.as_slice(), spec, buf);
}

// ---------------------------------------------------------------------------
// Spec parsing
// ---------------------------------------------------------------------------

/// The first index at or after `i` that holds `c`, or the length.
pub open spec fn find_byte(s: Seq<u8>, c: u8, i: int) -> int
    decreases s.len() - i,
{
    if i >= s.len() || i < 0 {
        s.len() as int
    } else if s[i] == c {
        i
    } else {
        find_byte(s, c, i + 1)
    }
}

pub open spec fn is_align_byte(c: u8) -> bool {
    c == 60 || c == 94 || c == 62
}

pub open spec fn align_of(c: u8) -> Align {
    if c == 60 {
        Align::Left
    } else if c == 94 {
        Align::Center
    } else {
        Align::Right
    }
}

pub open spec fn is_digit(c: u8) -> bool {
    48 <= c <= 57
}

/// The value of the decimal run starting at `i`, on top of `acc` (growth
/// stops once the value has eight digits), and the index after the run.
pub open spec fn digit_run(s: Seq<u8>, i: int, acc: nat) -> (nat, int)
    decreases s.len() - i,
{
    if 0 <= i < s.len() && is_digit(s[i]) {
        let next: int = if acc < 10_000_000 { acc * 10 + (s[i] - 48) } else { acc as int };
        digit_run(s, i + 1, next as nat)
    } else {
        (acc, i)
    }
}

pub open spec fn radix_of(c: u8) -> Option<Radix> {
    if c == 120 {
        Some(Radix::LowerHex)
    } else if c == 88 {
        Some(Radix::UpperHex)
    } else if c == 98 {
        Some(Radix::Binary)
    } else if c == 111 {
        Some(Radix::Octal)
    } else if c == 63 {
        Some(Radix::Decimal)
    } else {
        None
    }
}

/// The fill and alignment at `i`, and the index after them.
pub open spec fn spec_fill_align(s: Seq<u8>, i: int) -> (u8, Align, int) {
    if i + 1 < s.len() && is_align_byte(s[i + 1]) && s[i] < 128 {
        (s[i], align_of(s[i + 1]), i + 2)
    } else if i < s.len() && is_align_byte(s[i]) {
        (32u8, align_of(s[i]), i + 1)
    } else {
        (32u8, Align::Unset, i)
    }
}

/// Whether byte `c` stands at `i`.
pub open spec fn at(s: Seq<u8>, i: int, c: u8) -> bool {
    0 <= i < s.len() && s[i] == c
}

/// The width, precision and radix from `i` on, and the index after them.
pub open spec fn spec_width_on(s: Seq<u8>, i: int) -> (Option<usize>, Option<usize>, Radix, int) {
    let (wv, i5) = digit_run(s, i, 0);
    let width = if i5 > i { Some(wv as usize) } else { None };
    let dot = at(s, i5, 46);
    let (pv, i6) = if dot { digit_run(s, i5 + 1, 0) } else { (0nat, i5) };
    let precision = if dot { Some(pv as usize) } else { None };
    let rdx = if 0 <= i6 < s.len() { radix_of(s[i6]) } else { None };
    let i7 = if rdx is Some { i6 + 1 } else { i6 };
    let radix = match rdx {
        Some(r) => r,
        None => Radix::Decimal,
    };
    (width, precision, radix, i7)
}

/// The spec written in a placeholder's interior `s` (the bytes between the
/// braces): whatever follows the first colon, parsed in the order
/// `[[fill]align][+][#][0][width][.precision][type]`. An interior with no
/// colon, or with bytes left over after the type, gives the default spec.
pub open spec fn spec_parse_spec(s: Seq<u8>) -> FormatSpec {
    let c = find_byte(s, 58, 0);
    if c >= s.len() {
        default_spec()
    } else {
        let (fill, align, i1) = spec_fill_align(s, c + 1);
        let plus = at(s, i1, 43);
        let i2 = if plus { i1 + 1 } else { i1 };
        let alternate = at(s, i2, 35);
        let i3 = if alternate { i2 + 1 } else { i2 };
        let zero = at(s, i3, 48);
        let i4 = if zero { i3 + 1 } else { i3 };
        let (width, precision, radix, end) = spec_width_on(s, i4);
        if end == s.len() {
            FormatSpec { fill, align, plus, alternate, zero, width, precision, radix }
        } else {
            default_spec()
        }
    }
}

/// Reads the decimal run of `s` starting at `i` on top of `acc`.
fn read_digits(s: &[u8], i: usize, acc: usize) -> (r: (usize, usize))
    requires
        i <= s@.len(),
        acc < 100_000_000,
    ensures
        r.0 == digit_run(s@, i as int, acc as nat).0,
        r.1 == digit_run(s@, i as int, acc as nat).1,
        i <= r.1 <= s@.len(),
        r.0 < 100_000_000,
    decreases s@.len() - i,
{
    if i < s.len() && 48 <= s[i] && s[i] <= 57 {
        let next = if acc < 10_000_000 { acc * 10 + (s[i] - 48) as usize } else { acc };
        read_digits(s, i + 1, next)
    } else {
        (acc, i)
    }
}

fn align_byte(c: u8) -> (b: bool)
    ensures
        b == is_align_byte(c),
{
    c == 60 || c == 94 || c == 62
}

fn align_from(c: u8) -> (a: Align)
    ensures
        a == align_of(c),
{
    if c == 60 {
        Align::Left
    } else if c == 94 {
        Align::Center
    } else {
        Align::Right
    }
}

fn read_fill_align(s: &[u8], i: usize) -> (r: (u8, Align, usize))
    requires
        i <= s@.len(),
    ensures
        (r.0, r.1, r.2 as int) == spec_fill_align(s@, i as int),
        i <= r.2 <= s@.len(),
{
    let n = s.len();
    if i < n && n - i > 1 && align_byte(s[i + 1]) && s[i] < 128 {
        (s[i], align_from(s[i + 1]), i + 2)
    } else if i < n && align_byte(s[i]) {
        (32u8, align_from(s[i]), i + 1)
    } else {
        (32u8, Align::Unset, i)
    }
}

fn byte_at(s: &[u8], i: usize, c: u8) -> (b: bool)
    ensures
        b == at(s@, i as int, c),
{
    i < s.len() && s[i] == c
}

fn read_radix(c: u8) -> (r: Option<Radix>)
    ensures
        r == radix_of(c),
{
    if c == 120 {
        Some(Radix::LowerHex)
    } else if c == 88 {
        Some(Radix::UpperHex)
    } else if c == 98 {
        Some(Radix::Binary)
    } else if c == 111 {
        Some(Radix::Octal)
    } else if c == 63 {
        Some(Radix::Decimal)
    } else {
        None
    }
}

fn read_width_on(s: &[u8], i: usize) -> (r: (Option<usize>, Option<usize>, Radix, usize))
    requires
        i <= s@.len(),
    ensures
        (r.0, r.1, r.2, r.3 as int) == spec_width_on(s@, i as int),
        r.3 <= s@.len(),
{
    let (wv, i5) = read_digits(s, i, 0);
    let width = if i5 > i { Some(wv) } else { None };
    let dot = byte_at(s, i5, 46);
    let (pv, i6): (usize, usize) = if dot && i5 < s.len() {
        read_digits(s, i5 + 1, 0)
    } else {
        (0, i5)
    };
    let precision = if dot { Some(pv) } else { None };
    let rdx: Option<Radix> = if i6 < s.len() { read_radix(s[i6]) } else { None };
    let i7 = if rdx.is_some() { i6 + 1 } else { i6 };
    let radix = match rdx {
        Some(r) => r,
        None => Radix::Decimal,
    };
    (width, precision, radix, i7)
}

/// Parses the spec in a placeholder's interior (see [`spec_parse_spec`]).
pub fn parse_spec(s: &[u8]) -> (r: FormatSpec)
    ensures
        r == spec_parse_spec(s@),
{
    let mut c: usize = 0;
    while c < s.len() && s[c] != 58
        invariant
            c <= s@.len(),
            find_byte(s@, 58, 0) == find_byte(s@, 58, c as int),
        decreases s@.len() - c,
    {
        c = c + 1;
    }
    if c >= s.len() {
        return FormatSpec::default();
    }
    let (fill, align, i1) = read_fill_align(s, c + 1);
    let plus = byte_at(s, i1, 43);
    let i2 = if plus { i1 + 1 } else { i1 };
    let alternate = byte_at(s, i2, 35);
    let i3 = if alternate { i2 + 1 } else { i2 };
    let zero = byte_at(s, i3, 48);
    let i4 = if zero { i3 + 1 } else { i3 };
    let (width, precision, radix, end) = read_width_on(s, i4);
    if end == s.len() {
        FormatSpec { fill, align, plus, alternate, zero, width, precision, radix }
    } else {
        FormatSpec::default()
    }
}

// ---------------------------------------------------------------------------
// Line patterns
// ---------------------------------------------------------------------------

/// A field a line pattern can place.
#[derive(Clone, Copy, Debug, PartialEq, Eq, Structural)]
pub enum Field {
    Timestamp,
    Level,
    File,
    Line,
    ThreadName,
    ThreadId,
    Message,
}

/// One piece of a parsed pattern.
#[derive(Clone, Debug)]
pub enum Segment {
    /// Literal bytes, copied through.
    Lit(Vec<u8>),
    /// A field rendered under a spec.
    Place { field: Field, spec: FormatSpec },
}

/// The mathematical value of a [`Segment`].
pub enum SegmentView {
    Lit(Seq<u8>),
    Place(Field, FormatSpec),
}

impl View for Segment {
    type V = SegmentView;

    open spec fn view(&self) -> SegmentView {
        match self {
            Segment::Lit(v) => SegmentView::Lit(v@),
            Segment::Place { field, spec } => SegmentView::Place(*field, *spec),
        }
    }
}

/// Why a pattern was refused; `at` is the byte offset of the offending
/// brace.
#[derive(Clone, Copy, Debug, PartialEq, Eq, Structural)]
pub enum PatternError {
    /// A placeholder names no known field.
    UnknownField { at: usize },
    /// A `{` has no closing `}`.
    Unclosed { at: usize },
    /// A `}` that is neither a placeholder's end nor part of `}}`.
    UnmatchedClose { at: usize },
}

/// A parsed line pattern.
#[derive(Clone, Debug)]
pub struct Template {
    pub segments: Vec<Segment>,
}

/// The segment values of a list of segments.
pub open spec fn seg_views(v: Seq<Segment>) -> Seq<SegmentView> {
    v.map_values(|x: Segment| x@)
}

impl View for Template {
    type V = Seq<SegmentView>;

    open spec fn view(&self) -> Seq<SegmentView> {
        seg_views(self.segments@)
    }
}

/// The field a placeholder name stands for.
pub open spec fn field_of(name: Seq<u8>) -> Option<Field> {
    if name == seq![116u8, 105, 109, 101, 115, 116, 97, 109, 112] {
        Some(Field::Timestamp)
    } else if name == seq![108u8, 101, 118, 101, 108] {
        Some(Field::Level)
    } else if name == seq![102u8, 105, 108, 101] {
        Some(Field::File)
    } else if name == seq![108u8, 105, 110, 101] {
        Some(Field::Line)
    } else if name == seq![116u8, 104, 114, 101, 97, 100, 95, 110, 97, 109, 101] {
        Some(Field::ThreadName)
    } else if name == seq![116u8, 104, 114, 101, 97, 100, 95, 105, 100] {
        Some(Field::ThreadId)
    } else if name == seq![109u8, 101, 115, 115, 97, 103, 101] {
        Some(Field::Message)
    } else {
        None
    }
}

/// Literal bytes `l` put in front of the segments `v`, merging with a
/// leading literal.
pub open spec fn cons_lits(l: Seq<u8>, v: Seq<SegmentView>) -> Seq<SegmentView> {
    if l.len() == 0 {
        v
    } else if v.len() > 0 && v[0] is Lit {
        seq![SegmentView::Lit(l + v[0]->Lit_0)] + v.drop_first()
    } else {
        seq![SegmentView::Lit(l)] + v
    }
}

pub open spec fn lit_cons(c: u8, r: Result<Seq<SegmentView>, PatternError>) -> Result<Seq<SegmentView>, PatternError> {
    match r {
        Ok(v) => Ok(cons_lits(seq![c], v)),
        Err(e) => Err(e),
    }
}

pub open spec fn place_cons(f: Field, sp: FormatSpec, r: Result<Seq<SegmentView>, PatternError>) -> Result<Seq<SegmentView>, PatternError> {
    match r {
        Ok(v) => Ok(seq![SegmentView::Place(f, sp)] + v),
        Err(e) => Err(e),
    }
}

/// The pattern `s` parsed from byte `i` on: `{{` and `}}` stand for literal
/// braces, `{name}` or `{name:spec}` places a field, and any other byte is
/// literal; runs of literal bytes form one segment.
pub open spec fn parse_from(s: Seq<u8>, i: int) -> Result<Seq<SegmentView>, PatternError>
    decreases s.len() - i,
{
    if i >= s.len() || i < 0 {
        Ok(Seq::empty())
    } else if s[i] == 123 {
        if i + 1 < s.len() && s[i + 1] == 123 {
            lit_cons(123, parse_from(s, i + 2))
        } else {
            let j = find_byte(s, 125, i + 1);
            if j >= s.len() {
                Err(PatternError::Unclosed { at: i as usize })
            } else {
                let inner = s.subrange(i + 1, j);
                let name = inner.subrange(0, find_byte(inner, 58, 0));
                match field_of(name) {
                    None => Err(PatternError::UnknownField { at: i as usize }),
                    Some(f) => {
                        proof {
                            lemma_find_byte_bounds(s, 125, i + 1);
                        }
                        place_cons(f, spec_parse_spec(inner), parse_from(s, j + 1))
                    },
                }
            }
        }
    } else if s[i] == 125 {
        if i + 1 < s.len() && s[i + 1] == 125 {
            lit_cons(125, parse_from(s, i + 2))
        } else {
            Err(PatternError::UnmatchedClose { at: i as usize })
        }
    } else {
        lit_cons(s[i], parse_from(s, i + 1))
    }
}

/// The parse of a whole pattern.
pub open spec fn spec_parse_template(s: Seq<u8>) -> Result<Seq<SegmentView>, PatternError> {
    parse_from(s, 0)
}

pub proof fn lemma_find_byte_bounds(s: Seq<u8>, c: u8, i: int)
    requires
        0 <= i,
    ensures
        i <= find_byte(s, c, i) || find_byte(s, c, i) == s.len(),
        find_byte(s, c, i) <= s.len(),
        find_byte(s, c, i) < s.len() ==> s[find_byte(s, c, i)] == c,
        i <= s.len() ==> i <= find_byte(s, c, i),
    decreases s.len() - i,
{
    if i < s.len() && s[i] != c {
        lemma_find_byte_bounds(s, c, i + 1);
    }
}

/// The segments before a position, the literal run being collected, and
/// the parse of the rest, put together.
pub open spec fn combine(
    pre: Seq<SegmentView>,
    l: Seq<u8>,
    r: Result<Seq<SegmentView>, PatternError>,
) -> Result<Seq<SegmentView>, PatternError> {
    match r {
        Ok(v) => Ok(pre + cons_lits(l, v)),
        Err(e) => Err(e),
    }
}

proof fn lemma_cons_lits_push(l: Seq<u8>, c: u8, v: Seq<SegmentView>)
    ensures
        cons_lits(l.push(c), v) == cons_lits(l, cons_lits(seq![c], v)),
{
    if l.len() == 0 {
        assert(l.push(c) =~= seq![c]);
    } else {
        let inner = cons_lits(seq![c], v);
        if v.len() > 0 && v[0] is Lit {
            assert(inner.drop_first() =~= v.drop_first());
            assert(l + (seq![c] + v[0]->Lit_0) =~= l.push(c) + v[0]->Lit_0);
        } else {
            assert(inner.drop_first() =~= v);
            assert(l + seq![c] =~= l.push(c));
        }
        assert(cons_lits(l.push(c), v) =~= cons_lits(l, inner));
    }
}

proof fn lemma_combine_lit(pre: Seq<SegmentView>, l: Seq<u8>, c: u8, r: Result<Seq<SegmentView>, PatternError>)
    ensures
        combine(pre, l, lit_cons(c, r)) == combine(pre, l.push(c), r),
{
    match r {
        Ok(v) => {
            lemma_cons_lits_push(l, c, v);
        },
        Err(e) => {},
    }
}

/// Whether two byte runs are equal.
pub fn bytes_eq(a: &[u8], b: &[u8]) -> (r: bool)
    ensures
        r == (a@ == b@),
{
    if a.len() != b.len() {
        return false;
    }
    let mut i: usize = 0;
    while i < a.len()
        invariant
            i <= a@.len(),
            a@.len() == b@.len(),
            a@.subrange(0, i as int) == b@.subrange(0, i as int),
        decreases a@.len() - i,
    {
        if a[i] != b[i] {
            return false;
        }
        proof {
            assert(a@.subrange(0, i + 1) =~= a@.subrange(0, i as int).push(a@[i as int]));
            assert(b@.subrange(0, i + 1) =~= b@.subrange(0, i as int).push(b@[i as int]));
        }
        i = i + 1;
    }
    proof {
        assert(a@ =~= a@.subrange(0, i as int));
        assert(b@ =~= b@.subrange(0, i as int));
    }
    true
}

/// The field a placeholder name stands for.
pub fn field_from(name: &[u8]) -> (f: Option<Field>)
    ensures
        f == field_of(name@),
{
    let t = vec![116u8, 105, 109, 101, 115, 116, 97, 109, 112];
    let lv = vec![108u8, 101, 118, 101, 108];
    let fi = vec![102u8, 105, 108, 101];
    let li = vec![108u8, 105, 110, 101];
    let tn = vec![116u8, 104, 114, 101, 97, 100, 95, 110, 97, 109, 101];
    let ti = vec![116u8, 104, 114, 101, 97, 100, 95, 105, 100];
    let me = vec![109u8, 101, 115, 115, 97, 103, 101];
    proof {
        assert(t@ =~= seq![116u8, 105, 109, 101, 115, 116, 97, 109, 112]);
        assert(lv@ =~= seq![108u8, 101, 118, 101, 108]);
        assert(fi@ =~= seq![102u8, 105, 108, 101]);
        assert(li@ =~= seq![108u8, 105, 110, 101]);
        assert(tn@ =~= seq![116u8, 104, 114, 101, 97, 100, 95, 110, 97, 109, 101]);
        assert(ti@ =~= seq![116u8, 104, 114, 101, 97, 100, 95, 105, 100]);
        assert(me@ =~= seq![109u8, 101, 115, 115, 97, 103, 101]);
    }
    if bytes_eq(name, t.as_slice()) {
        Some(Field::Timestamp)
    } else if bytes_eq(name, lv.as_slice()) {
        Some(Field::Level)
    } else if bytes_eq(name, fi.as_slice()) {
        Some(Field::File)
    } else if bytes_eq(name, li.as_slice()) {
        Some(Field::Line)
    } else if bytes_eq(name, tn.as_slice()) {
        Some(Field::ThreadName)
    } else if bytes_eq(name, ti.as_slice()) {
        Some(Field::ThreadId)
    } else if bytes_eq(name, me.as_slice()) {
        Some(Field::Message)
    } else {
        None
    }
}

/// The first index at or after `i` that holds `c`, or the length.
pub fn find(s: &[u8], c: u8, i: usize) -> (j: usize)
    requires
        i <= s@.len(),
    ensures
        j == find_byte(s@, c, i as int),
        i <= j <= s@.len(),
{
    let mut j = i;
    while j < s.len() && s[j] != c
        invariant
            i <= j <= s@.len(),
            find_byte(s@, c, i as int) == find_byte(s@, c, j as int),
        decreases s@.len() - j,
    {
        j = j + 1;
    }
    j
}

impl Template {
    /// Parses a line pattern (see [`parse_from`]).
    pub fn parse(s: &[u8]) -> (r: Result<Template, PatternError>)
        ensures
            match r {
                Ok(t) => spec_parse_template(s@) == Ok::<Seq<SegmentView>, PatternError>(t@),
                Err(e) => spec_parse_template(s@) == Err::<Seq<SegmentView>, PatternError>(e),
            },
    {
        let n = s.len();
        let mut segs: Vec<Segment> = Vec::new();
        let mut lit: Vec<u8> = Vec::new();
        let mut i: usize = 0;
        proof {
            assert(seg_views(segs@) + cons_lits(lit@, Seq::empty()) =~= Seq::<SegmentView>::empty());
            match parse_from(s@, 0) {
                Ok(v) => {
                    assert(seg_views(segs@) + cons_lits(lit@, v) =~= v);
                },
                Err(e) => {},
            }
        }
        while i < n
            invariant
                n == s@.len(),
                i <= n,
                spec_parse_template(s@) == combine(seg_views(segs@), lit@, parse_from(s@, i as int)),
            decreases n - i,
        {
            let c = s[i];
            if c == 123 {
                if i + 1 < n && s[i + 1] == 123 {
                    proof {
                        lemma_combine_lit(seg_views(segs@), lit@, 123, parse_from(s@, i + 2));
                    }
                    lit.push(123);
                    i = i + 2;
                } else {
                    let j = find(s, 125, i + 1);
                    if j >= n {
                        return Err(PatternError::Unclosed { at: i });
                    }
                    let inner = &s[i + 1..j];
                    let k = find(inner, 58, 0);
                    let name = &inner[0..k];
                    proof {
                        assert(inner@ == s@.subrange(i + 1, j as int));
                    }
                    let f = field_from(name);
                    match f {
                        None => {
                            return Err(PatternError::UnknownField { at: i });
                        },
                        Some(f) => {
                            let sp = parse_spec(inner);
                            let ghost pre = seg_views(segs@);
                            let ghost l = lit@;
                            if lit.len() > 0 {
                                segs.push(Segment::Lit(lit));
                                lit = Vec::new();
                            }
                            segs.push(Segment::Place { field: f, spec: sp });
                            proof {
                                match parse_from(s@, j + 1) {
                                    Ok(v) => {
                                        assert(seg_views(segs@) + cons_lits(lit@, v) =~= pre
                                            + cons_lits(l, seq![SegmentView::Place(f, sp)] + v));
                                    },
                                    Err(e) => {},
                                }
                            }
                            i = j + 1;
                        },
                    }
                }
            } else if c == 125 {
                if i + 1 < n && s[i + 1] == 125 {
                    proof {
                        lemma_combine_lit(seg_views(segs@), lit@, 125, parse_from(s@, i + 2));
                    }
                    lit.push(125);
                    i = i + 2;
                } else {
                    return Err(PatternError::UnmatchedClose { at: i });
                }
            } else {
                proof {
                    lemma_combine_lit(seg_views(segs@), lit@, c, parse_from(s@, i + 1));
                }
                lit.push(c);
                i = i + 1;
            }
        }
        let ghost pre = seg_views(segs@);
        let ghost l = lit@;
        if lit.len() > 0 {
            segs.push(Segment::Lit(lit));
        }
        proof {
            assert(seg_views(segs@) =~= pre + cons_lits(l, Seq::empty()));
        }
        Ok(Template { segments: segs })
    }
}

} // verus!

//! Counter-to-wall-clock conversion and ISO-8601 rendering.
//!
//! Records carry raw counter ticks. A [`Calibration`], sampled once at
//! startup, maps ticks to nanoseconds since the Unix epoch: the counter
//! value `counter_base` was read at wall time `wall_base_ns`, and one tick
//! lasts `ns_num / ns_den` nanoseconds.
use vstd::prelude::*;
use crate::format::{FormatSpec, Align, Radix, spec_int, format_u64, digits, fill_seq};

verus! {

/// The counter-to-wall-clock mapping.
#[derive(Clone, Copy, Debug, PartialEq, Eq, Structural)]
pub struct Calibration {
    /// Nanoseconds per tick, numerator.
    pub ns_num: u64,
    /// Nanoseconds per tick, denominator (a zero denominator maps every
    /// tick to `wall_base_ns`).
    pub ns_den: u64,
    /// Counter value at the calibration instant.
    pub counter_base: u64,
    /// Wall-clock nanoseconds since the epoch at the calibration instant.
    pub wall_base_ns: u64,
}

/// `x` clamped to the `u64` range.
pub open spec fn clamp_u64(x: int) -> u64 {
    if x < 0 {
        0
    } else if x > u64::MAX {
        u64::MAX
    } else {
        x as u64
    }
}

/// Nanoseconds since the epoch for counter value `ticks`: the elapsed
/// ticks scaled (rounding toward the base), added to the wall base and
/// clamped to the `u64` range.
pub open spec fn spec_ticks_to_ns(ticks: u64, c: Calibration) -> u64 {
    if c.ns_den == 0 {
        c.wall_base_ns
    } else if ticks >= c.counter_base {
        clamp_u64(c.wall_base_ns + (ticks - c.counter_base) * c.ns_num / (c.ns_den as int))
    } else {
        clamp_u64(c.wall_base_ns - (c.counter_base - ticks) * c.ns_num / (c.ns_den as int))
    }
}

/// Converts raw counter ticks to nanoseconds since the epoch.
pub fn ticks_to_ns(ticks: u64, c: &Calibration) -> (ns: u64)
    ensures
        ns == spec_ticks_to_ns(ticks, *c),
{
    if c.ns_den == 0 {
        return c.wall_base_ns;
    }
    if ticks >= c.counter_base {
        let d = (ticks - c.counter_base) as u128;
        proof {
            assert(d * (c.ns_num as u128) <= 0xffff_ffff_ffff_ffff * 0xffff_ffff_ffff_ffffu128) by (nonlinear_arith)
                requires
                    d <= 0xffff_ffff_ffff_ffff,
                    c.ns_num <= 0xffff_ffff_ffff_ffff,
            ;
        }
        let prod = d * (c.ns_num as u128);
        let den = c.ns_den as u128;
        let scaled = prod / den;
        proof {
            assert(scaled <= prod) by (nonlinear_arith)
                requires
                    den >= 1,
                    scaled == prod / den,
            ;
        }
        let total = (c.wall_base_ns as u128) + scaled;
        if total > u64::MAX as u128 {
            u64::MAX
        } else {
            total as u64
        }
    } else {
        let d = (c.counter_base - ticks) as u128;
        proof {
            assert(d * (c.ns_num as u128) <= 0xffff_ffff_ffff_ffff * 0xffff_ffff_ffff_ffffu128) by (nonlinear_arith)
                requires
                    d <= 0xffff_ffff_ffff_ffff,
                    c.ns_num <= 0xffff_ffff_ffff_ffff,
            ;
        }
        let prod = d * (c.ns_num as u128);
        let den = c.ns_den as u128;
        let scaled = prod / den;
        let base = c.wall_base_ns as u128;
        if scaled > base {
            0
        } else {
            (base - scaled) as u64
        }
    }
}

// ---------------------------------------------------------------------------
// The calendar
// ---------------------------------------------------------------------------

pub open spec fn is_leap(y: nat) -> bool {
    (y % 4 == 0 && y % 100 != 0) || y % 400 == 0
}

pub open spec fn year_len(y: nat) -> nat {
    if is_leap(y) { 366 } else { 365 }
}

/// Days in month `m` (1-based) of year `y`.
pub open spec fn month_len(y: nat, m: nat) -> nat {
    if m == 2 {
        if is_leap(y) { 29 } else { 28 }
    } else if m == 4 || m == 6 || m == 9 || m == 11 {
        30
    } else {
        31
    }
}

/// Month and day (both 1-based) of the zero-based day `days` of year `y`,
/// counting months from `m`.
pub open spec fn month_day(days: nat, y: nat, m: nat) -> (nat, nat)
    decreases 13 - m,
{
    if m >= 12 || days < month_len(y, m) {
        (m, days + 1)
    } else {
        month_day((days - month_len(y, m)) as nat, y, m + 1)
    }
}

/// Year, month and day of the `days`-th day (zero-based) counted from
/// January 1 of year `y`.
pub open spec fn civil(days: nat, y: nat) -> (nat, nat, nat)
    decreases days,
{
    if days < year_len(y) {
        let (m, d) = month_day(days, y, 1);
        (y, m, d)
    } else {
        civil((days - year_len(y)) as nat, y + 1)
    }
}

/// Seconds from 1900-01-01 to 1970-01-01.
pub open spec fn secs_1900_to_epoch() -> int {
    2_208_988_800
}

/// The two ASCII digits of `n < 100`.
pub open spec fn two_digits(n: nat) -> Seq<u8> {
    seq![(48 + n / 10) as u8, (48 + n % 10) as u8]
}

/// `n` in decimal, zero-padded to `w` digits.
pub open spec fn zero_padded(n: nat, w: nat) -> Seq<u8> {
    let ds = digits(n, 10, false);
    if ds.len() < w {
        fill_seq(48, (w - ds.len()) as nat) + ds
    } else {
        ds
    }
}

/// The zone suffix for an offset in seconds east of UTC: `Z` for UTC,
/// otherwise a sign and the hours and minutes.
pub open spec fn zone_text(offset: int) -> Seq<u8> {
    if offset == 0 {
        seq![90u8]
    } else {
        let a = if offset < 0 { -offset } else { offset };
        seq![if offset < 0 { 45u8 } else { 43u8 }] + zero_padded((a / 3600) as nat, 2) + seq![58u8]
            + two_digits((a % 3600 / 60) as nat)
    }
}

proof fn lemma_zero_padded_two(h: nat)
    requires
        h < 100,
    ensures
        zero_padded(h, 2) == two_digits(h),
{
    reveal_with_fuel(digits, 2);
    if h < 10 {
        assert(zero_padded(h, 2) =~= two_digits(h));
    } else {
        assert(digits(h / 10, 10, false) == seq![crate::format::digit(h / 10, false)]);
        assert(zero_padded(h, 2) =~= two_digits(h));
    }
}

/// The value of the two decimal digits of `s` at `i`.
pub open spec fn two_digit_value(s: Seq<u8>, i: int) -> int {
    (s[i] - 48) * 10 + (s[i + 1] - 48)
}

/// Whether `s[i]` is an ASCII decimal digit.
pub open spec fn is_dec(s: Seq<u8>, i: int) -> bool {
    48 <= s[i] <= 57
}

/// The zone suffix of a non-zero offset reads back as the offset: a sign
/// (`-` west of UTC, `+` east), then `HH:MM` whose hours and minutes make
/// up the offset's magnitude truncated to whole minutes.
pub proof fn law_zone_suffix_reads_back(offset: int)
    requires
        offset != 0,
        -360_000 < offset < 360_000,
    ensures
        ({
            let r = zone_text(offset);
            let a = if offset < 0 { -offset } else { offset };
            &&& r.len() == 6
            &&& r[0] == (if offset < 0 { 45u8 } else { 43u8 })
            &&& r[3] == 58u8
            &&& is_dec(r, 1) && is_dec(r, 2) && is_dec(r, 4) && is_dec(r, 5)
            &&& two_digit_value(r, 4) < 60
            &&& two_digit_value(r, 1) * 3600 + two_digit_value(r, 4) * 60 == a - a % 60
        }),
{
    let a = if offset < 0 { -offset } else { offset };
    lemma_zero_padded_two((a / 3600) as nat);
    let r = zone_text(offset);
    assert(r =~= seq![if offset < 0 { 45u8 } else { 43u8 }] + two_digits((a / 3600) as nat) + seq![58u8]
        + two_digits((a % 3600 / 60) as nat));
}

/// East and west offsets of the same size differ only in the sign: the
/// suffix of `-o` is the suffix of `o` with `+` turned into `-`.
pub proof fn law_zone_suffix_symmetric(offset: int)
    requires
        offset > 0,
    ensures
        zone_text(offset)[0] == 43u8,
        zone_text(-offset) == seq![45u8] + zone_text(offset).drop_first(),
{
    assert(zone_text(-offset) =~= seq![45u8] + zone_text(offset).drop_first());
}

/// The ISO-8601 text for `ns` nanoseconds since the epoch shown at
/// `offset` seconds east of UTC: `YYYY-MM-DDTHH:MM:SS.nnnnnnnnn` and the
/// zone suffix.
pub open spec fn spec_iso8601(ns: u64, offset: int) -> Seq<u8> {
    let local = ns / 1_000_000_000 + offset + secs_1900_to_epoch();
    let days = (local / 86400) as nat;
    let sod = (local % 86400) as nat;
    let (y, m, d) = civil(days, 1900);
    date_text(y, m, d) + seq![84u8] + time_text(sod, (ns % 1_000_000_000) as nat) + zone_text(offset)
}

/// `YYYY-MM-DD`.
pub open spec fn date_text(y: nat, m: nat, d: nat) -> Seq<u8> {
    zero_padded(y, 4) + seq![45u8] + two_digits(m) + seq![45u8] + two_digits(d)
}

/// `HH:MM:SS.nnnnnnnnn` for second of day `sod` and nanosecond `frac`.
pub open spec fn time_text(sod: nat, frac: nat) -> Seq<u8> {
    two_digits(sod / 3600) + seq![58u8] + two_digits(sod % 3600 / 60) + seq![58u8] + two_digits(
        sod % 60,
    ) + seq![46u8] + zero_padded(frac, 9)
}

fn is_leap_year(y: u64) -> (b: bool)
    ensures
        b == is_leap(y as nat),
{
    (y % 4 == 0 && y % 100 != 0) || y % 400 == 0
}

fn days_in_year(y: u64) -> (n: u64)
    ensures
        n == year_len(y as nat),
{
    if is_leap_year(y) { 366 } else { 365 }
}

fn days_in_month(y: u64, m: u64) -> (n: u64)
    ensures
        n == month_len(y as nat, m as nat),
{
    if m == 2 {
        if is_leap_year(y) { 29 } else { 28 }
    } else if m == 4 || m == 6 || m == 9 || m == 11 {
        30
    } else {
        31
    }
}

/// Days in the months of year `y` before month `m`.
pub open spec fn month_sum(y: nat, m: nat) -> nat
    decreases m,
{
    if m <= 1 {
        0
    } else {
        month_sum(y, (m - 1) as nat) + month_len(y, (m - 1) as nat)
    }
}

proof fn lemma_months_fill_year(y: nat)
    ensures
        month_sum(y, 12) + 31 == year_len(y),
{
    reveal_with_fuel(month_sum, 13);
}

/// Year, month and day of the `days`-th day counted from 1900-01-01.
pub fn civil_from_days(days: u64) -> (r: (u64, u64, u64))
    requires
        days <= 1_000_000,
    ensures
        (r.0 as nat, r.1 as nat, r.2 as nat) == civil(days as nat, 1900),
        1900 <= r.0 <= 5000,
        1 <= r.1 <= 12,
        1 <= r.2 <= 31,
{
    let mut y: u64 = 1900;
    let mut left: u64 = days;
    while left >= days_in_year(y)
        invariant
            civil(days as nat, 1900) == civil(left as nat, y as nat),
            1900 <= y,
            (y - 1900) * 365 + left <= days,
            days <= 1_000_000,
        decreases left,
    {
        let n = days_in_year(y);
        left = left - n;
        y = y + 1;
    }
    let mut m: u64 = 1;
    let mut d: u64 = left;
    while m < 12 && d >= days_in_month(y, m)
        invariant
            1 <= m <= 12,
            month_day(left as nat, y as nat, 1) == month_day(d as nat, y as nat, m as nat),
            d + month_sum(y as nat, m as nat) == left,
            left < year_len(y as nat),
        decreases 12 - m,
    {
        d = d - days_in_month(y, m);
        m = m + 1;
    }
    proof {
        lemma_months_fill_year(y as nat);
    }
    (y, m, d + 1)
}

/// Appends the two digits of `n < 100`.
fn push_two(buf: &mut Vec<u8>, n: u64)
    requires
        n < 100,
    ensures
        final(buf)@ == old(buf)@ + two_digits(n as nat),
{
    buf.push((48 + n / 10) as u8);
    buf.push((48 + n % 10) as u8);
    proof {
        assert(buf@ =~= old(buf)@ + two_digits(n as nat));
    }
}

/// Appends `n` in decimal, zero-padded to `w` digits.
fn push_zero_padded(buf: &mut Vec<u8>, n: u64, w: usize)
    ensures
        final(buf)@ == old(buf)@ + zero_padded(n as nat, w as nat),
{
    let spec = FormatSpec {
        fill: 32,
        align: Align::Unset,
        plus: false,
        alternate: false,
        zero: true,
        width: Some(w),
        precision: None,
        radix: Radix::Decimal,
    };
    format_u64(n, &spec, buf);
    proof {
        let ds = digits(n as nat, 10, false);
        assert(crate::format::int_prefix(spec, false) =~= Seq::<u8>::empty());
        assert(Seq::<u8>::empty() + ds =~= ds);
        assert(Seq::<u8>::empty() + fill_seq(48, (w - ds.len()) as nat) + ds =~= fill_seq(48, (w - ds.len()) as nat) + ds);
        assert(spec_int(spec, false, n as nat) == zero_padded(n as nat, w as nat));
    }
}

fn push_date(buf: &mut Vec<u8>, y: u64, m: u64, d: u64)
    requires
        m < 100,
        d < 100,
    ensures
        final(buf)@ == old(buf)@ + date_text(y as nat, m as nat, d as nat),
{
    push_zero_padded(buf, y, 4);
    buf.push(45u8);
    push_two(buf, m);
    buf.push(45u8);
    push_two(buf, d);
    proof {
        assert(buf@ =~= old(buf)@ + date_text(y as nat, m as nat, d as nat));
    }
}

fn push_time(buf: &mut Vec<u8>, sod: u64, frac: u64)
    requires
        sod < 86400,
    ensures
        final(buf)@ == old(buf)@ + time_text(sod as nat, frac as nat),
{
    push_two(buf, sod / 3600);
    buf.push(58u8);
    push_two(buf, sod % 3600 / 60);
    buf.push(58u8);
    push_two(buf, sod % 60);
    buf.push(46u8);
    push_zero_padded(buf, frac, 9);
    proof {
        assert(buf@ =~= old(buf)@ + time_text(sod as nat, frac as nat));
    }
}

fn push_zone(buf: &mut Vec<u8>, offset: i32)
    ensures
        final(buf)@ == old(buf)@ + zone_text(offset as int),
{
    if offset == 0 {
        buf.push(90u8);
        proof {
            assert(buf@ =~= old(buf)@ + zone_text(offset as int));
        }
    } else {
        let a: u64 = if offset < 0 { (-(offset as i64)) as u64 } else { offset as u64 };
        buf.push(if offset < 0 { 45u8 } else { 43u8 });
        push_zero_padded(buf, a / 3600, 2);
        buf.push(58u8);
        push_two(buf, a % 3600 / 60);
        proof {
            assert(buf@ =~= old(buf)@ + zone_text(offset as int));
        }
    }
}

/// Appends the ISO-8601 text of `ns` nanoseconds since the epoch, shown at
/// `offset` seconds east of UTC.
pub fn format_iso8601(ns: u64, offset: i32, buf: &mut Vec<u8>)
    ensures
        final(buf)@ == old(buf)@ + spec_iso8601(ns, offset as int),
{
    let secs = ns / 1_000_000_000;
    let frac = ns % 1_000_000_000;
    let local: u64 = ((secs as i64) + (offset as i64) + 2_208_988_800i64) as u64;
    let days = local / 86400;
    let sod = local % 86400;
    let (y, m, d) = civil_from_days(days);
    push_date(buf, y, m, d);
    buf.push(84u8);
    push_time(buf, sod, frac);
    push_zone(buf, offset);
    proof {
        assert(buf@ =~= old(buf)@ + spec_iso8601(ns, offset as int));
    }
}

} // verus!

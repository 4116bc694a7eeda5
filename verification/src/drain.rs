//! The drain side: turning the records of a ring into lines, and the
//! decisions the drain loop takes between passes.
use vstd::prelude::*;
use vstd::utf8::encode_utf8;
use crate::decode::{FloatHole, decode_and_format, spec_decode, level_or_error};
use crate::format::Template;
use crate::level::Level;
use crate::record::{Site, END_OF_BUFFER, HEADER_SIZE, LOG_RECORD, VERSION};
use crate::wire::from_le16;
use crate::ring::{RingBuffer, drain_pass, records_view, chain, lemma_walk_chain, lemma_chain_concat};
use crate::timestamp::Calibration;

verus! {

/// One formatted log line: its bytes (no trailing newline), its level, and
/// the floating-point arguments still to be rendered into it.
pub struct Line {
    pub bytes: Vec<u8>,
    pub level: Level,
    pub holes: Vec<FloatHole>,
}

/// The level stored in byte 4 of a record; a short record or an unknown
/// byte reads as an error.
pub open spec fn record_level(r: Seq<u8>) -> Level {
    if r.len() > 4 { level_or_error(r[4]) } else { Level::Error }
}

/// The formatting inputs the drain applies to every record.
pub struct LineFormat<'a> {
    pub timezone_offset: i32,
    pub calibration: Calibration,
    pub line_pattern: &'a Template,
    pub sites: &'a [Site],
    pub files: &'a [&'static str],
}

/// `line` is `record` formatted under `f` for a ring whose producer is
/// `thread_id` named `thread_name`.
pub open spec fn line_matches(line: Line, record: Seq<u8>, f: LineFormat, thread_id: u64, thread_name: Seq<u8>) -> bool {
    let (b, h) = spec_decode(
        record,
        f.timezone_offset,
        f.calibration,
        f.line_pattern@,
        thread_id,
        thread_name,
        f.sites@,
        f.files@,
        Seq::empty(),
        Seq::empty(),
    );
    &&& line.bytes@ == b
    &&& line.holes@ == h
    &&& line.level == record_level(record)
}

/// `x` clamped into `[lo, hi]`.
pub open spec fn clamp_to(x: int, lo: int, hi: int) -> int {
    if x < lo { lo } else if x > hi { hi } else { x }
}

/// The line `b` from byte `from` on with `texts[k]` placed at offset
/// `holes[k].at` of `b`, in order; an offset before the previous one, or
/// past the end, is moved to the nearest byte still free.
pub open spec fn spliced(b: Seq<u8>, holes: Seq<FloatHole>, texts: Seq<Seq<u8>>, from: int) -> Seq<u8>
    decreases holes.len(),
{
    if holes.len() == 0 {
        b.subrange(from, b.len() as int)
    } else {
        let at = clamp_to(holes[0].at as int, from, b.len() as int);
        b.subrange(from, at) + texts[0] + spliced(b, holes.drop_first(), texts.drop_first(), at)
    }
}

/// Places the rendered text of each float hole of a line at its offset:
/// `texts[k]` is the text of `holes[k]`.
pub fn fill_holes(bytes: &[u8], holes: &[FloatHole], texts: &[Vec<u8>]) -> (r: Vec<u8>)
    requires
        texts@.len() == holes@.len(),
    ensures
        r@ == spliced(bytes@, holes@, texts@.map_values(|t: Vec<u8>| t@), 0),
{
    let ghost tv = texts@.map_values(|t: Vec<u8>| t@);
    let mut out: Vec<u8> = Vec::new();
    let mut from: usize = 0;
    let mut k: usize = 0;
    proof {
        assert(holes@.skip(0) =~= holes@);
        assert(tv.skip(0) =~= tv);
        assert(out@ + spliced(bytes@, holes@, tv, 0) =~= spliced(bytes@, holes@, tv, 0));
    }
    while k < holes.len()
        invariant
            k <= holes@.len(),
            holes@.len() == texts@.len(),
            tv == texts@.map_values(|t: Vec<u8>| t@),
            from <= bytes@.len(),
            out@ + spliced(bytes@, holes@.skip(k as int), tv.skip(k as int), from as int)
                == spliced(bytes@, holes@, tv, 0),
        decreases holes@.len() - k,
    {
        let at0 = holes[k].at;
        let at = if at0 < from { from } else if at0 > bytes.len() { bytes.len() } else { at0 };
        let ghost before = out@;
        let mut i: usize = from;
        while i < at
            invariant
                from <= i <= at <= bytes@.len(),
                out@ == before + bytes@.subrange(from as int, i as int),
            decreases at - i,
        {
            out.push(bytes[i]);
            i = i + 1;
            proof {
                assert(bytes@.subrange(from as int, i as int) =~= bytes@.subrange(from as int, (i - 1) as int).push(
                    bytes@[i - 1],
                ));
            }
        }
        crate::format::push_bytes(&mut out, texts[k].as_slice());
        proof {
            let hs = holes@.skip(k as int);
            let ts = tv.skip(k as int);
            assert(hs[0] == holes@[k as int]);
            assert(ts[0] == texts@[k as int]@);
            assert(hs.drop_first() =~= holes@.skip(k + 1));
            assert(ts.drop_first() =~= tv.skip(k + 1));
            assert(out@ =~= before + bytes@.subrange(from as int, at as int) + ts[0]);
        }
        from = at;
        k = k + 1;
    }
    let ghost before = out@;
    let mut i: usize = from;
    while i < bytes.len()
        invariant
            from <= i <= bytes@.len(),
            out@ == before + bytes@.subrange(from as int, i as int),
        decreases bytes@.len() - i,
    {
        out.push(bytes[i]);
        i = i + 1;
        proof {
            assert(bytes@.subrange(from as int, i as int) =~= bytes@.subrange(from as int, (i - 1) as int).push(
                bytes@[i - 1],
            ));
        }
    }
    proof {
        assert(holes@.skip(k as int).len() == 0);
        assert(out@ =~= before + spliced(bytes@, holes@.skip(k as int), tv.skip(k as int), from as int));
    }
    out
}

/// Formats one record into a line.
pub fn format_record(record: &[u8], f: &LineFormat, thread_id: u64, thread_name: &[u8]) -> (line: Line)
    ensures
        line_matches(line, record@, *f, thread_id, thread_name@),
{
    let level = if record.len() > 4 {
        match Level::from_u8(record[4]) {
            Some(l) => l,
            None => Level::Error,
        }
    } else {
        Level::Error
    };
    let mut bytes: Vec<u8> = Vec::new();
    let mut holes: Vec<FloatHole> = Vec::new();
    decode_and_format(
        record,
        f.timezone_offset,
        &f.calibration,
        f.line_pattern,
        thread_id,
        thread_name,
        f.sites,
        f.files,
        &mut bytes,
        &mut holes,
    );
    Line { bytes, level, holes }
}

/// One drain pass over a ring: every record the pass delivers (see
/// [`RingBuffer::drain_records`]) formatted into a line, in order, with the
/// ring's producer identity. Returns whether any record was delivered.
pub fn drain_ring(ring: &mut RingBuffer, f: &LineFormat) -> (r: (bool, Vec<Line>))
    requires
        old(ring).inv(),
        old(ring).spec_head() + 0x10000 <= u64::MAX,
        old(ring).spec_head_cache() + 0x10000 <= u64::MAX,
    ensures
        ({
            let p = drain_pass(
                old(ring).spec_data(),
                old(ring).spec_capacity() as int,
                old(ring).spec_tail(),
                old(ring).spec_head_cache(),
                old(ring).spec_head(),
            );
            &&& r.1@.len() == p.0.len()
            &&& forall|i: int| 0 <= i < p.0.len() ==> #[trigger] line_matches(
                r.1@[i],
                p.0[i],
                *f,
                old(ring).spec_thread_id(),
                encode_utf8(old(ring).spec_thread_name()),
            )
            &&& r.0 == (p.0.len() > 0)
            &&& final(ring).spec_tail() == p.1
            &&& final(ring).spec_head_cache() == p.2
        }),
        final(ring).spec_data() == old(ring).spec_data(),
        final(ring).spec_head() == old(ring).spec_head(),
        final(ring).spec_tail_cache() == old(ring).spec_tail_cache(),
        final(ring).spec_capacity() == old(ring).spec_capacity(),
        final(ring).spec_mask() == old(ring).spec_mask(),
        final(ring).spec_live() == old(ring).spec_live(),
        final(ring).spec_thread_id() == old(ring).spec_thread_id(),
        final(ring).spec_thread_name() == old(ring).spec_thread_name(),
        final(ring).spec_serial() == old(ring).spec_serial(),
        final(ring).spec_helper_reserved() == old(ring).spec_helper_reserved(),
        final(ring).spec_recyclable() == old(ring).spec_recyclable(),
        final(ring).spec_recycled() == old(ring).spec_recycled(),
        final(ring).spec_handed_off() == old(ring).spec_handed_off(),
        old(ring).wf() ==> final(ring).wf(),
        old(ring).wf() ==> drain_pass(
            old(ring).spec_data(),
            old(ring).spec_capacity() as int,
            old(ring).spec_tail(),
            old(ring).spec_head_cache(),
            old(ring).spec_head(),
        ).0 + final(ring).pending() == old(ring).pending(),
{
    let thread_id = ring.thread_id();
    let name = ring.thread_name();
    let name_bytes = name.as_str().as_bytes();
    let (had_work, records) = ring.drain_records();
    let mut lines: Vec<Line> = Vec::new();
    let mut i: usize = 0;
    while i < records.len()
        invariant
            i <= records@.len(),
            lines@.len() == i,
            name_bytes@ == encode_utf8(old(ring).spec_thread_name()),
            thread_id == old(ring).spec_thread_id(),
            forall|k: int| 0 <= k < i ==> #[trigger] line_matches(
                lines@[k],
                records@[k]@,
                *f,
                thread_id,
                name_bytes@,
            ),
        decreases records@.len() - i,
    {
        let line = format_record(records[i].as_slice(), f, thread_id, name_bytes);
        lines.push(line);
        i = i + 1;
    }
    proof {
        let p = drain_pass(
            old(ring).spec_data(),
            old(ring).spec_capacity() as int,
            old(ring).spec_tail(),
            old(ring).spec_head_cache(),
            old(ring).spec_head(),
        );
        assert forall|k: int| 0 <= k < p.0.len() implies #[trigger] line_matches(
            lines@[k],
            p.0[k],
            *f,
            old(ring).spec_thread_id(),
            encode_utf8(old(ring).spec_thread_name()),
        ) by {
            assert(records_view(records@)[k] == records@[k]@);
        }
    }
    (had_work, lines)
}

/// A drain pass that starts caught up with its cached head delivers every
/// pending record, oldest first.
pub proof fn law_caught_up_pass_delivers_pending(ring: RingBuffer)
    requires
        ring.wf(),
        ring.spec_tail() == ring.spec_head_cache(),
    ensures
        drain_pass(
            ring.spec_data(),
            ring.spec_capacity() as int,
            ring.spec_tail(),
            ring.spec_head_cache(),
            ring.spec_head(),
        ).0 == ring.pending(),
{
    let d = ring.spec_data();
    let cap = ring.spec_capacity() as int;
    let t = ring.spec_tail() as int;
    let h = ring.spec_head() as int;
    lemma_chain_concat(d, cap, t, t, h);
    if t < h {
        lemma_walk_chain(d, cap, t, h);
    }
}

/// What a producer writes into a drained ring, the next drain pass hands
/// back: exactly that record.
pub proof fn law_written_record_is_drained(before: RingBuffer, after: RingBuffer, record: Seq<u8>)
    requires
        before.wf(),
        before.pending().len() == 0,
        before.spec_tail() == before.spec_head_cache(),
        after.wf(),
        after.pending() == before.pending().push(record),
        after.spec_tail() == before.spec_tail(),
        after.spec_head_cache() == before.spec_head_cache(),
    ensures
        drain_pass(
            after.spec_data(),
            after.spec_capacity() as int,
            after.spec_tail(),
            after.spec_head_cache(),
            after.spec_head(),
        ).0 == seq![record],
{
    law_caught_up_pass_delivers_pending(after);
    assert(before.pending().push(record) =~= seq![record]);
}

/// A pass over a ring with nothing pending delivers nothing: once a pass
/// has drained what was written, draining again emits no record twice.
pub proof fn law_second_pass_delivers_nothing(ring: RingBuffer)
    requires
        ring.wf(),
        ring.pending().len() == 0,
    ensures
        drain_pass(
            ring.spec_data(),
            ring.spec_capacity() as int,
            ring.spec_tail(),
            ring.spec_head_cache(),
            ring.spec_head(),
        ).0.len() == 0,
{
    let d = ring.spec_data();
    let cap = ring.spec_capacity() as int;
    let t = ring.spec_tail() as int;
    let hc = ring.spec_head_cache() as int;
    let h = ring.spec_head() as int;
    lemma_chain_concat(d, cap, t, hc, h);
    if t == hc {
        law_caught_up_pass_delivers_pending(ring);
    } else {
        lemma_walk_chain(d, cap, t, hc);
    }
}

// ---------------------------------------------------------------------------
// Byte-FIFO backends
// ---------------------------------------------------------------------------

/// The records of the staged byte stream `s` from `pos` on, and where the
/// unconsumed tail starts. A complete log record is taken whole; an
/// end-of-buffer filler is skipped; a frame with a bad version, type or
/// size is skipped one byte at a time to resynchronise (a filler that frames
/// no bytes counts as bad); an incomplete frame stops the walk and stays
/// staged for the next poll.
pub open spec fn fifo_walk(s: Seq<u8>, pos: int) -> (Seq<Seq<u8>>, int)
    decreases s.len() - pos,
{
    if pos < 0 || s.len() - pos < HEADER_SIZE {
        (Seq::empty(), pos)
    } else {
        let rectype = s[pos + 1];
        let total = from_le16(s.subrange(pos + 2, pos + 4)) as int;
        if rectype == END_OF_BUFFER && total > 0 {
            if pos + total > s.len() {
                (Seq::empty(), pos)
            } else {
                fifo_walk(s, pos + total)
            }
        } else if s[pos] != VERSION || rectype != LOG_RECORD || total < HEADER_SIZE {
            fifo_walk(s, pos + 1)
        } else if pos + total > s.len() {
            (Seq::empty(), pos)
        } else {
            let r = fifo_walk(s, pos + total);
            (seq![s.subrange(pos, pos + total)] + r.0, r.1)
        }
    }
}

/// Formats the complete records staged from a byte FIFO into lines, in
/// order (see [`fifo_walk`]), and keeps the incomplete tail staged.
/// Returns whether any record was formatted.
pub fn drain_staging(staging: &mut Vec<u8>, f: &LineFormat, thread_id: u64, thread_name: &[u8]) -> (r: (bool, Vec<Line>))
    ensures
        ({
            let (records, end) = fifo_walk(old(staging)@, 0);
            &&& r.1@.len() == records.len()
            &&& forall|i: int| 0 <= i < records.len() ==> #[trigger] line_matches(
                r.1@[i],
                records[i],
                *f,
                thread_id,
                thread_name@,
            )
            &&& r.0 == (records.len() > 0)
            &&& 0 <= end <= old(staging)@.len()
            &&& final(staging)@ == old(staging)@.subrange(end, old(staging)@.len() as int)
        }),
{
    let ghost s = staging@;
    let ghost target = fifo_walk(s, 0);
    let n = staging.len();
    let mut pos: usize = 0;
    let mut lines: Vec<Line> = Vec::new();
    let ghost mut done: Seq<Seq<u8>> = Seq::empty();
    while n - pos >= HEADER_SIZE
        invariant_except_break
            target.0 == done + fifo_walk(s, pos as int).0,
            target.1 == fifo_walk(s, pos as int).1,
        invariant
            staging@ == s,
            n == s.len(),
            pos <= n,
            lines@.len() == done.len(),
            forall|i: int| 0 <= i < done.len() ==> #[trigger] line_matches(lines@[i], done[i], *f, thread_id, thread_name@),
        ensures
            target.0 == done,
            target.1 == pos,
        decreases n - pos,
    {
        let version = staging[pos];
        let rectype = staging[pos + 1];
        let total = (staging[pos + 2] as usize) + 256 * (staging[pos + 3] as usize);
        proof {
            assert(s.subrange(pos + 2, pos + 4)[0] == s[pos + 2]);
            assert(s.subrange(pos + 2, pos + 4)[1] == s[pos + 3]);
            assert(total == from_le16(s.subrange(pos + 2, pos + 4)));
        }
        if rectype == END_OF_BUFFER && total > 0 {
            if total > n - pos {
                proof {
                    assert(done + Seq::<Seq<u8>>::empty() =~= done);
                }
                break;
            }
            pos = pos + total;
            continue;
        }
        if version != VERSION || rectype != LOG_RECORD || total < HEADER_SIZE {
            pos = pos + 1;
            continue;
        }
        if total > n - pos {
            proof {
                assert(done + Seq::<Seq<u8>>::empty() =~= done);
            }
            break;
        }
        let record = &staging.as_slice()[pos..pos + total];
        let line = format_record(record, f, thread_id, thread_name);
        lines.push(line);
        proof {
            let old_done = done;
            done = done.push(record@);
            assert(old_done + (seq![record@] + fifo_walk(s, pos + total).0) =~= done + fifo_walk(s, pos + total).0);
        }
        pos = pos + total;
    }
    proof {
        if n - pos < HEADER_SIZE {
            assert(done + Seq::<Seq<u8>>::empty() =~= done);
        }
    }
    let rest = crate::ring::copy_range(staging, pos, n - pos);
    *staging = rest;
    (lines.len() > 0, lines)
}

/// The bytes of `records` back to back, in order.
pub open spec fn stream(records: Seq<Seq<u8>>) -> Seq<u8>
    decreases records.len(),
{
    if records.len() == 0 {
        Seq::empty()
    } else {
        records[0] + stream(records.drop_first())
    }
}

/// A staged tail that does not hold a whole frame yet: shorter than a
/// header, or a log-record header whose size runs past the bytes staged.
pub open spec fn incomplete_frame(t: Seq<u8>) -> bool {
    ||| t.len() < HEADER_SIZE
    ||| (t[0] == VERSION && t[1] == LOG_RECORD && from_le16(t.subrange(2, 4)) > t.len())
}

proof fn lemma_fifo_walk_shift(a: Seq<u8>, b: Seq<u8>, p: int)
    requires
        0 <= p,
    ensures
        fifo_walk(a + b, a.len() + p) == (fifo_walk(b, p).0, a.len() + fifo_walk(b, p).1),
    decreases b.len() - p,
{
    let s = a + b;
    let q = a.len() + p;
    if b.len() - p >= HEADER_SIZE {
        assert(s[q] == b[p]);
        assert(s[q + 1] == b[p + 1]);
        assert(s.subrange(q + 2, q + 4) =~= b.subrange(p + 2, p + 4));
        let total = from_le16(b.subrange(p + 2, p + 4)) as int;
        if b[p + 1] == END_OF_BUFFER && total > 0 {
            if p + total <= b.len() {
                lemma_fifo_walk_shift(a, b, p + total);
            }
        } else if b[p] != VERSION || b[p + 1] != LOG_RECORD || total < HEADER_SIZE {
            lemma_fifo_walk_shift(a, b, p + 1);
        } else if p + total <= b.len() {
            lemma_fifo_walk_shift(a, b, p + total);
            assert(s.subrange(q, q + total) =~= b.subrange(p, p + total));
        }
    }
}

/// What a byte FIFO hands the drain is formatted record by record: when
/// the staged bytes are whole log records back to back, followed by at
/// most the start of another, the drain takes exactly those records, in
/// order, and keeps only the unfinished one staged.
pub proof fn law_staged_records_come_back_whole(records: Seq<Seq<u8>>, tail: Seq<u8>)
    requires
        forall|i: int| 0 <= i < records.len() ==> crate::ring::is_record_frame(#[trigger] records[i]),
        incomplete_frame(tail),
    ensures
        fifo_walk(stream(records) + tail, 0) == (records, stream(records).len() as int),
    decreases records.len(),
{
    if records.len() == 0 {
        assert(stream(records) + tail =~= tail);
        if tail.len() >= HEADER_SIZE {
            assert(tail.subrange(0, 4).subrange(2, 4) =~= tail.subrange(2, 4));
        }
    } else {
        let r0 = records[0];
        let rest = records.drop_first();
        assert forall|i: int| 0 <= i < rest.len() implies crate::ring::is_record_frame(#[trigger] rest[i]) by {
            assert(rest[i] == records[i + 1]);
        }
        law_staged_records_come_back_whole(rest, tail);
        let s = stream(records) + tail;
        assert(s =~= r0 + (stream(rest) + tail));
        lemma_fifo_walk_shift(r0, stream(rest) + tail, 0);
        assert(s.subrange(2, 4) =~= r0.subrange(2, 4));
        assert(s.subrange(0, r0.len() as int) =~= r0);
        assert(seq![r0] + rest =~= records);
    }
}

// ---------------------------------------------------------------------------
// Per-ring decisions of a poll pass
// ---------------------------------------------------------------------------

/// Whether a pass drains a ring through a list entry stamped `entry_serial`:
/// not when the ring was re-registered since (the next sync reconciles the
/// entry), and not while a blocked producer has reserved it to format it
/// itself.
pub fn should_drain(ring: &RingBuffer, entry_serial: u64) -> (b: bool)
    ensures
        b == (ring.spec_serial() == entry_serial && !ring.spec_helper_reserved()),
{
    ring.serial() == entry_serial && !ring.helper_reserved()
}

/// Whether a drained ring is retired (unregistered and, if pool-backed,
/// recycled): it was handed off, is not reserved by a helper, is still the
/// incarnation of the list entry, and has been drained completely.
pub fn should_retire(ring: &RingBuffer, entry_serial: u64) -> (b: bool)
    ensures
        b == (ring.spec_handed_off() && !ring.spec_helper_reserved() && ring.spec_serial() == entry_serial
            && ring.spec_head() == ring.spec_tail()),
{
    ring.handed_off() && !ring.helper_reserved() && ring.serial() == entry_serial && ring.head() == ring.tail()
}

// ---------------------------------------------------------------------------
// Reconciling the drain's ring list with the registry
// ---------------------------------------------------------------------------

/// What a sync needs to know of a registered ring.
#[derive(Clone, Copy, Debug, PartialEq, Eq, Structural)]
pub struct RegSnap {
    pub live: bool,
    pub helper_reserved: bool,
    pub serial: u64,
}

/// What a sync needs to know of an entry of the drain's list: where its
/// ring stands in the registry (if it is there), and whether its ring is
/// live or reserved.
#[derive(Clone, Copy, Debug, PartialEq, Eq, Structural)]
pub struct LocalSnap {
    pub reg_index: Option<usize>,
    pub live: bool,
    pub helper_reserved: bool,
}

/// A ring stays for this sync cycle while its producer is live or a helper
/// has reserved it.
pub open spec fn keeps(live: bool, helper_reserved: bool) -> bool {
    live || helper_reserved
}

/// Registry positions `< n` whose rings are closing down.
pub open spec fn finalize_reg(reg: Seq<RegSnap>, n: int) -> Seq<usize>
    decreases n,
{
    if n <= 0 {
        Seq::empty()
    } else {
        finalize_reg(reg, n - 1) + (if !keeps(reg[n - 1].live, reg[n - 1].helper_reserved) {
            seq![(n - 1) as usize]
        } else {
            Seq::empty()
        })
    }
}

/// List positions `< n` whose rings are closing down and no longer
/// registered (registered and exited between two syncs).
pub open spec fn finalize_local(local: Seq<LocalSnap>, n: int) -> Seq<usize>
    decreases n,
{
    if n <= 0 {
        Seq::empty()
    } else {
        finalize_local(local, n - 1) + (if local[n - 1].reg_index is None && !keeps(local[n - 1].live, local[n - 1].helper_reserved) {
            seq![(n - 1) as usize]
        } else {
            Seq::empty()
        })
    }
}

/// Whether a registry position is kept.
pub open spec fn reg_keeps(reg: Seq<RegSnap>, j: int) -> bool {
    0 <= j < reg.len() && keeps(reg[j].live, reg[j].helper_reserved)
}

/// List positions `< n` that stay, each with its ring's current serial.
pub open spec fn kept_local(reg: Seq<RegSnap>, local: Seq<LocalSnap>, n: int) -> Seq<(usize, u64)>
    decreases n,
{
    if n <= 0 {
        Seq::empty()
    } else {
        kept_local(reg, local, n - 1) + match local[n - 1].reg_index {
            Some(j) => if reg_keeps(reg, j as int) {
                seq![((n - 1) as usize, reg[j as int].serial)]
            } else {
                Seq::empty()
            },
            None => Seq::empty(),
        }
    }
}

/// Whether one of the first `m` list entries refers to registry position
/// `j`.
pub open spec fn referred(local: Seq<LocalSnap>, j: int, m: int) -> bool
    decreases m,
{
    if m <= 0 {
        false
    } else {
        referred(local, j, m - 1) || local[m - 1].reg_index == Some(j as usize)
    }
}

/// Registry positions `< n` that are kept and not on the list yet, each
/// with its serial, in registry order.
pub open spec fn added_reg(reg: Seq<RegSnap>, local: Seq<LocalSnap>, n: int) -> Seq<(usize, u64)>
    decreases n,
{
    if n <= 0 {
        Seq::empty()
    } else {
        added_reg(reg, local, n - 1) + (if reg_keeps(reg, n - 1) && !referred(local, n - 1, local.len() as int) {
            seq![((n - 1) as usize, reg[n - 1].serial)]
        } else {
            Seq::empty()
        })
    }
}

/// The outcome of reconciling the drain's list with the registry.
pub struct SyncPlan {
    /// Registry positions of the rings to drain one last time.
    pub finalize_registry: Vec<usize>,
    /// List positions of unregistered rings to drain one last time.
    pub finalize_local: Vec<usize>,
    /// List positions that stay, with their rings' current serials; the new
    /// list starts with these, in list order.
    pub keep_local: Vec<(usize, u64)>,
    /// Registry positions to append to the list, with their serials.
    pub add_registry: Vec<(usize, u64)>,
    /// Which registry entries stay registered.
    pub retain: Vec<bool>,
}

fn plan_finalize_reg(reg: &[RegSnap]) -> (r: Vec<usize>)
    ensures
        r@ == finalize_reg(reg@, reg@.len() as int),
{
    let mut r: Vec<usize> = Vec::new();
    let mut j: usize = 0;
    while j < reg.len()
        invariant
            j <= reg@.len(),
            r@ == finalize_reg(reg@, j as int),
        decreases reg@.len() - j,
    {
        if !(reg[j].live || reg[j].helper_reserved) {
            r.push(j);
        }
        j = j + 1;
        proof {
            assert(r@ =~= finalize_reg(reg@, j as int));
        }
    }
    r
}

fn plan_finalize_local(local: &[LocalSnap]) -> (r: Vec<usize>)
    ensures
        r@ == finalize_local(local@, local@.len() as int),
{
    let mut r: Vec<usize> = Vec::new();
    let mut i: usize = 0;
    while i < local.len()
        invariant
            i <= local@.len(),
            r@ == finalize_local(local@, i as int),
        decreases local@.len() - i,
    {
        if local[i].reg_index.is_none() && !(local[i].live || local[i].helper_reserved) {
            r.push(i);
        }
        i = i + 1;
        proof {
            assert(r@ =~= finalize_local(local@, i as int));
        }
    }
    r
}

fn plan_kept_local(reg: &[RegSnap], local: &[LocalSnap]) -> (r: Vec<(usize, u64)>)
    ensures
        r@ == kept_local(reg@, local@, local@.len() as int),
{
    let mut r: Vec<(usize, u64)> = Vec::new();
    let mut i: usize = 0;
    while i < local.len()
        invariant
            i <= local@.len(),
            r@ == kept_local(reg@, local@, i as int),
        decreases local@.len() - i,
    {
        match local[i].reg_index {
            Some(j) => {
                if j < reg.len() && (reg[j].live || reg[j].helper_reserved) {
                    r.push((i, reg[j].serial));
                }
            },
            None => {},
        }
        i = i + 1;
        proof {
            assert(r@ =~= kept_local(reg@, local@, i as int));
        }
    }
    r
}

fn is_referred(local: &[LocalSnap], j: usize) -> (b: bool)
    ensures
        b == referred(local@, j as int, local@.len() as int),
{
    let mut i: usize = 0;
    let mut found = false;
    while i < local.len()
        invariant
            i <= local@.len(),
            found == referred(local@, j as int, i as int),
        decreases local@.len() - i,
    {
        match local[i].reg_index {
            Some(k) => {
                if k == j {
                    found = true;
                }
            },
            None => {},
        }
        i = i + 1;
    }
    found
}

fn plan_added(reg: &[RegSnap], local: &[LocalSnap]) -> (r: Vec<(usize, u64)>)
    ensures
        r@ == added_reg(reg@, local@, reg@.len() as int),
{
    let mut r: Vec<(usize, u64)> = Vec::new();
    let mut j: usize = 0;
    while j < reg.len()
        invariant
            j <= reg@.len(),
            r@ == added_reg(reg@, local@, j as int),
        decreases reg@.len() - j,
    {
        if (reg[j].live || reg[j].helper_reserved) && !is_referred(local, j) {
            r.push((j, reg[j].serial));
        }
        j = j + 1;
        proof {
            assert(r@ =~= added_reg(reg@, local@, j as int));
        }
    }
    r
}

/// Reconciles the drain's ring list with the registry. Rings that are
/// neither live nor reserved are closing down: those still registered, and
/// those on the list that are no longer registered, get one last drain.
/// List entries whose rings are still registered and kept stay, with their
/// serials refreshed (a recycled segment's new incarnation); all other
/// entries leave the list. Kept registered rings not on the list yet are
/// appended in registry order, and closing rings leave the registry.
pub fn plan_sync(reg: &[RegSnap], local: &[LocalSnap]) -> (p: SyncPlan)
    ensures
        p.finalize_registry@ == finalize_reg(reg@, reg@.len() as int),
        p.finalize_local@ == finalize_local(local@, local@.len() as int),
        p.keep_local@ == kept_local(reg@, local@, local@.len() as int),
        p.add_registry@ == added_reg(reg@, local@, reg@.len() as int),
        p.retain@.len() == reg@.len(),
        forall|j: int| 0 <= j < reg@.len() ==> #[trigger] p.retain@[j] == keeps(reg@[j].live, reg@[j].helper_reserved),
{
    let mut retain: Vec<bool> = Vec::new();
    let mut j: usize = 0;
    while j < reg.len()
        invariant
            j <= reg@.len(),
            retain@.len() == j,
            forall|k: int| 0 <= k < j ==> #[trigger] retain@[k] == keeps(reg@[k].live, reg@[k].helper_reserved),
        decreases reg@.len() - j,
    {
        retain.push(reg[j].live || reg[j].helper_reserved);
        j = j + 1;
    }
    SyncPlan {
        finalize_registry: plan_finalize_reg(reg),
        finalize_local: plan_finalize_local(local),
        keep_local: plan_kept_local(reg, local),
        add_registry: plan_added(reg, local),
        retain,
    }
}

/// The registry positions of the drain's list after a sync: the entries
/// that stay, then the ones appended.
pub open spec fn synced_regs(reg: Seq<RegSnap>, local: Seq<LocalSnap>) -> Seq<usize> {
    kept_local(reg, local, local.len() as int).map_values(|x: (usize, u64)| local[x.0 as int].reg_index.unwrap())
        + added_reg(reg, local, reg.len() as int).map_values(|x: (usize, u64)| x.0)
}

/// No two entries of the drain's list stand for the same registry position.
pub open spec fn distinct_refs(local: Seq<LocalSnap>) -> bool {
    forall|a: int, b: int|
        0 <= a < local.len() && 0 <= b < local.len() && a != b && (#[trigger] local[a]).reg_index is Some
            ==> local[a].reg_index != (#[trigger] local[b]).reg_index
}

proof fn lemma_referred(local: Seq<LocalSnap>, j: int, m: int)
    requires
        0 <= m <= local.len(),
    ensures
        referred(local, j, m) <==> exists|i: int| 0 <= i < m && (#[trigger] local[i]).reg_index == Some(j as usize),
    decreases m,
{
    if m > 0 {
        lemma_referred(local, j, m - 1);
        if referred(local, j, m - 1) {
            let i = choose|i: int| 0 <= i < m - 1 && (#[trigger] local[i]).reg_index == Some(j as usize);
            assert(0 <= i < m && local[i].reg_index == Some(j as usize));
        }
        if local[m - 1].reg_index == Some(j as usize) {
            assert(0 <= m - 1 < m && local[m - 1].reg_index == Some(j as usize));
        }
    }
}

proof fn lemma_kept_local(reg: Seq<RegSnap>, local: Seq<LocalSnap>, n: int)
    requires
        0 <= n <= local.len(),
        local.len() <= usize::MAX,
    ensures
        forall|k: int| #![trigger kept_local(reg, local, n)[k]] 0 <= k < kept_local(reg, local, n).len() ==> {
            let x = kept_local(reg, local, n)[k];
            &&& 0 <= x.0 < n
            &&& local[x.0 as int].reg_index is Some
            &&& reg_keeps(reg, local[x.0 as int].reg_index.unwrap() as int)
        },
        forall|k1: int, k2: int|
            0 <= k1 < k2 < kept_local(reg, local, n).len() ==> (#[trigger] kept_local(reg, local, n)[k1]).0
                < (#[trigger] kept_local(reg, local, n)[k2]).0,
        forall|i: int|
            0 <= i < n && (#[trigger] local[i]).reg_index is Some && reg_keeps(reg, local[i].reg_index.unwrap() as int)
                ==> exists|k: int| 0 <= k < kept_local(reg, local, n).len() && (#[trigger] kept_local(reg, local, n)[k]).0 == i,
    decreases n,
{
    if n > 0 {
        lemma_kept_local(reg, local, n - 1);
        let prev = kept_local(reg, local, n - 1);
        let cur = kept_local(reg, local, n);
        assert forall|i: int|
            0 <= i < n && (#[trigger] local[i]).reg_index is Some && reg_keeps(reg, local[i].reg_index.unwrap() as int)
            implies exists|k: int| 0 <= k < cur.len() && (#[trigger] cur[k]).0 == i by {
            if i < n - 1 {
                let k = choose|k: int| 0 <= k < prev.len() && (#[trigger] prev[k]).0 == i;
                assert(cur[k] == prev[k]);
            } else {
                let j = local[i].reg_index.unwrap();
                assert(cur == prev + seq![(i as usize, reg[j as int].serial)]);
                assert(cur[prev.len() as int].0 == i);
            }
        }
    }
}

proof fn lemma_added_reg(reg: Seq<RegSnap>, local: Seq<LocalSnap>, n: int)
    requires
        0 <= n <= reg.len(),
        reg.len() <= usize::MAX,
    ensures
        forall|k: int| #![trigger added_reg(reg, local, n)[k]] 0 <= k < added_reg(reg, local, n).len() ==> {
            let x = added_reg(reg, local, n)[k];
            &&& 0 <= x.0 < n
            &&& reg_keeps(reg, x.0 as int)
            &&& !referred(local, x.0 as int, local.len() as int)
        },
        forall|k1: int, k2: int|
            0 <= k1 < k2 < added_reg(reg, local, n).len() ==> (#[trigger] added_reg(reg, local, n)[k1]).0
                < (#[trigger] added_reg(reg, local, n)[k2]).0,
        forall|j: int|
            0 <= j < n && reg_keeps(reg, j) && !referred(local, j, local.len() as int)
                ==> exists|k: int| 0 <= k < added_reg(reg, local, n).len() && (#[trigger] added_reg(reg, local, n)[k]).0 == j,
    decreases n,
{
    if n > 0 {
        lemma_added_reg(reg, local, n - 1);
        let prev = added_reg(reg, local, n - 1);
        let cur = added_reg(reg, local, n);
        assert forall|j: int|
            0 <= j < n && reg_keeps(reg, j) && !referred(local, j, local.len() as int)
            implies exists|k: int| 0 <= k < cur.len() && (#[trigger] cur[k]).0 == j by {
            if j < n - 1 {
                let k = choose|k: int| 0 <= k < prev.len() && (#[trigger] prev[k]).0 == j;
                assert(cur[k] == prev[k]);
            } else {
                assert(cur == prev + seq![(j as usize, reg[j].serial)]);
                assert(cur[prev.len() as int].0 == j);
            }
        }
    }
}

/// A sync leaves every ring that stays on the drain's list exactly once:
/// when no two list entries stood for the same registry position, the
/// list after the sync holds each kept registry position once and nothing
/// else, and the rings the sync drains one last time are exactly the
/// registered ones that are closing down.
pub proof fn law_sync_lists_each_kept_ring_once(reg: Seq<RegSnap>, local: Seq<LocalSnap>)
    requires
        distinct_refs(local),
        reg.len() <= usize::MAX,
        local.len() <= usize::MAX,
    ensures
        synced_regs(reg, local).no_duplicates(),
        forall|j: int| 0 <= j < reg.len() ==> (synced_regs(reg, local).contains(j as usize) <==> reg_keeps(reg, j)),
        forall|x: usize| #[trigger] synced_regs(reg, local).contains(x) ==> reg_keeps(reg, x as int),
        forall|j: usize| #[trigger] finalize_reg(reg, reg.len() as int).contains(j) <==> j < reg.len() && !reg_keeps(reg, j as int),
{
    let kl = kept_local(reg, local, local.len() as int);
    let ad = added_reg(reg, local, reg.len() as int);
    let a = kl.map_values(|x: (usize, u64)| local[x.0 as int].reg_index.unwrap());
    let b = ad.map_values(|x: (usize, u64)| x.0);
    let s = synced_regs(reg, local);
    lemma_kept_local(reg, local, local.len() as int);
    lemma_added_reg(reg, local, reg.len() as int);
    lemma_finalize_reg(reg, reg.len() as int);
    assert(s == a + b);
    assert forall|p: int| 0 <= p < s.len() implies reg_keeps(reg, s[p] as int) by {
        if p < a.len() {
            assert(kl[p] == kl[p]);
        } else {
            assert(ad[p - a.len()] == ad[p - a.len()]);
        }
    }
    assert forall|x: usize| #[trigger] s.contains(x) implies reg_keeps(reg, x as int) by {
        let p = choose|p: int| 0 <= p < s.len() && s[p] == x;
    }
    assert forall|p: int, q: int| 0 <= p < s.len() && 0 <= q < s.len() && p != q implies s[p] != s[q] by {
        if p < a.len() && q < a.len() {
            let ip = kl[p].0 as int;
            let iq = kl[q].0 as int;
            if p < q {
                assert(kl[p].0 < kl[q].0);
            } else {
                assert(kl[q].0 < kl[p].0);
            }
            assert(local[ip].reg_index is Some);
            assert(local[ip].reg_index != local[iq].reg_index);
        } else if p >= a.len() && q >= a.len() {
            let kp = p - a.len();
            let kq = q - a.len();
            if kp < kq {
                assert(ad[kp].0 < ad[kq].0);
            } else {
                assert(ad[kq].0 < ad[kp].0);
            }
        } else {
            let (pa, qb) = if p < a.len() { (p, q - a.len()) } else { (q, p - a.len()) };
            let i = kl[pa].0 as int;
            let j = ad[qb].0;
            assert(!referred(local, j as int, local.len() as int));
            lemma_referred(local, j as int, local.len() as int);
            if local[i].reg_index.unwrap() == j {
                assert(local[i].reg_index == Some(j));
                assert(false);
            }
        }
    }
    assert forall|j: int| 0 <= j < reg.len() && reg_keeps(reg, j) implies s.contains(j as usize) by {
        lemma_referred(local, j, local.len() as int);
        if referred(local, j, local.len() as int) {
            let i = choose|i: int| 0 <= i < local.len() && (#[trigger] local[i]).reg_index == Some(j as usize);
            let k = choose|k: int| 0 <= k < kl.len() && (#[trigger] kl[k]).0 == i;
            assert(s[k] == j as usize);
        } else {
            let k = choose|k: int| 0 <= k < ad.len() && (#[trigger] ad[k]).0 == j;
            assert(s[a.len() + k] == j as usize);
        }
    }
}

/// A sync adds no ring that the drain's list already holds: when every
/// kept registry position is on the list (as after a previous sync with no
/// registration since), nothing is appended, and the list keeps every
/// entry whose ring is still registered and kept.
pub proof fn law_sync_adds_nothing_already_listed(reg: Seq<RegSnap>, local: Seq<LocalSnap>)
    requires
        reg.len() <= usize::MAX,
        local.len() <= usize::MAX,
        forall|j: int| 0 <= j < reg.len() && reg_keeps(reg, j) ==> referred(local, j, local.len() as int),
    ensures
        added_reg(reg, local, reg.len() as int).len() == 0,
        forall|i: int|
            0 <= i < local.len() && (#[trigger] local[i]).reg_index is Some && reg_keeps(
                reg,
                local[i].reg_index.unwrap() as int,
            ) ==> exists|k: int|
                0 <= k < kept_local(reg, local, local.len() as int).len() && (#[trigger] kept_local(
                    reg,
                    local,
                    local.len() as int,
                )[k]).0 == i,
{
    lemma_added_reg(reg, local, reg.len() as int);
    lemma_kept_local(reg, local, local.len() as int);
    let ad = added_reg(reg, local, reg.len() as int);
    if ad.len() > 0 {
        let x = ad[0];
        assert(reg_keeps(reg, x.0 as int));
        assert(!referred(local, x.0 as int, local.len() as int));
    }
}

proof fn lemma_finalize_local(local: Seq<LocalSnap>, n: int)
    requires
        0 <= n <= local.len(),
        local.len() <= usize::MAX,
    ensures
        forall|x: usize| #[trigger] finalize_local(local, n).contains(x) ==> {
            &&& x < n
            &&& local[x as int].reg_index is None
            &&& !keeps(local[x as int].live, local[x as int].helper_reserved)
        },
    decreases n,
{
    if n > 0 {
        lemma_finalize_local(local, n - 1);
        let prev = finalize_local(local, n - 1);
        let cur = finalize_local(local, n);
        assert forall|x: usize| #[trigger] cur.contains(x) implies {
            &&& x < n
            &&& local[x as int].reg_index is None
            &&& !keeps(local[x as int].live, local[x as int].helper_reserved)
        } by {
            let q = choose|q: int| 0 <= q < cur.len() && cur[q] == x;
            if q < prev.len() {
                assert(prev[q] == cur[q]);
                assert(prev.contains(x));
            }
        }
    }
}

/// A closing ring gets exactly one last drain: the list entries a sync
/// finalizes are only ones whose rings are no longer registered and are
/// closing down, so none of them is also finalized through its registry
/// position.
pub proof fn law_no_ring_finalized_twice(reg: Seq<RegSnap>, local: Seq<LocalSnap>)
    requires
        reg.len() <= usize::MAX,
        local.len() <= usize::MAX,
    ensures
        forall|x: usize| #[trigger] finalize_local(local, local.len() as int).contains(x) ==> {
            &&& x < local.len()
            &&& local[x as int].reg_index is None
            &&& !keeps(local[x as int].live, local[x as int].helper_reserved)
        },
        forall|x: usize, j: usize|
            #[trigger] finalize_local(local, local.len() as int).contains(x) && #[trigger] finalize_reg(
                reg,
                reg.len() as int,
            ).contains(j) ==> local[x as int].reg_index != Some(j),
{
    lemma_finalize_local(local, local.len() as int);
}

proof fn lemma_finalize_reg(reg: Seq<RegSnap>, n: int)
    requires
        0 <= n <= reg.len(),
        reg.len() <= usize::MAX,
    ensures
        forall|j: usize| #[trigger] finalize_reg(reg, n).contains(j) <==> j < n && !reg_keeps(reg, j as int),
    decreases n,
{
    if n > 0 {
        lemma_finalize_reg(reg, n - 1);
        let prev = finalize_reg(reg, n - 1);
        let cur = finalize_reg(reg, n);
        assert forall|j: usize| #[trigger] cur.contains(j) <==> j < n && !reg_keeps(reg, j as int) by {
            assert(prev.contains(j) <==> j < n - 1 && !reg_keeps(reg, j as int));
            if !keeps(reg[n - 1].live, reg[n - 1].helper_reserved) {
                assert(cur =~= prev.push((n - 1) as usize));
                if cur.contains(j) {
                    let p = choose|p: int| 0 <= p < cur.len() && cur[p] == j;
                    if p < prev.len() {
                        assert(prev[p] == cur[p]);
                    }
                }
                if j < n - 1 && !reg_keeps(reg, j as int) {
                    let p = choose|p: int| 0 <= p < prev.len() && prev[p] == j;
                    assert(cur[p] == j);
                }
                if j == n - 1 {
                    assert(cur[prev.len() as int] == j);
                }
            } else {
                assert(cur =~= prev);
            }
        }
    }
}

// ---------------------------------------------------------------------------
// The poll loop's schedule
// ---------------------------------------------------------------------------

/// Spin batch used when the drain is freshly idle or has just done work.
pub const SPIN_MIN: u32 = 8;
/// Upper bound on the spin batch; caps the worst-case wake-up latency.
pub const SPIN_CAP: u32 = 256;
/// The registry is re-scanned once every this many passes (a power of two,
/// so the free-running counter stays aligned across its wrap).
pub const SYNC_EVERY: u32 = 1024;

/// The drain loop's bookkeeping between passes.
#[derive(Clone, Copy, Debug, PartialEq, Eq, Structural)]
pub struct Schedule {
    /// The next idle spin batch.
    pub spin: u32,
    /// Free-running pass counter.
    pub since_sync: u32,
    /// Records were emitted since the sink was last flushed.
    pub dirty: bool,
    /// A segmented policy is active: the registry is re-synced every pass.
    pub segmented: bool,
}

/// What the loop does once a poll pass is over.
#[derive(Clone, Copy, Debug, PartialEq, Eq, Structural)]
pub struct PassEnd {
    /// Flush the sink now.
    pub flush: bool,
    /// Spin this many pause hints before the next pass (zero after a pass
    /// that found work).
    pub idle_spins: u32,
}

/// Passes between registry syncs.
pub open spec fn sync_every(segmented: bool) -> u32 {
    if segmented { 1 } else { SYNC_EVERY }
}

impl Schedule {
    /// The schedule of a fresh drain.
    pub fn new(segmented: bool) -> (s: Schedule)
        ensures
            s == (Schedule { spin: SPIN_MIN, since_sync: 0, dirty: false, segmented }),
    {
        Schedule { spin: SPIN_MIN, since_sync: 0, dirty: false, segmented }
    }

    /// Starts a pass: returns whether this pass re-syncs the registry (every
    /// pass under a segmented policy, otherwise once every [`SYNC_EVERY`]
    /// passes, starting with the first), and counts the pass.
    pub fn begin_pass(&mut self) -> (sync: bool)
        ensures
            sync == (old(self).since_sync % sync_every(old(self).segmented) == 0),
            *final(self) == (Schedule { since_sync: old(self).since_sync.wrapping_add(1), ..*old(self) }),
    {
        let every: u32 = if self.segmented { 1 } else { SYNC_EVERY };
        let mask = every - 1;
        let x = self.since_sync;
        proof {
            assert(x & 0u32 == x % 1) by (bit_vector);
            assert(x & 1023u32 == x % 1024) by (bit_vector);
        }
        let sync = (x & mask) == 0;
        self.since_sync = x.wrapping_add(1);
        sync
    }

    /// Ends a pass that found work (`had_work`) or not. Work resets the
    /// spin batch and marks the sink dirty, and the next pass starts at
    /// once. An idle pass flushes a dirty sink once, spins the current
    /// batch, and doubles the batch up to [`SPIN_CAP`].
    pub fn end_pass(&mut self, had_work: bool) -> (e: PassEnd)
        ensures
            had_work ==> e == (PassEnd { flush: false, idle_spins: 0 }) && *final(self) == (Schedule {
                spin: SPIN_MIN,
                dirty: true,
                ..*old(self)
            }),
            !had_work ==> e == (PassEnd { flush: old(self).dirty, idle_spins: old(self).spin }) && *final(self)
                == (Schedule {
                spin: if old(self).spin * 2 < SPIN_CAP { (old(self).spin * 2) as u32 } else { SPIN_CAP },
                dirty: false,
                ..*old(self)
            }),
    {
        if had_work {
            self.spin = SPIN_MIN;
            self.dirty = true;
            return PassEnd { flush: false, idle_spins: 0 };
        }
        let flush = self.dirty;
        self.dirty = false;
        let spins = self.spin;
        self.spin = if spins < SPIN_CAP / 2 { spins * 2 } else { SPIN_CAP };
        PassEnd { flush, idle_spins: spins }
    }
}

} // verus!

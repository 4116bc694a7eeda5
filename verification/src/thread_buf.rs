//! Per-thread producer state: the identity a producer registers with its
//! ring, and what a thread does when its segment is full.
use vstd::prelude::*;
use vstd::utf8::{encode_utf8, is_char_boundary};
use vstd::string::StringSliceAdditionalSpecFns;
use crate::builder::{Backpressure, TicklogError};

verus! {

/// Longest thread name kept, in bytes.
pub const MAX_THREAD_NAME_LEN: usize = 256;

/// The largest character boundary of `b` at or before `n`.
pub open spec fn boundary_at_most(b: Seq<u8>, n: int) -> int
    decreases n,
{
    if n <= 0 {
        0
    } else if is_char_boundary(b, n) {
        n
    } else {
        boundary_at_most(b, n - 1)
    }
}

/// The bytes of a thread name as registered: names longer than
/// [`MAX_THREAD_NAME_LEN`] bytes are cut at the last character boundary
/// that keeps them within it.
pub open spec fn shown_name(b: Seq<u8>) -> Seq<u8> {
    if b.len() > MAX_THREAD_NAME_LEN {
        b.subrange(0, boundary_at_most(b, MAX_THREAD_NAME_LEN as int))
    } else {
        b
    }
}

proof fn lemma_boundary_at_most_range(b: Seq<u8>, n: int)
    requires
        n >= 0,
    ensures
        0 <= boundary_at_most(b, n) <= n,
    decreases n,
{
    if n > 0 && !is_char_boundary(b, n) {
        lemma_boundary_at_most_range(b, n - 1);
    }
}

/// A registered thread name is never longer than [`MAX_THREAD_NAME_LEN`]
/// bytes, and is the start of the thread's own name.
pub proof fn law_shown_name_bounded(b: Seq<u8>)
    ensures
        shown_name(b).len() <= MAX_THREAD_NAME_LEN,
        shown_name(b) == b.subrange(0, shown_name(b).len() as int),
{
    if b.len() > MAX_THREAD_NAME_LEN {
        lemma_boundary_at_most_range(b, MAX_THREAD_NAME_LEN as int);
    }
    assert(shown_name(b) =~= b.subrange(0, shown_name(b).len() as int));
}

/// The name registered for a thread without one.
pub open spec fn unnamed() -> Seq<char> {
    seq!['<', 'u', 'n', 'n', 'a', 'm', 'e', 'd', '>']
}

/// The name a producer registers: its OS thread name, cut to at most
/// [`MAX_THREAD_NAME_LEN`] bytes on a character boundary, or `<unnamed>`.
pub fn thread_name_for(name: Option<&str>) -> (r: String)
    ensures
        match name {
            Some(n) => encode_utf8(r@) == shown_name(n.spec_bytes()),
            None => r@ == unnamed(),
        },
{
    match name {
        None => {
            let s = "<unnamed>";
            proof {
                reveal_strlit("<unnamed>");
            }
            s.to_owned()
        },
        Some(n) => {
            if n.as_bytes().len() <= MAX_THREAD_NAME_LEN {
                let r = n.to_owned();
                proof {
                    assert(r@ == n@);
                    assert(n.spec_bytes() == encode_utf8(n@));
                    assert(shown_name(n.spec_bytes()) == n.spec_bytes());
                }
                return r;
            }
            proof {
                vstd::utf8::encode_utf8_valid_utf8(n@);
            }
            let mut end: usize = MAX_THREAD_NAME_LEN;
            while !n.is_char_boundary(end)
                invariant
                    0 <= end <= MAX_THREAD_NAME_LEN,
                    MAX_THREAD_NAME_LEN < n.spec_bytes().len(),
                    vstd::utf8::valid_utf8(n.spec_bytes()),
                    boundary_at_most(n.spec_bytes(), MAX_THREAD_NAME_LEN as int) == boundary_at_most(
                        n.spec_bytes(),
                        end as int,
                    ),
                decreases end,
            {
                end = end - 1;
            }
            let (head, _tail) = n.split_at(end);
            head.to_owned()
        },
    }
}

/// The value of an unsigned decimal: an optional `+`, then at least one
/// digit, with no overflow.
pub open spec fn spec_parse_u64(s: Seq<u8>) -> Option<u64> {
    let body = digits_part(s);
    if body.len() == 0 || !all_digits(body) {
        None
    } else if dec_value(body, body.len() as int) > u64::MAX {
        None
    } else {
        Some(dec_value(body, body.len() as int) as u64)
    }
}

/// `s` without its leading `+`, if any.
pub open spec fn digits_part(s: Seq<u8>) -> Seq<u8> {
    if s.len() > 0 && s[0] == 43 { s.drop_first() } else { s }
}

/// Every byte of `b` is a decimal digit.
pub open spec fn all_digits(b: Seq<u8>) -> bool {
    forall|i: int| 0 <= i < b.len() ==> 48 <= #[trigger] b[i] <= 57
}

/// The value of the first `n` decimal digits of `s`.
pub open spec fn dec_value(s: Seq<u8>, n: int) -> nat
    decreases n,
{
    if n <= 0 {
        0
    } else {
        dec_value(s, n - 1) * 10 + (s[n - 1] - 48) as nat
    }
}

proof fn lemma_dec_value_grows(s: Seq<u8>, n: int, m: int)
    requires
        0 <= n <= m <= s.len(),
        all_digits(s),
    ensures
        dec_value(s, n) <= dec_value(s, m),
    decreases m - n,
{
    if n < m {
        lemma_dec_value_grows(s, n, m - 1);
    }
}

proof fn lemma_parse_rejects(s: Seq<u8>, body: Seq<u8>, k: int)
    requires
        body == digits_part(s),
        0 <= k < body.len(),
        !(48 <= body[k] <= 57),
    ensures
        spec_parse_u64(s) is None,
{
    assert(!all_digits(body));
}

/// Parses an unsigned decimal the way `str::parse::<u64>` does.
pub fn parse_u64(s: &[u8]) -> (r: Option<u64>)
    ensures
        r == spec_parse_u64(s@),
{
    let start: usize = if s.len() > 0 && s[0] == 43 { 1 } else { 0 };
    let ghost body = digits_part(s@);
    if start >= s.len() {
        return None;
    }
    let mut v: u64 = 0;
    let mut i: usize = start;
    while i < s.len()
        invariant
            start <= i <= s@.len(),
            body == digits_part(s@),
            start < s@.len(),
            body == s@.subrange(start as int, s@.len() as int),
            forall|k: int| 0 <= k < i - start ==> 48 <= #[trigger] body[k] <= 57,
            v == dec_value(body, i - start),
        decreases s@.len() - i,
    {
        let c = s[i];
        if c < 48 || c > 57 {
            proof {
                let k = (i - start) as int;
                assert(body[k] == c);
                assert(!(48 <= body[k] <= 57));
                lemma_parse_rejects(s@, body, k);
            }
            return None;
        }
        let d = (c - 48) as u64;
        if v > (u64::MAX - d) / 10 {
            proof {
                let k = (i - start) as int;
                assert(body[k] == c);
                assert(v * 10 + d > u64::MAX) by (nonlinear_arith)
                    requires
                        v > (u64::MAX - d) / 10,
                        d <= 9,
                ;
                assert(dec_value(body, k + 1) == dec_value(body, k) * 10 + (body[k] - 48) as nat);
                assert(dec_value(body, i + 1 - start) > u64::MAX);
                if all_digits(body) {
                    lemma_dec_value_grows(body, i + 1 - start, body.len() as int);
                }
            }
            return None;
        }
        v = v * 10 + d;
        i = i + 1;
    }
    Some(v)
}

/// `ThreadId(`
pub open spec fn thread_id_prefix() -> Seq<u8> {
    seq![84u8, 104, 114, 101, 97, 100, 73, 100, 40]
}

/// The number in the debug text of a thread id, `ThreadId(N)`; `0` when
/// the text has another shape.
pub open spec fn spec_stable_thread_id(s: Seq<u8>) -> u64 {
    if s.len() >= 10 && s.subrange(0, 9) == thread_id_prefix() && s[s.len() - 1] == 41 {
        match spec_parse_u64(s.subrange(9, s.len() - 1)) {
            Some(v) => v,
            None => 0,
        }
    } else {
        0
    }
}

/// Extracts a stable `u64` identifier from the debug text of a thread id.
pub fn stable_thread_id(s: &[u8]) -> (id: u64)
    ensures
        id == spec_stable_thread_id(s@),
{
    let prefix: Vec<u8> = vec![84u8, 104, 114, 101, 97, 100, 73, 100, 40];
    proof {
        assert(prefix@ =~= thread_id_prefix());
    }
    let n = s.len();
    if n < 10 || !crate::format::bytes_eq(&s[0..9], prefix.as_slice()) || s[n - 1] != 41 {
        return 0;
    }
    match parse_u64(&s[9..n - 1]) {
        Some(v) => v,
        None => 0,
    }
}

/// How a producer replaces a full segment under a segmented policy.
#[derive(Clone, Copy, Debug, PartialEq, Eq, Structural)]
pub enum Handoff {
    /// Take the free pooled segment.
    TakeSpare,
    /// The pool is exhausted: reserve the full segment, format it on this
    /// thread, then wait for a spare.
    HelpThenWait,
    /// Allocate a fresh segment.
    AllocFresh,
}

/// What a producer does when its segment is full: nothing for the
/// non-segmented policies (the ring's own policy applies), a pooled
/// segment or cooperative formatting for the bounded pool, a fresh segment
/// for the unbounded queue.
pub fn handoff_for(policy: Backpressure, spare_available: bool) -> (h: Option<Handoff>)
    ensures
        h == (match policy {
            Backpressure::NanoLog => Some(if spare_available { Handoff::TakeSpare } else { Handoff::HelpThenWait }),
            Backpressure::Quill => Some(Handoff::AllocFresh),
            _ => None::<Handoff>,
        }),
{
    match policy {
        Backpressure::NanoLog => Some(if spare_available { Handoff::TakeSpare } else { Handoff::HelpThenWait }),
        Backpressure::Quill => Some(Handoff::AllocFresh),
        _ => None,
    }
}

/// Prepares the calling thread for logging: refused with
/// [`TicklogError::NotInitialized`] unless logging has been configured; the
/// caller then allocates the thread's ring up front. Calling it again on a
/// thread that is prepared changes nothing.
pub fn warm_up(configured: bool) -> (r: Result<(), TicklogError>)
    ensures
        r == (if configured { Ok::<(), TicklogError>(()) } else { Err(TicklogError::NotInitialized) }),
{
    if configured {
        Ok(())
    } else {
        Err(TicklogError::NotInitialized)
    }
}

} // verus!

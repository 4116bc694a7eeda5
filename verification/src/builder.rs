//! Configuration of the logging system: backpressure policy and the checks
//! that `configure` runs before it claims any global resource.
use vstd::prelude::*;
use crate::bits::{is_pow2_u64, is_power_of_two};
use crate::format::{PatternError, SegmentView, Template, spec_parse_template};
use crate::ring::{MAX_CAPACITY, SLOT_SIZE};

verus! {

/// What a logging thread does when its buffer is full.
#[derive(Clone, Copy, Debug, PartialEq, Eq, Structural)]
#[non_exhaustive]
pub enum Backpressure {
    /// Discard the record and return immediately, never blocking the caller.
    /// This is the default.
    Drop,
    /// Wait until space frees up. Never drops records.
    Block,
    /// Bounded buffer handoff: a full segment is handed to the drain and the
    /// thread takes a fresh one from a preallocated pool.
    NanoLog,
    /// Unbounded growing queue: each full segment is handed to the drain and
    /// a fresh segment is allocated.
    Quill,
}

/// Errors of the logging system's setup.
#[derive(Clone, Copy, Debug, PartialEq, Eq, Structural)]
pub enum TicklogError {
    /// The timezone offset (seconds east of UTC) is outside UTC-12:00 to
    /// UTC+14:00.
    InvalidTimezoneOffset(i32),
    /// The ring capacity is not a power of two of at least one slot that the
    /// ring storage can be allocated for.
    InvalidRingCapacity(usize),
    /// The line pattern does not parse.
    InvalidFormatPattern(PatternError),
    /// Logging was already configured in this process.
    AlreadyInitialized,
    /// Logging has not been configured yet.
    NotInitialized,
}

/// Minimum valid timezone offset in seconds east of UTC (UTC-12:00).
pub const MIN_TZ_OFFSET: i32 = -43_200;
/// Maximum valid timezone offset in seconds east of UTC (UTC+14:00).
pub const MAX_TZ_OFFSET: i32 = 50_400;

/// The line pattern used when none is configured:
/// `{timestamp} {level} {file}:{line} {message}`.
pub open spec fn default_line_pattern() -> Seq<u8> {
    seq![
        123u8, 116, 105, 109, 101, 115, 116, 97, 109, 112, 125, 32, 123, 108, 101, 118, 101, 108, 125, 32, 123,
        102, 105, 108, 101, 125, 58, 123, 108, 105, 110, 101, 125, 32, 123, 109, 101, 115, 115, 97, 103, 101,
        125,
    ]
}

/// The default line pattern, as bytes.
pub fn default_line_pattern_bytes() -> (p: Vec<u8>)
    ensures
        p@ == default_line_pattern(),
{
    let p = vec![
        123u8, 116, 105, 109, 101, 115, 116, 97, 109, 112, 125, 32, 123, 108, 101, 118, 101, 108, 125, 32, 123,
        102, 105, 108, 101, 125, 58, 123, 108, 105, 110, 101, 125, 32, 123, 109, 101, 115, 115, 97, 103, 101,
        125,
    ];
    proof {
        assert(p@ =~= default_line_pattern());
    }
    p
}

/// Whether a capacity can hold a ring: a power of two of at least one slot
/// that a `Vec<u8>` can be allocated for (at most `isize::MAX` bytes).
pub open spec fn valid_capacity(c: usize) -> bool {
    is_pow2_u64(c as int) && SLOT_SIZE <= c && c <= MAX_CAPACITY && c <= isize::MAX
}

/// The checks `configure` runs, in order, before it touches any global
/// state: the timezone offset, the ring capacity, then the line pattern (an
/// empty pattern means the default one).
pub open spec fn spec_validate(timezone_offset: i32, ring_capacity: usize, pattern: Seq<u8>) -> Result<Seq<SegmentView>, TicklogError> {
    if timezone_offset < MIN_TZ_OFFSET || timezone_offset > MAX_TZ_OFFSET {
        Err(TicklogError::InvalidTimezoneOffset(timezone_offset))
    } else if !valid_capacity(ring_capacity) {
        Err(TicklogError::InvalidRingCapacity(ring_capacity))
    } else {
        let p = if pattern.len() == 0 { default_line_pattern() } else { pattern };
        match spec_parse_template(p) {
            Ok(t) => Ok(t),
            Err(e) => Err(TicklogError::InvalidFormatPattern(e)),
        }
    }
}

/// Runs the configuration checks and returns the parsed line pattern.
pub fn validate_config(timezone_offset: i32, ring_capacity: usize, pattern: &[u8]) -> (r: Result<Template, TicklogError>)
    ensures
        match r {
            Ok(t) => spec_validate(timezone_offset, ring_capacity, pattern@) == Ok::<Seq<SegmentView>, TicklogError>(t@),
            Err(e) => spec_validate(timezone_offset, ring_capacity, pattern@) == Err::<Seq<SegmentView>, TicklogError>(e),
        },
{
    if timezone_offset < MIN_TZ_OFFSET || timezone_offset > MAX_TZ_OFFSET {
        return Err(TicklogError::InvalidTimezoneOffset(timezone_offset));
    }
    if !(ring_capacity as u64 <= MAX_CAPACITY && ring_capacity <= isize::MAX as usize && is_power_of_two(
        ring_capacity as u64,
    ) && ring_capacity >= SLOT_SIZE) {
        return Err(TicklogError::InvalidRingCapacity(ring_capacity));
    }
    let parsed = if pattern.len() == 0 {
        let d = default_line_pattern_bytes();
        Template::parse(d.as_slice())
    } else {
        Template::parse(pattern)
    };
    match parsed {
        Ok(t) => Ok(t),
        Err(e) => Err(TicklogError::InvalidFormatPattern(e)),
    }
}

/// Whether a policy hands full segments off instead of waiting in place.
pub open spec fn is_segmented(p: Backpressure) -> bool {
    p == Backpressure::NanoLog || p == Backpressure::Quill
}

/// The policy in force: the segmented policies need the crate's own ring,
/// so on a FIFO backend they fall back to [`Backpressure::Block`] (still
/// never dropping, just without handoff).
pub fn effective_backpressure(policy: Backpressure, fifo_backend: bool) -> (r: Backpressure)
    ensures
        r == (if is_segmented(policy) && fifo_backend { Backpressure::Block } else { policy }),
{
    match policy {
        Backpressure::NanoLog | Backpressure::Quill => if fifo_backend {
            Backpressure::Block
        } else {
            policy
        },
        _ => policy,
    }
}

} // verus!

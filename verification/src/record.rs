//! The on-the-wire log record format.
//!
//! A record is a fixed 16-byte header followed by flagged sections:
//!
//! ```text
//! header:  version u8 | type u8 | total_size u16 | level u8 | flags u16 | pad u8 | timestamp u64
//! site:    site key u64                                          (FLAG_SITE)
//! source:  file key u64 | file_len u16 | line u32                (FLAG_SOURCE, legacy wire)
//! thread:  thread_id u64 | name_len u16 | name bytes             (FLAG_THREAD, legacy wire)
//! args:    count u8 | tag u8 * count | payload bytes * count
//! ```
//!
//! The site section carries a key that identifies a [`Site`] call-site
//! descriptor (format string, file, line); whoever drains a record resolves
//! the key back to its descriptor.
use vstd::prelude::*;
use crate::level::Level;
use crate::wire::{le16, le64, push_le16, push_le64};

verus! {

/// Record format version written in byte 0 of every header.
pub const VERSION: u8 = 0x02;
/// Record type: a normal encoded log record.
pub const LOG_RECORD: u8 = 1;
/// Record type: filler written before a ring wrap so no record straddles the
/// physical end of the buffer.
pub const END_OF_BUFFER: u8 = 2;

/// Fixed record header size in bytes.
pub const HEADER_SIZE: usize = 16;
/// Encoded size of the site section.
pub const SITE_SECTION_SIZE: usize = 8;
/// Encoded size of a legacy source section.
pub const SOURCE_SECTION_SIZE: usize = 14;
/// Size of the argument count byte.
pub const COUNT_SIZE: usize = 1;
/// Encoded size of a legacy thread section without its name bytes.
pub const THREAD_SECTION_BASE_SIZE: usize = 10;
/// Total size of a record's fixed sections: header, site and count byte.
pub const BASE_RECORD_SIZE: usize = 25;

/// Flag bit: the site section is present.
pub const FLAG_SITE: u16 = 0x01;
/// Flag bit: a legacy in-band source section is present.
pub const FLAG_SOURCE: u16 = 0x02;
/// Flag bit: a legacy in-band thread section is present.
pub const FLAG_THREAD: u16 = 0x04;
/// Flag bit: the process section is present.
pub const FLAG_PROCESS: u16 = 0x08;
/// Flag bit: the complex-type section is present.
pub const FLAG_COMPLEX: u16 = 0x10;

/// Largest record the u16 `total_size` header field can frame.
pub const MAX_RECORD_SIZE: usize = 65535;

/// Descriptor for one logging call site: the format string plus the source
/// file and line.
#[derive(Clone, Copy, Debug)]
pub struct Site {
    /// The format string literal, e.g. `"listening on {}"`.
    pub fmt: &'static str,
    /// The source file, e.g. `"src/main.rs"`.
    pub file: &'static str,
    /// The source line.
    pub line: u32,
}

/// The bytes of the 16-byte record header.
pub open spec fn spec_header(rectype: u8, total: u16, level: u8, flags: u16, timestamp: u64) -> Seq<u8> {
    seq![VERSION, rectype] + le16(total) + seq![level] + le16(flags) + seq![0u8] + le64(timestamp)
}

/// Whether `flags` asks for the site section.
pub open spec fn has_site(flags: u16) -> bool {
    flags & FLAG_SITE != 0
}

/// The fixed sections of a log record, up to and including its count byte.
pub open spec fn spec_record_prefix(
    level: Level,
    timestamp: u64,
    flags: u16,
    site_key: u64,
    n_args: u8,
    total: u16,
) -> Seq<u8> {
    spec_header(LOG_RECORD, total, level.spec_to_u8(), flags, timestamp)
        + (if has_site(flags) { le64(site_key) } else { Seq::empty() })
        + seq![n_args]
}

/// Length of the fixed sections written by [`assemble`] for `flags`.
pub open spec fn prefix_len(flags: u16) -> int {
    if has_site(flags) { 25 } else { 17 }
}

/// Assembles a record: the header and site section, the count byte, then
/// the already-encoded argument tags and payloads.
pub fn assemble(
    dst: &mut Vec<u8>,
    level: Level,
    timestamp: u64,
    flags: u16,
    site_key: u64,
    n_args: u8,
    total_size: usize,
    args: &[u8],
)
    requires
        total_size <= MAX_RECORD_SIZE,
        prefix_len(flags) + args@.len() == total_size,
    ensures
        final(dst)@ == spec_record_prefix(level, timestamp, flags, site_key, n_args, total_size as u16)
            + args@,
        final(dst)@.len() == total_size,
{
    let total = total_size as u16;
    dst.clear();
    dst.push(VERSION);
    dst.push(LOG_RECORD);
    push_le16(dst, total);
    dst.push(level.to_u8());
    push_le16(dst, flags);
    dst.push(0u8);
    push_le64(dst, timestamp);
    if flags & FLAG_SITE != 0 {
        push_le64(dst, site_key);
    }
    dst.push(n_args);
    let ghost prefix = dst@;
    let mut i: usize = 0;
    while i < args.len()
        invariant
            i <= args@.len(),
            dst@ == prefix + args@.subrange(0, i as int),
        decreases args@.len() - i,
    {
        dst.push(args[i]);
        i = i + 1;
        proof {
            assert(args@.subrange(0, i as int) =~= args@.subrange(0, (i - 1) as int).push(args@[i - 1]));
        }
    }
    proof {
        assert(args@.subrange(0, args@.len() as int) =~= args@);
        assert(prefix =~= spec_record_prefix(level, timestamp, flags, site_key, n_args, total));
    }
}

} // verus!

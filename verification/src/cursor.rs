//! A bounded byte reader over one record.
//!
//! Every read is clamped to the record: a fixed-width read that would run
//! past the end yields `0` and consumes nothing, and a byte-run read returns
//! a short run. A corrupt in-record length therefore never reads outside the
//! record.
use vstd::prelude::*;
use crate::wire::{from_le16, from_le32, from_le64};

verus! {

/// A clamped `u8` read of `d` at `p`: the value and the next position.
pub open spec fn cur_u8(d: Seq<u8>, p: int) -> (u8, int) {
    if d.len() - p >= 1 { (d[p], p + 1) } else { (0, p) }
}

/// A clamped little-endian `u16` read of `d` at `p`.
pub open spec fn cur_u16(d: Seq<u8>, p: int) -> (u16, int) {
    if d.len() - p >= 2 { (from_le16(d.subrange(p, p + 2)), p + 2) } else { (0, p) }
}

/// A clamped little-endian `u32` read of `d` at `p`.
pub open spec fn cur_u32(d: Seq<u8>, p: int) -> (u32, int) {
    if d.len() - p >= 4 { (from_le32(d.subrange(p, p + 4)), p + 4) } else { (0, p) }
}

/// A clamped little-endian `u64` read of `d` at `p`.
pub open spec fn cur_u64(d: Seq<u8>, p: int) -> (u64, int) {
    if d.len() - p >= 8 { (from_le64(d.subrange(p, p + 8)), p + 8) } else { (0, p) }
}

/// The position after skipping up to `n` bytes of `d` from `p`.
pub open spec fn cur_skip(d: Seq<u8>, p: int, n: int) -> int {
    if n <= d.len() - p { p + n } else { d.len() as int }
}

/// Up to `n` bytes of `d` from `p`, and the position after them.
pub open spec fn cur_bytes(d: Seq<u8>, p: int, n: int) -> (Seq<u8>, int) {
    let e = cur_skip(d, p, n);
    (d.subrange(p, e), e)
}

/// A clamped length-prefixed run of `d` at `p`: the run, the prefix that
/// was read, and the next position.
pub open spec fn cur_len_prefixed(d: Seq<u8>, p: int) -> (Seq<u8>, u16, int) {
    let (len, q) = cur_u16(d, p);
    let (b, e) = cur_bytes(d, q, len as int);
    (b, len, e)
}

/// A reader over a byte slice with a read position.
pub struct Cursor<'a> {
    data: &'a [u8],
    pos: usize,
}

impl<'a> Cursor<'a> {
    /// The bytes the cursor reads from.
    pub closed spec fn spec_data(&self) -> Seq<u8> {
        self.data@
    }

    /// The read position.
    pub closed spec fn spec_pos(&self) -> int {
        self.pos as int
    }

    /// The position lies inside the data.
    pub open spec fn wf(&self) -> bool {
        0 <= self.spec_pos() <= self.spec_data().len()
    }

    /// A cursor at the start of `data`.
    pub fn new(data: &'a [u8]) -> (c: Cursor<'a>)
        ensures
            c.wf(),
            c.spec_data() == data@,
            c.spec_pos() == 0,
    {
        Cursor { data, pos: 0 }
    }

    /// Bytes remaining before the end of the data.
    pub fn remaining(&self) -> (n: usize)
        requires
            self.wf(),
        ensures
            n == self.spec_data().len() - self.spec_pos(),
    {
        self.data.len() - self.pos
    }

    /// Reads one byte; `0` if none is left.
    pub fn read_u8(&mut self) -> (v: u8)
        requires
            old(self).wf(),
        ensures
            final(self).wf(),
            final(self).spec_data() == old(self).spec_data(),
            (v, final(self).spec_pos()) == cur_u8(old(self).spec_data(), old(self).spec_pos()),
    {
        if self.data.len() - self.pos < 1 {
            return 0;
        }
        let v = self.data[self.pos];
        self.pos = self.pos + 1;
        v
    }

    /// Reads a little-endian `u16`; `0` if fewer than two bytes are left.
    pub fn read_u16(&mut self) -> (v: u16)
        requires
            old(self).wf(),
        ensures
            final(self).wf(),
            final(self).spec_data() == old(self).spec_data(),
            (v, final(self).spec_pos()) == cur_u16(old(self).spec_data(), old(self).spec_pos()),
    {
        if self.data.len() - self.pos < 2 {
            return 0;
        }
        let p = self.pos;
        let v = (self.data[p] as u16) + 256 * (self.data[p + 1] as u16);
        self.pos = p + 2;
        v
    }

    /// Reads a little-endian `u32`; `0` if fewer than four bytes are left.
    pub fn read_u32(&mut self) -> (v: u32)
        requires
            old(self).wf(),
        ensures
            final(self).wf(),
            final(self).spec_data() == old(self).spec_data(),
            (v, final(self).spec_pos()) == cur_u32(old(self).spec_data(), old(self).spec_pos()),
    {
        if self.data.len() - self.pos < 4 {
            return 0;
        }
        let p = self.pos;
        let v = (self.data[p] as u32) + 0x100 * (self.data[p + 1] as u32) + 0x10000 * (
        self.data[p + 2] as u32) + 0x1000000 * (self.data[p + 3] as u32);
        self.pos = p + 4;
        v
    }

    /// Reads a little-endian `u64`; `0` if fewer than eight bytes are left.
    pub fn read_u64(&mut self) -> (v: u64)
        requires
            old(self).wf(),
        ensures
            final(self).wf(),
            final(self).spec_data() == old(self).spec_data(),
            (v, final(self).spec_pos()) == cur_u64(old(self).spec_data(), old(self).spec_pos()),
    {
        if self.data.len() - self.pos < 8 {
            return 0;
        }
        let p = self.pos;
        let v = (self.data[p] as u64) + 0x100 * (self.data[p + 1] as u64) + 0x10000 * (
        self.data[p + 2] as u64) + 0x1000000 * (self.data[p + 3] as u64) + 0x100000000 * (
        self.data[p + 4] as u64) + 0x10000000000 * (self.data[p + 5] as u64) + 0x1000000000000
            * (self.data[p + 6] as u64) + 0x100000000000000 * (self.data[p + 7] as u64);
        self.pos = p + 8;
        v
    }

    /// Skips `n` bytes, or all that are left if fewer.
    pub fn skip(&mut self, n: usize)
        requires
            old(self).wf(),
        ensures
            final(self).wf(),
            final(self).spec_data() == old(self).spec_data(),
            final(self).spec_pos() == cur_skip(old(self).spec_data(), old(self).spec_pos(), n as int),
    {
        let left = self.data.len() - self.pos;
        let k = if n < left { n } else { left };
        self.pos = self.pos + k;
    }

    /// Returns the next `n` bytes, or all that are left if fewer, and
    /// advances past them. A short run means the record ended early.
    pub fn read_bytes(&mut self, n: usize) -> (r: &'a [u8])
        requires
            old(self).wf(),
        ensures
            final(self).wf(),
            final(self).spec_data() == old(self).spec_data(),
            (r@, final(self).spec_pos()) == cur_bytes(old(self).spec_data(), old(self).spec_pos(), n as int),
    {
        let left = self.data.len() - self.pos;
        let k = if n < left { n } else { left };
        let p = self.pos;
        let r = &self.data[p..p + k];
        self.pos = p + k;
        r
    }

    /// Reads a `u16` length prefix, then returns the next `min(len, left)`
    /// bytes with the length that was read.
    pub fn read_len_prefixed(&mut self) -> (r: (&'a [u8], u16))
        requires
            old(self).wf(),
        ensures
            final(self).wf(),
            final(self).spec_data() == old(self).spec_data(),
            (r.0@, r.1, final(self).spec_pos()) == cur_len_prefixed(old(self).spec_data(), old(self).spec_pos()),
    {
        let len = self.read_u16();
        let data = self.read_bytes(len as usize);
        (data, len)
    }
}

} // verus!

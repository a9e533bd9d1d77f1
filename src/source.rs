//! An in-memory byte source read front to back.
use vstd::prelude::*;

verus! {

/// The big-endian 32-bit integer held in the first four bytes of `s`.
pub open spec fn be_u32(s: Seq<u8>) -> int {
    (s[0] as int) * 0x100_0000 + (s[1] as int) * 0x1_0000 + (s[2] as int) * 0x100 + (s[3] as int)
}

/// The four big-endian bytes of `v`.
pub open spec fn be_bytes(v: u32) -> Seq<u8> {
    seq![(v / 0x100_0000) as u8, ((v / 0x1_0000) % 0x100) as u8, ((v / 0x100) % 0x100) as u8, (v % 0x100) as u8]
}

/// Reads the big-endian 32-bit integer at `s[at..at + 4]`.
pub fn read_be_u32_at(s: &[u8], at: usize) -> (r: u32)
    requires
        at + 4 <= s@.len(),
    ensures
        r == be_u32(s@.skip(at as int)),
{
    let v: u32 = (s[at] as u32) * 0x100_0000 + (s[at + 1] as u32) * 0x1_0000 + (s[at + 2] as u32)
        * 0x100 + (s[at + 3] as u32);
    v
}

/// A readable byte source over a buffer held in memory.
pub struct ByteReader {
    data: Vec<u8>,
    pos: usize,
}

impl ByteReader {
    pub closed spec fn wf(&self) -> bool {
        self.pos <= self.data@.len()
    }

    /// The bytes not read yet.
    pub closed spec fn rest(&self) -> Seq<u8> {
        self.data@.skip(self.pos as int)
    }

    pub fn new(data: Vec<u8>) -> (r: Self)
        ensures
            r.wf(),
            r.rest() == data@,
    {
        let r = ByteReader { data, pos: 0 };
        assert(r.rest() =~= r.data@);
        r
    }

    /// Number of bytes not read yet.
    pub fn remaining(&self) -> (r: usize)
        requires
            self.wf(),
        ensures
            r == self.rest().len(),
    {
        self.data.len() - self.pos
    }

    /// Reads exactly `n` bytes; fails, reading nothing, where fewer remain.
    pub fn read_exact(&mut self, n: usize) -> (r: Option<Vec<u8>>)
        requires
            old(self).wf(),
        ensures
            final(self).wf(),
            old(self).rest().len() < n ==> r.is_none() && final(self).rest() == old(self).rest(),
            old(self).rest().len() >= n ==> r.is_some() && r.unwrap()@ == old(self).rest().take(
                n as int,
            ) && final(self).rest() == old(self).rest().skip(n as int),
    {
        if self.data.len() - self.pos < n {
            return None;
        }
        let mut out: Vec<u8> = Vec::new();
        let start = self.pos;
        let end: usize = start + n;
        let mut i: usize = 0;
        while i < n
            invariant
                end == start + n,
                end <= self.data@.len(),
                i <= n,
                out@ == self.data@.subrange(start as int, start + i),
            decreases n - i,
        {
            out.push(self.data[start + i]);
            i = i + 1;
            assert(out@ =~= self.data@.subrange(start as int, start + i));
        }
        self.pos = end;
        assert(out@ =~= old(self).rest().take(n as int));
        assert(self.rest() =~= old(self).rest().skip(n as int));
        Some(out)
    }

    /// The next `n` bytes, without reading them; `None` where fewer remain.
    pub fn peek(&self, n: usize) -> (r: Option<Vec<u8>>)
        requires
            self.wf(),
        ensures
            self.rest().len() < n ==> r.is_none(),
            self.rest().len() >= n ==> r.is_some() && r.unwrap()@ == self.rest().take(n as int),
    {
        if self.data.len() - self.pos < n {
            return None;
        }
        let mut out: Vec<u8> = Vec::new();
        let start = self.pos;
        let end: usize = start + n;
        let mut i: usize = 0;
        while i < n
            invariant
                end == start + n,
                start == self.pos,
                end <= self.data@.len(),
                i <= n,
                out@ == self.data@.subrange(start as int, start + i),
            decreases n - i,
        {
            out.push(self.data[start + i]);
            i = i + 1;
            assert(out@ =~= self.data@.subrange(start as int, start + i));
        }
        assert(out@ =~= self.rest().take(n as int));
        Some(out)
    }

    /// Reads up to `n` bytes: as many as remain, where fewer do.
    pub fn read_up_to(&mut self, n: usize) -> (r: Vec<u8>)
        requires
            old(self).wf(),
        ensures
            final(self).wf(),
            r@.len() == if old(self).rest().len() < n { old(self).rest().len() } else { n as nat },
            r@ == old(self).rest().take(r@.len() as int),
            final(self).rest() == old(self).rest().skip(r@.len() as int),
    {
        let avail = self.data.len() - self.pos;
        let k = if avail < n { avail } else { n };
        match self.read_exact(k) {
            Some(v) => v,
            None => Vec::new(),
        }
    }

    /// Reads a big-endian 32-bit integer.
    pub fn read_be_u32(&mut self) -> (r: Option<u32>)
        requires
            old(self).wf(),
        ensures
            final(self).wf(),
            old(self).rest().len() < 4 ==> r.is_none() && final(self).rest() == old(self).rest(),
            old(self).rest().len() >= 4 ==> r == Some(be_u32(old(self).rest()) as u32)
                && final(self).rest() == old(self).rest().skip(4),
    {
        match self.read_exact(4) {
            Some(b) => Some(read_be_u32_at(b.as_slice(), 0)),
            None => None,
        }
    }
}

} // verus!

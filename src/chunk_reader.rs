//! The bridge that presents the data of consecutive `IDAT` chunks as one
//! continuous byte stream, checking each chunk's CRC as its last byte is
//! consumed.
use vstd::prelude::*;
use crate::chunk_kind::{ChunkKind, valid_kind, idat, iend, idat_bytes, iend_bytes};
use crate::crc::{Crc32, CRC_INIT, crc_update_spec, lemma_crc_update_concat};
use crate::error::PngError;
use crate::source::{ByteReader, be_u32, read_be_u32_at};

verus! {

/// Bytes between two chunk bodies: the CRC of one, the length and kind of
/// the next.
pub const BOUND_LEN: usize = 12;

/// The CRC register after the kind `IDAT`, where every data chunk's
/// checksum continues from.
pub open spec fn idat_crc_start() -> u32 {
    crc_update_spec(CRC_INIT, idat_bytes())
}

/// What a bridge yields from the source `src` when `leftover` bytes of the
/// current chunk's body remain and `crc` is the register over the part of
/// the chunk already consumed: the content bytes, and how the stream ends:
/// cleanly at `IEND` (`None`) or with the first failure met.
pub open spec fn bridge_stream(src: Seq<u8>, leftover: nat, crc: u32) -> (Seq<u8>, Option<PngError>)
    decreases src.len(),
{
    if leftover == 0 {
        (Seq::empty(), None)
    } else if src.len() < leftover + 12 {
        (
            src.take(if src.len() < leftover { src.len() as int } else { leftover as int }),
            Some(PngError::UnexpectedEnd),
        )
    } else {
        let body = src.take(leftover as int);
        let tail = src.skip(leftover as int);
        let kind = tail.subrange(8, 12);
        if be_u32(tail) != (crc_update_spec(crc, body) ^ CRC_INIT) as int {
            (body, Some(PngError::CrcMismatch))
        } else if !valid_kind(kind) {
            (body, Some(PngError::InvalidChunkKind))
        } else if kind == iend_bytes() {
            (body, None)
        } else if kind == idat_bytes() {
            let rest = bridge_stream(
                src.skip(leftover + 12int),
                be_u32(tail.skip(4)) as nat,
                idat_crc_start(),
            );
            (body + rest.0, rest.1)
        } else {
            (body, Some(PngError::UnexpectedChunk))
        }
    }
}

/// What opening a bridge on `s` gives: the body length of the first
/// chunk, or why it cannot start there.
pub open spec fn bridge_header(s: Seq<u8>) -> Result<nat, PngError> {
    if s.len() < 8 {
        Err(PngError::UnexpectedEnd)
    } else if !valid_kind(s.subrange(4, 8)) {
        Err(PngError::InvalidChunkKind)
    } else if s.subrange(4, 8) == idat_bytes() {
        Ok(be_u32(s) as nat)
    } else if s.subrange(4, 8) == iend_bytes() {
        Ok(0)
    } else {
        Err(PngError::UnexpectedChunk)
    }
}

/// The whole stream of a bridge opened on `s`, where it opens.
pub open spec fn idat_stream(s: Seq<u8>) -> (Seq<u8>, Option<PngError>) {
    bridge_stream(s.skip(8), bridge_header(s).unwrap(), idat_crc_start())
}

/// Lazily reads the data chunks of a PNG datastream.
pub struct ChunkReader {
    reader: ByteReader,
    /// Remaining bytes in the current chunk's body.
    leftover: usize,
    /// CRC register of the current chunk, computed on the fly.
    crc: u32,
    /// The failure that ended the stream, if one did.
    failed: Option<PngError>,
    engine: Crc32,
}

impl ChunkReader {
    pub closed spec fn wf(&self) -> bool {
        &&& self.reader.wf()
        &&& self.engine.wf()
    }

    /// The source bytes not read yet.
    pub closed spec fn source(&self) -> Seq<u8> {
        self.reader.rest()
    }

    /// Bytes of the current chunk's body not handed out yet.
    pub closed spec fn pending(&self) -> nat {
        self.leftover as nat
    }

    /// The CRC register over the part of the current chunk consumed so far.
    pub closed spec fn register(&self) -> u32 {
        self.crc
    }

    /// The failure that ended the stream, if one did.
    pub closed spec fn failure(&self) -> Option<PngError> {
        self.failed
    }

    /// The content still to come, and how the stream ends.
    pub open spec fn stream(&self) -> (Seq<u8>, Option<PngError>) {
        if self.failure() is Some {
            (Seq::empty(), self.failure())
        } else {
            bridge_stream(self.source(), self.pending(), self.register())
        }
    }

    /// Whether the stream has ended, cleanly or not.
    pub open spec fn finished(&self) -> bool {
        self.pending() == 0 || self.failure() is Some
    }

    /// Opens the bridge on a source that stands at the header of an `IDAT`
    /// or `IEND` chunk; any other kind is refused.
    pub fn new(reader: ByteReader) -> (r: Result<Self, PngError>)
        requires
            reader.wf(),
        ensures
            match r {
                Ok(b) => bridge_header(reader.rest()) is Ok && b.wf() && b.failure() is None
                    && b.source() == reader.rest().skip(8) && b.pending() == bridge_header(
                    reader.rest(),
                ).unwrap() && b.register() == idat_crc_start() && b.stream() == idat_stream(
                    reader.rest(),
                ) && (b.finished() <==> bridge_header(reader.rest()) == Ok::<nat, PngError>(0)),
                Err(e) => bridge_header(reader.rest()) == Err::<nat, PngError>(e),
            },
    {
        let ghost s = reader.rest();
        let mut reader = reader;
        let hdr = match reader.read_exact(8) {
            Some(v) => v,
            None => return Err(PngError::UnexpectedEnd),
        };
        assert(hdr@ =~= s.take(8));
        let arr: [u8; 4] = [hdr[4], hdr[5], hdr[6], hdr[7]];
        assert(arr@ =~= s.subrange(4, 8));
        let kind = match ChunkKind::from_bytes(&arr) {
            Ok(k) => k,
            Err(e) => return Err(e),
        };
        let len = read_be_u32_at(hdr.as_slice(), 0);
        assert(hdr@.skip(0) =~= hdr@);
        let leftover: usize = if kind.same(&idat()) {
            len as usize
        } else if kind.same(&iend()) {
            0
        } else {
            return Err(PngError::UnexpectedChunk);
        };
        let engine = Crc32::new();
        let crc = engine.update4(CRC_INIT, idat().as_bytes());
        Ok(ChunkReader { reader, leftover, crc, failed: None, engine })
    }

    /// Whether the stream has ended, cleanly or not.
    pub fn is_done(&self) -> (r: bool)
        ensures
            r == self.finished(),
            r ==> self.stream().0.len() == 0,
    {
        self.leftover == 0 || self.failed.is_some()
    }

    /// Reads up to `max` content bytes. The bytes returned are the front of
    /// the stream that was left; an empty result, where `max` is not zero,
    /// means a clean end. A failure is final: every later read fails too.
    pub fn read(&mut self, max: usize) -> (r: Result<Vec<u8>, PngError>)
        requires
            old(self).wf(),
        ensures
            final(self).wf(),
            match r {
                Ok(out) => {
                    &&& out@.len() <= max
                    &&& old(self).stream().0 == out@ + final(self).stream().0
                    &&& old(self).stream().1 == final(self).stream().1
                    &&& final(self).failure() is None
                    &&& (max > 0 && out@.len() == 0) ==> old(self).stream() == (
                    Seq::<u8>::empty(),
                    None::<PngError>,
                    )
                },
                Err(e) => old(self).stream().1 == Some(e) && final(self).failure() == Some(e)
                    && final(self).finished(),
            },
    {
        match self.failed {
            Some(e) => return Err(e),
            None => {},
        }
        let ghost s0 = self.stream();
        let mut out: Vec<u8> = Vec::new();
        while out.len() < max && self.leftover > 0
            invariant
                self.wf(),
                self.failed is None,
                out@.len() <= max,
                s0 == old(self).stream(),
                s0.0 == out@ + self.stream().0,
                s0.1 == self.stream().1,
                self.engine == old(self).engine,
            decreases max - out@.len(),
        {
            let ghost src = self.reader.rest();
            let ghost lo = self.leftover as nat;
            let ghost crc0 = self.crc;
            let avail = self.reader.remaining();
            if avail == 0 {
                assert(s0.1 == Some(PngError::UnexpectedEnd)) by {
                    assert(src.take(0) =~= Seq::<u8>::empty());
                }
                self.failed = Some(PngError::UnexpectedEnd);
                return Err(PngError::UnexpectedEnd);
            }
            let room = max - out.len();
            let mut n: usize = if room < self.leftover { room } else { self.leftover };
            if avail < n {
                n = avail;
            }
            let bytes = match self.reader.read_exact(n) {
                Some(v) => v,
                None => return Err(PngError::UnexpectedEnd),
            };
            self.crc = self.engine.update_all(self.crc, bytes.as_slice());
            self.leftover = self.leftover - n;
            let ghost prev_out = out@;
            let mut j: usize = 0;
            while j < bytes.len()
                invariant
                    j <= bytes@.len(),
                    out@ == prev_out + bytes@.take(j as int),
                decreases bytes@.len() - j,
            {
                out.push(bytes[j]);
                j = j + 1;
                assert(out@ =~= prev_out + bytes@.take(j as int));
            }
            assert(bytes@.take(j as int) =~= bytes@);
            if self.leftover > 0 {
                proof {
                    lemma_stream_advance(src, lo, crc0, n as nat);
                }
            } else {
                // The body is complete: check it and move to the next chunk.
                let ghost tail = src.skip(n as int);
                assert(src.take(n as int) == src.take(lo as int));
                let ghost body = src.take(lo as int);
                assert(tail =~= src.skip(lo as int));
                assert(self.reader.rest() == tail);
                let bound = match self.reader.read_exact(BOUND_LEN) {
                    Some(v) => v,
                    None => {
                        assert(s0.1 == Some(PngError::UnexpectedEnd)) by {
                            lemma_stream_truncated(src, lo, crc0);
                        }
                        self.failed = Some(PngError::UnexpectedEnd);
                        return Err(PngError::UnexpectedEnd);
                    },
                };
                assert(src.len() >= lo + 12);
                assert(bound@ =~= tail.take(12));
                let stored = read_be_u32_at(bound.as_slice(), 0);
                assert(bound@.skip(0) =~= bound@);
                assert(be_u32(bound@) == be_u32(tail));
                proof {
                    lemma_crc_update_concat(crc0, Seq::empty(), body);
                    assert(Seq::<u8>::empty() + body =~= body);
                    assert(crc_update_spec(crc0, Seq::<u8>::empty()) == crc0);
                }
                assert(bytes@ == body);
                if stored != self.crc ^ CRC_INIT {
                    assert(self.crc == crc_update_spec(crc0, body));
                    assert(s0.1 == Some(PngError::CrcMismatch));
                    self.failed = Some(PngError::CrcMismatch);
                    return Err(PngError::CrcMismatch);
                }
                let next_len = read_be_u32_at(bound.as_slice(), 4);
                assert(bound@.skip(4) =~= tail.skip(4).take(8));
                let arr: [u8; 4] = [bound[8], bound[9], bound[10], bound[11]];
                assert(arr@ =~= tail.subrange(8, 12));
                let kind = ChunkKind::from_bytes(&arr);
                match kind {
                    Ok(k) => {
                        if k.same(&iend()) {
                            assert(self.stream() == (Seq::<u8>::empty(), None::<PngError>));
                            assert(s0.0 == out@ + self.stream().0) by {
                                assert(out@ + Seq::<u8>::empty() =~= out@);
                            }
                        } else if k.same(&idat()) {
                            self.leftover = next_len as usize;
                            self.crc = self.engine.update4(CRC_INIT, idat().as_bytes());
                            assert(self.reader.rest() =~= src.skip(lo + 12int));
                            assert(be_u32(tail.skip(4)) == be_u32(bound@.skip(4)));
                            assert(s0.0 == out@ + self.stream().0) by {
                                assert(prev_out + (body + self.stream().0) =~= out@ + self.stream().0);
                            }
                        } else {
                            assert(s0.1 == Some(PngError::UnexpectedChunk));
                            self.failed = Some(PngError::UnexpectedChunk);
                            return Err(PngError::UnexpectedChunk);
                        }
                    },
                    Err(e) => {
                        assert(tail.subrange(8, 12) != idat_bytes());
                        assert(tail.subrange(8, 12) != iend_bytes());
                        assert(s0.1 == Some(e));
                        self.failed = Some(e);
                        return Err(e);
                    },
                }
            }
        }
        Ok(out)
    }

    /// Reads the whole remaining stream, `step` bytes at a time at most.
    /// What comes back does not depend on `step`.
    pub fn read_to_end(&mut self, step: usize) -> (r: Result<Vec<u8>, PngError>)
        requires
            old(self).wf(),
            step > 0,
        ensures
            final(self).wf(),
            match old(self).stream().1 {
                None => r is Ok && r.unwrap()@ == old(self).stream().0,
                Some(e) => r == Err::<Vec<u8>, PngError>(e),
            },
    {
        let sizes: Vec<usize> = vec![step];
        self.read_all_with(&sizes)
    }

    /// Reads the whole remaining stream with reads of `sizes[0]`,
    /// `sizes[1]`, ... bytes at most, starting over at the end of `sizes`,
    /// until the stream ends. Whatever the sizes, and wherever chunk
    /// boundaries fall among them, the outcome is the same: all the content
    /// where the stream ends cleanly, otherwise its first failure.
    pub fn read_all_with(&mut self, sizes: &Vec<usize>) -> (r: Result<Vec<u8>, PngError>)
        requires
            old(self).wf(),
            sizes@.len() > 0,
            forall|i: int| 0 <= i < sizes@.len() ==> sizes@[i] > 0,
        ensures
            final(self).wf(),
            match old(self).stream().1 {
                None => r is Ok && r.unwrap()@ == old(self).stream().0,
                Some(e) => r == Err::<Vec<u8>, PngError>(e),
            },
    {
        let ghost s0 = self.stream();
        let mut all: Vec<u8> = Vec::new();
        let mut i: usize = 0;
        loop
            invariant
                self.wf(),
                sizes@.len() > 0,
                forall|k: int| 0 <= k < sizes@.len() ==> sizes@[k] > 0,
                i < sizes@.len(),
                s0 == old(self).stream(),
                s0.0 == all@ + self.stream().0,
                s0.1 == self.stream().1,
            decreases self.stream().0.len(),
        {
            match self.read(sizes[i]) {
                Ok(part) => {
                    if part.len() == 0 {
                        assert(all@ + Seq::<u8>::empty() =~= all@);
                        return Ok(all);
                    }
                    let ghost prev = all@;
                    let mut j: usize = 0;
                    while j < part.len()
                        invariant
                            j <= part@.len(),
                            all@ == prev + part@.take(j as int),
                        decreases part@.len() - j,
                    {
                        all.push(part[j]);
                        j = j + 1;
                        assert(all@ =~= prev + part@.take(j as int));
                    }
                    assert(part@.take(j as int) =~= part@);
                    assert(prev + (part@ + self.stream().0) =~= all@ + self.stream().0);
                },
                Err(e) => {
                    return Err(e);
                },
            }
            i = if i < sizes.len() - 1 {
                i + 1
            } else {
                0
            };
        }
    }
}

/// Consuming `n` bytes short of the chunk's end splits the stream.
proof fn lemma_stream_advance(src: Seq<u8>, lo: nat, crc: u32, n: nat)
    requires
        0 < n < lo,
        n <= src.len(),
    ensures
        bridge_stream(src, lo, crc).0 == src.take(n as int) + bridge_stream(
            src.skip(n as int),
            (lo - n) as nat,
            crc_update_spec(crc, src.take(n as int)),
        ).0,
        bridge_stream(src, lo, crc).1 == bridge_stream(
            src.skip(n as int),
            (lo - n) as nat,
            crc_update_spec(crc, src.take(n as int)),
        ).1,
{
    let src2 = src.skip(n as int);
    let lo2 = (lo - n) as nat;
    let crc2 = crc_update_spec(crc, src.take(n as int));
    if src.len() < lo + 12 {
        let m = if src.len() < lo { src.len() as int } else { lo as int };
        let m2 = if src2.len() < lo2 { src2.len() as int } else { lo2 as int };
        assert(src.take(m) =~= src.take(n as int) + src2.take(m2));
    } else {
        let body = src.take(lo as int);
        let body2 = src2.take(lo2 as int);
        assert(body =~= src.take(n as int) + body2);
        lemma_crc_update_concat(crc, src.take(n as int), body2);
        assert(src.skip(lo as int) =~= src2.skip(lo2 as int));
        assert(src.skip(lo + 12int) =~= src2.skip(lo2 + 12int));
        let tail = src.skip(lo as int);
        let kind = tail.subrange(8, 12);
        if be_u32(tail) == (crc_update_spec(crc, body) ^ CRC_INIT) as int && kind != iend_bytes()
            && kind == idat_bytes() {
            let rest = bridge_stream(src.skip(lo + 12int), be_u32(tail.skip(4)) as nat, idat_crc_start());
            assert(body + rest.0 =~= src.take(n as int) + (body2 + rest.0));
        }
    }
}

/// A source too short to hold the boundary after the body ends in failure.
proof fn lemma_stream_truncated(src: Seq<u8>, lo: nat, crc: u32)
    requires
        lo > 0,
        src.len() < lo + 12,
    ensures
        bridge_stream(src, lo, crc).1 == Some(PngError::UnexpectedEnd),
{
}

} // verus!

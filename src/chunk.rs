//! Chunks: length-prefixed, typed, checksummed records.
use vstd::prelude::*;
use crate::chunk_kind::{ChunkKind, valid_kind, iend_bytes};
use crate::crc::{Crc32, crc32_spec, lemma_crc_update_concat, lemma_crc_detects_one_byte, CRC_INIT};
use crate::error::PngError;
use crate::source::{ByteReader, be_u32, be_bytes, read_be_u32_at};

verus! {

/// The largest length a chunk may declare.
pub const MAX_CHUNK_LENGTH: u32 = 0x7fff_ffff;

/// What reading one chunk from the front of `s` gives: its kind and its
/// data, or the first failure met in reading order.
pub open spec fn chunk_parse(s: Seq<u8>) -> Result<(Seq<u8>, Seq<u8>), PngError> {
    if s.len() < 4 {
        Err(PngError::UnexpectedEnd)
    } else if be_u32(s) > MAX_CHUNK_LENGTH {
        Err(PngError::ChunkTooLong)
    } else if s.len() < 8 {
        Err(PngError::UnexpectedEnd)
    } else if !valid_kind(s.subrange(4, 8)) {
        Err(PngError::InvalidChunkKind)
    } else if s.len() < 12 + be_u32(s) {
        Err(PngError::UnexpectedEnd)
    } else if be_u32(s.skip(8 + be_u32(s))) != crc32_spec(s.subrange(4, 8 + be_u32(s))) {
        Err(PngError::CrcMismatch)
    } else {
        Ok((s.subrange(4, 8), s.subrange(8, 8 + be_u32(s))))
    }
}

/// How many bytes reading a chunk from the front of `s` takes from the
/// source, whether it succeeds or where it fails: fields are read whole,
/// and a field that is not all there is not taken.
pub open spec fn chunk_consumed(s: Seq<u8>) -> int {
    if s.len() < 4 {
        0
    } else if be_u32(s) > MAX_CHUNK_LENGTH || s.len() < 8 {
        4
    } else if !valid_kind(s.subrange(4, 8)) || s.len() < 8 + be_u32(s) {
        8
    } else if s.len() < 12 + be_u32(s) {
        8 + be_u32(s)
    } else {
        12 + be_u32(s)
    }
}

/// The bytes of a chunk with kind `k` and data `d`.
pub open spec fn chunk_bytes(k: Seq<u8>, d: Seq<u8>) -> Seq<u8> {
    be_bytes(d.len() as u32) + k + d + be_bytes(crc32_spec(k + d))
}

/// A chunk: its kind and its data.
#[derive(Debug, Clone, PartialEq, Eq)]
pub struct Chunk {
    kind: ChunkKind,
    data: Vec<u8>,
}

impl View for Chunk {
    type V = (Seq<u8>, Seq<u8>);

    closed spec fn view(&self) -> (Seq<u8>, Seq<u8>) {
        (self.kind@, self.data@)
    }
}

impl Chunk {
    pub fn new(kind: ChunkKind, data: Vec<u8>) -> (r: Self)
        ensures
            r@ == (kind@, data@),
    {
        Chunk { kind, data }
    }

    /// Reads one chunk and checks its CRC. On success the reader stands
    /// after the chunk.
    pub fn read(reader: &mut ByteReader) -> (r: Result<Self, PngError>)
        requires
            old(reader).wf(),
        ensures
            final(reader).wf(),
            match r {
                Ok(c) => chunk_parse(old(reader).rest()) == Ok::<(Seq<u8>, Seq<u8>), PngError>(c@)
                    && final(reader).rest() == old(reader).rest().skip(12 + c@.1.len() as int),
                Err(e) => chunk_parse(old(reader).rest()) == Err::<(Seq<u8>, Seq<u8>), PngError>(e)
                    && final(reader).rest() == old(reader).rest().skip(
                    chunk_consumed(old(reader).rest()),
                ),
            },
    {
        let ghost s = reader.rest();
        let len = match reader.read_be_u32() {
            Some(v) => v,
            None => {
                assert(s.skip(0) =~= s);
                return Err(PngError::UnexpectedEnd);
            },
        };
        if len > MAX_CHUNK_LENGTH {
            return Err(PngError::ChunkTooLong);
        }
        let kb = match reader.read_exact(4) {
            Some(v) => v,
            None => {
                return Err(PngError::UnexpectedEnd);
            },
        };
        assert(kb@ =~= s.subrange(4, 8));
        let arr: [u8; 4] = [kb[0], kb[1], kb[2], kb[3]];
        assert(arr@ =~= kb@);
        let kind = match ChunkKind::from_bytes(&arr) {
            Ok(k) => k,
            Err(e) => return Err(e),
        };
        let data = match reader.read_exact(len as usize) {
            Some(v) => v,
            None => {
                return Err(PngError::UnexpectedEnd);
            },
        };
        assert(data@ =~= s.subrange(8, 8 + len));
        let stored = match reader.read_be_u32() {
            Some(v) => v,
            None => {
                return Err(PngError::UnexpectedEnd);
            },
        };
        assert(old(reader).rest().skip(8 + len) =~= s.skip(8).skip(len as int));
        let chunk = Chunk { kind, data };
        let computed = chunk.crc();
        assert(s.subrange(4, 8 + len) =~= kind@ + chunk.data@);
        if computed != stored {
            return Err(PngError::CrcMismatch);
        }
        assert(reader.rest() =~= s.skip(12 + len));
        Ok(chunk)
    }

    /// The raw data of the chunk.
    pub fn data(&self) -> (r: &[u8])
        ensures
            r@ == self@.1,
    {
        self.data.as_slice()
    }

    /// Takes the data out of the chunk.
    pub fn into_data(self) -> (r: Vec<u8>)
        ensures
            r@ == self@.1,
    {
        self.data
    }

    /// Length of the chunk data in bytes.
    pub fn len(&self) -> (r: usize)
        ensures
            r == self@.1.len(),
    {
        self.data.len()
    }

    /// The chunk type.
    pub fn kind(&self) -> (r: ChunkKind)
        ensures
            r@ == self@.0,
    {
        self.kind
    }

    /// The CRC-32 of the chunk's kind followed by its data.
    pub fn crc(&self) -> (r: u32)
        ensures
            r == crc32_spec(self@.0 + self@.1),
    {
        let engine = Crc32::new();
        let mut c: u32 = engine.update4(crate::crc::CRC_INIT, self.kind.as_bytes());
        proof {
            lemma_crc_update_concat(crate::crc::CRC_INIT, self.kind@, self.data@);
        }
        c = engine.update_all(c, self.data.as_slice());
        c ^ crate::crc::CRC_INIT
    }

    /// The chunk as it stands in a datastream: length, kind, data, CRC.
    pub fn to_bytes(&self) -> (r: Vec<u8>)
        requires
            self@.1.len() <= MAX_CHUNK_LENGTH,
        ensures
            r@ == chunk_bytes(self@.0, self@.1),
    {
        let mut out: Vec<u8> = Vec::new();
        push_be_u32(&mut out, self.data.len() as u32);
        let kb = self.kind.as_bytes();
        out.push(kb[0]);
        out.push(kb[1]);
        out.push(kb[2]);
        out.push(kb[3]);
        let mut i: usize = 0;
        while i < self.data.len()
            invariant
                i <= self.data@.len(),
                out@ == be_bytes(self.data@.len() as u32) + self.kind@ + self.data@.take(i as int),
            decreases self.data@.len() - i,
        {
            out.push(self.data[i]);
            i = i + 1;
            assert(out@ =~= be_bytes(self.data@.len() as u32) + self.kind@ + self.data@.take(i as int));
        }
        assert(self.data@.take(i as int) =~= self.data@);
        push_be_u32(&mut out, self.crc());
        out
    }
}

/// The eight bytes every PNG datastream starts with.
pub open spec fn png_signature() -> Seq<u8> {
    seq![137u8, 80, 78, 71, 13, 10, 26, 10]
}

/// Checks the signature at the front of `data`.
pub fn check_signature(data: &[u8]) -> (r: Result<(), PngError>)
    ensures
        data@.len() < 8 ==> r == Err::<(), PngError>(PngError::UnexpectedEnd),
        data@.len() >= 8 ==> (r is Ok <==> data@.take(8) == png_signature()),
        r is Err ==> data@.len() < 8 || r == Err::<(), PngError>(PngError::BadSignature),
{
    if data.len() < 8 {
        return Err(PngError::UnexpectedEnd);
    }
    if data[0] == 137 && data[1] == 80 && data[2] == 78 && data[3] == 71 && data[4] == 13
        && data[5] == 10 && data[6] == 26 && data[7] == 10 {
        assert(data@.take(8) =~= png_signature());
        Ok(())
    } else {
        assert(data@.take(8)[0] == data@[0]);
        assert(data@.take(8) != png_signature()) by {
            if data@.take(8) == png_signature() {
                assert(data@.take(8)[1] == data@[1]);
                assert(data@.take(8)[2] == data@[2]);
                assert(data@.take(8)[3] == data@[3]);
                assert(data@.take(8)[4] == data@[4]);
                assert(data@.take(8)[5] == data@[5]);
                assert(data@.take(8)[6] == data@[6]);
                assert(data@.take(8)[7] == data@[7]);
            }
        }
        Err(PngError::BadSignature)
    }
}

/// The chunks from the front of `s` up to and including the first `IEND`,
/// or the first failure.
pub open spec fn chunks_parse(s: Seq<u8>) -> Result<Seq<(Seq<u8>, Seq<u8>)>, PngError>
    decreases s.len(),
{
    match chunk_parse(s) {
        Err(e) => Err(e),
        Ok(c) => if c.0 == iend_bytes() {
            Ok(seq![c])
        } else {
            match chunks_parse(s.skip(12 + c.1.len() as int)) {
                Ok(rest) => Ok(seq![c] + rest),
                Err(e) => Err(e),
            }
        },
    }
}

/// The chunks of a whole datastream: signature, then chunks up to `IEND`.
pub open spec fn datastream_chunks(s: Seq<u8>) -> Result<Seq<(Seq<u8>, Seq<u8>)>, PngError> {
    if s.len() < 8 {
        Err(PngError::UnexpectedEnd)
    } else if s.take(8) != png_signature() {
        Err(PngError::BadSignature)
    } else {
        chunks_parse(s.skip(8))
    }
}

/// The views of a sequence of chunks.
pub open spec fn chunk_views(v: Seq<Chunk>) -> Seq<(Seq<u8>, Seq<u8>)> {
    v.map_values(|c: Chunk| c@)
}

/// Reads a whole datastream held in memory into its chunks, the closing
/// `IEND` included. Every chunk's CRC is checked.
pub fn read_chunks(data: &[u8]) -> (r: Result<Vec<Chunk>, PngError>)
    ensures
        match r {
            Ok(v) => datastream_chunks(data@) == Ok::<Seq<(Seq<u8>, Seq<u8>)>, PngError>(
                chunk_views(v@),
            ),
            Err(e) => datastream_chunks(data@) == Err::<Seq<(Seq<u8>, Seq<u8>)>, PngError>(e),
        },
{
    match check_signature(data) {
        Ok(()) => {},
        Err(e) => return Err(e),
    }
    let mut rest: Vec<u8> = Vec::new();
    let mut i: usize = 8;
    while i < data.len()
        invariant
            8 <= i <= data@.len(),
            rest@ == data@.subrange(8, i as int),
        decreases data@.len() - i,
    {
        rest.push(data[i]);
        i = i + 1;
        assert(rest@ =~= data@.subrange(8, i as int));
    }
    assert(rest@ =~= data@.skip(8));
    let mut reader = ByteReader::new(rest);
    let mut chunks: Vec<Chunk> = Vec::new();
    let iend = crate::chunk_kind::iend();
    assert(reader.rest() == data@.skip(8));
    assert(chunk_views(chunks@) =~= Seq::<(Seq<u8>, Seq<u8>)>::empty());
    loop
        invariant
            reader.wf(),
            data@.len() >= 8,
            data@.take(8) == png_signature(),
            iend@ == iend_bytes(),
            forall|tail: Seq<(Seq<u8>, Seq<u8>)>|
                chunks_parse(reader.rest()) == Ok::<Seq<(Seq<u8>, Seq<u8>)>, PngError>(tail)
                    ==> #[trigger] chunks_parse(data@.skip(8)) == Ok::<
                    Seq<(Seq<u8>, Seq<u8>)>,
                    PngError,
                >(chunk_views(chunks@) + tail),
            forall|e: PngError|
                #[trigger] chunks_parse(reader.rest()) == Err::<Seq<(Seq<u8>, Seq<u8>)>, PngError>(e)
                    ==> chunks_parse(data@.skip(8)) == Err::<Seq<(Seq<u8>, Seq<u8>)>, PngError>(e),
        decreases reader.rest().len(),
    {
        let ghost before = reader.rest();
        let ghost prev = chunks@;
        let c = match Chunk::read(&mut reader) {
            Ok(c) => c,
            Err(e) => {
                assert(chunks_parse(before) == Err::<Seq<(Seq<u8>, Seq<u8>)>, PngError>(e));
                return Err(e);
            },
        };
        let is_end = c.kind().same(&iend);
        chunks.push(c);
        assert(chunk_views(chunks@) =~= chunk_views(prev) + seq![c@]);
        if is_end {
            assert(chunks_parse(before) == Ok::<Seq<(Seq<u8>, Seq<u8>)>, PngError>(seq![c@]));
            assert(chunk_views(prev) + seq![c@] =~= chunk_views(chunks@));
            assert(chunks_parse(data@.skip(8)) == Ok::<Seq<(Seq<u8>, Seq<u8>)>, PngError>(
                chunk_views(prev) + seq![c@],
            ));
            return Ok(chunks);
        }
        proof {
            assert forall|tail: Seq<(Seq<u8>, Seq<u8>)>|
                chunks_parse(reader.rest()) == Ok::<Seq<(Seq<u8>, Seq<u8>)>, PngError>(tail)
                    implies #[trigger] chunks_parse(data@.skip(8)) == Ok::<
                    Seq<(Seq<u8>, Seq<u8>)>,
                    PngError,
                >(chunk_views(chunks@) + tail) by {
                assert(chunks_parse(before) == Ok::<Seq<(Seq<u8>, Seq<u8>)>, PngError>(seq![c@] + tail));
                assert(chunk_views(prev) + (seq![c@] + tail) =~= chunk_views(chunks@) + tail);
            }
        }
    }
}

proof fn lemma_be_round_trip(v: u32)
    ensures
        be_bytes(v).len() == 4,
        be_u32(be_bytes(v)) == v,
{
    let b = be_bytes(v);
    assert(b[0] as int == v / 0x100_0000);
    assert(b[1] as int == (v / 0x1_0000) % 0x100);
    assert(b[2] as int == (v / 0x100) % 0x100);
    assert(b[3] as int == v % 0x100);
    assert((v / 0x100_0000) * 0x100_0000 + ((v / 0x1_0000) % 0x100) * 0x1_0000 + ((v / 0x100)
        % 0x100) * 0x100 + v % 0x100 == v) by (nonlinear_arith);
}

/// Writing a chunk and reading it back gives its kind and data, whatever
/// follows it; the reader then stands right after it.
pub proof fn lemma_chunk_round_trip(k: Seq<u8>, d: Seq<u8>, rest: Seq<u8>)
    requires
        valid_kind(k),
        d.len() <= MAX_CHUNK_LENGTH,
    ensures
        chunk_parse(chunk_bytes(k, d) + rest) == Ok::<(Seq<u8>, Seq<u8>), PngError>((k, d)),
        chunk_bytes(k, d).len() == 12 + d.len(),
{
    let s = chunk_bytes(k, d) + rest;
    let n = d.len() as int;
    lemma_be_round_trip(d.len() as u32);
    lemma_be_round_trip(crc32_spec(k + d));
    assert(s.take(4) =~= be_bytes(d.len() as u32));
    assert(be_u32(s) == be_u32(s.take(4)));
    assert(s.subrange(4, 8) =~= k);
    assert(s.subrange(8, 8 + n) =~= d);
    assert(s.subrange(4, 8 + n) =~= k + d);
    assert(s.skip(8 + n).take(4) =~= be_bytes(crc32_spec(k + d)));
    assert(be_u32(s.skip(8 + n)) == be_u32(s.skip(8 + n).take(4)));
}

/// Four bytes that differ in exactly one place read as different integers.
proof fn lemma_be_u32_differs(a: Seq<u8>, b: Seq<u8>, j: int)
    requires
        a.len() >= 4,
        b.len() >= 4,
        0 <= j < 4,
        a[j] != b[j],
        forall|i: int| 0 <= i < 4 && i != j ==> a[i] == b[i],
    ensures
        be_u32(a) != be_u32(b),
{
    assert(a[0] == b[0] || j == 0);
    assert(a[1] == b[1] || j == 1);
    assert(a[2] == b[2] || j == 2);
    assert(a[3] == b[3] || j == 3);
}

/// Flipping one bit of a written chunk anywhere after its length field
/// makes reading it fail; a flip in its data or its CRC is caught as a
/// checksum mismatch, and a flip in its kind either makes the kind invalid
/// or is caught the same way.
pub proof fn lemma_chunk_bit_flip(k: Seq<u8>, d: Seq<u8>, rest: Seq<u8>, pos: int, bit: u8)
    requires
        valid_kind(k),
        d.len() <= MAX_CHUNK_LENGTH,
        4 <= pos < 12 + d.len(),
        bit < 8,
    ensures
        ({
            let s = chunk_bytes(k, d);
            let t = s.update(pos, s[pos] ^ (1u8 << bit)) + rest;
            &&& chunk_parse(t) is Err
            &&& pos >= 8 ==> chunk_parse(t) == Err::<(Seq<u8>, Seq<u8>), PngError>(
                PngError::CrcMismatch,
            )
            &&& pos < 8 ==> chunk_parse(t) == Err::<(Seq<u8>, Seq<u8>), PngError>(
                PngError::CrcMismatch,
            ) || chunk_parse(t) == Err::<(Seq<u8>, Seq<u8>), PngError>(PngError::InvalidChunkKind)
        }),
{
    let s = chunk_bytes(k, d);
    let x = s[pos];
    let y = x ^ (1u8 << bit);
    assert(y != x) by (bit_vector)
        requires
            y == x ^ (1u8 << bit),
            bit < 8,
    ;
    let u = s.update(pos, y);
    let t = u + rest;
    let n = d.len() as int;
    lemma_chunk_round_trip(k, d, rest);
    lemma_be_round_trip(d.len() as u32);
    lemma_be_round_trip(crc32_spec(k + d));
    let s0 = s + rest;
    assert(t.take(4) =~= s0.take(4));
    assert(be_u32(t) == be_u32(t.take(4)));
    assert(be_u32(s0) == be_u32(s0.take(4)));
    assert(be_u32(t) == n);
    let m = k + d;
    let m2 = t.subrange(4, 8 + n);
    assert(s0.subrange(4, 8 + n) =~= m);
    if pos < 8 + n {
        assert(forall|j: int| 0 <= j < m.len() && j != pos - 4 ==> m[j] == m2[j]);
        assert(m2[pos - 4] == y);
        assert(m[pos - 4] == x);
        assert(t.skip(8 + n).take(4) =~= s0.skip(8 + n).take(4));
        if valid_kind(t.subrange(4, 8)) {
            lemma_crc_detects_one_byte(CRC_INIT, m, m2, pos - 4);
            let c1 = crate::crc::crc_update_spec(CRC_INIT, m);
            let c2 = crate::crc::crc_update_spec(CRC_INIT, m2);
            assert(c1 ^ CRC_INIT != c2 ^ CRC_INIT) by (bit_vector)
                requires
                    c1 != c2,
            ;
            assert(be_u32(t.skip(8 + n)) == be_u32(t.skip(8 + n).take(4)));
            assert(be_u32(s0.skip(8 + n)) == be_u32(s0.skip(8 + n).take(4)));
        } else {
            assert(pos < 8);
        }
    } else {
        assert(t.subrange(4, 8 + n) =~= m);
        let j = pos - 8 - n;
        let a = s0.skip(8 + n);
        let b = t.skip(8 + n);
        assert(a[j] == x);
        assert(b[j] == y);
        lemma_be_u32_differs(a, b, j);
    }
}

/// Appends the four big-endian bytes of `v`.
fn push_be_u32(out: &mut Vec<u8>, v: u32)
    ensures
        final(out)@ == old(out)@ + be_bytes(v),
{
    out.push((v / 0x100_0000) as u8);
    out.push(((v / 0x1_0000) % 0x100) as u8);
    out.push(((v / 0x100) % 0x100) as u8);
    out.push((v % 0x100) as u8);
    assert(final(out)@ =~= old(out)@ + be_bytes(v));
}

} // verus!

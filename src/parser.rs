//! The decoder: header validation, the chunks before the image data, and
//! the reconstruction of the pixel grid.
use vstd::prelude::*;
use crate::chunk::{Chunk, chunk_parse};
use crate::chunk_kind::{valid_kind, idat_bytes, ihdr_bytes, plte_bytes, ihdr, idat, plte, ChunkKind};
use crate::chunk_reader::{ChunkReader, idat_stream, bridge_header};
use crate::color_kind::{ColorKind, PngColor, color_kind_of, depth_allowed};
use crate::error::PngError;
use crate::source::{ByteReader, be_u32, read_be_u32_at};
use crate::decode::{decode_image, decode_pixels};
use crate::inflate::{inflate, zlib_inflate};
use crate::Png;

verus! {

/// What the 13 bytes of the header chunk say: width, height, color type,
/// bit depth and interlace method, or why they are refused.
pub open spec fn header_parse(d: Seq<u8>) -> Result<(u32, u32, ColorKind, u8, u8), PngError> {
    if d.len() != 13 {
        Err(PngError::BadHeader)
    } else if be_u32(d) == 0 || be_u32(d.skip(4)) == 0 {
        Err(PngError::EmptyImage)
    } else if color_kind_of(d[9]) is None {
        Err(PngError::UnknownColorType)
    } else if !depth_allowed(color_kind_of(d[9]).unwrap(), d[8]) {
        Err(PngError::InvalidBitDepth)
    } else if d[10] != 0 {
        Err(PngError::BadCompressionMethod)
    } else if d[11] != 0 {
        Err(PngError::BadFilterMethod)
    } else if d[12] > 1 {
        Err(PngError::BadInterlaceMethod)
    } else {
        Ok((be_u32(d) as u32, be_u32(d.skip(4)) as u32, color_kind_of(d[9]).unwrap(), d[8], d[12]))
    }
}

/// A bit depth of 3 is refused with every color type, 16 bits is refused
/// for indexed color, and so is a width or a height of zero.
pub proof fn lemma_profile_rejections(d: Seq<u8>)
    requires
        d.len() == 13,
    ensures
        d[8] == 3 ==> header_parse(d) is Err,
        (d[8] == 16 && d[9] == 3) ==> header_parse(d) is Err,
        (be_u32(d) == 0 || be_u32(d.skip(4)) == 0) ==> header_parse(d) is Err,
{
}

/// The validated image header.
pub struct Header {
    pub width: u32,
    pub height: u32,
    pub color: PngColor,
    pub interlace: u8,
}

impl Header {
    pub open spec fn view(&self) -> (u32, u32, ColorKind, u8, u8) {
        (self.width, self.height, self.color@.0, self.color@.1, self.interlace)
    }

    pub open spec fn wf(&self) -> bool {
        &&& self.color.wf()
        &&& self.width > 0
        &&& self.height > 0
        &&& self.interlace <= 1
    }

    /// Validates the data of the header chunk.
    pub fn parse(d: &[u8]) -> (r: Result<Header, PngError>)
        ensures
            match r {
                Ok(h) => header_parse(d@) == Ok::<(u32, u32, ColorKind, u8, u8), PngError>(h.view())
                    && h.wf(),
                Err(e) => header_parse(d@) == Err::<(u32, u32, ColorKind, u8, u8), PngError>(e),
            },
    {
        if d.len() != 13 {
            return Err(PngError::BadHeader);
        }
        let width = read_be_u32_at(d, 0);
        let height = read_be_u32_at(d, 4);
        assert(d@.skip(0) =~= d@);
        if width == 0 || height == 0 {
            return Err(PngError::EmptyImage);
        }
        let kind = match ColorKind::from_byte(d[9]) {
            Ok(k) => k,
            Err(e) => return Err(e),
        };
        let color = match PngColor::new(kind, d[8]) {
            Ok(c) => c,
            Err(e) => return Err(e),
        };
        if d[10] != 0 {
            return Err(PngError::BadCompressionMethod);
        }
        if d[11] != 0 {
            return Err(PngError::BadFilterMethod);
        }
        if d[12] > 1 {
            return Err(PngError::BadInterlaceMethod);
        }
        Ok(Header { width, height, color, interlace: d[12] })
    }
}

/// Whether a palette chunk's data is well formed: 1 to 256 entries of three
/// bytes.
pub open spec fn palette_ok(d: Seq<u8>) -> bool {
    d.len() > 0 && d.len() % 3 == 0 && d.len() <= 768
}

/// Walks the chunks between the header and the image data. `s` stands at a
/// chunk header; the result is the source at the first `IDAT` header and
/// the last palette seen. Unknown ancillary chunks are skipped; any other
/// critical chunk is refused.
pub open spec fn prelude(s: Seq<u8>, pal: Option<Seq<u8>>) -> Result<
    (Seq<u8>, Option<Seq<u8>>),
    PngError,
>
    decreases s.len(),
{
    if s.len() < 8 {
        Err(PngError::UnexpectedEnd)
    } else if !valid_kind(s.subrange(4, 8)) {
        Err(PngError::InvalidChunkKind)
    } else if s.subrange(4, 8) == idat_bytes() {
        Ok((s, pal))
    } else {
        match chunk_parse(s) {
            Err(e) => Err(e),
            Ok(c) => if c.0 == plte_bytes() {
                if !palette_ok(c.1) {
                    Err(PngError::BadPalette)
                } else {
                    prelude(s.skip(12 + c.1.len() as int), Some(c.1))
                }
            } else if c.0[0] & 32 == 0 {
                Err(PngError::UnexpectedChunk)
            } else {
                prelude(s.skip(12 + c.1.len() as int), pal)
            },
        }
    }
}

/// Everything before the image data of a datastream: the header, the
/// palette (required for indexed color), and the source at the first
/// `IDAT` header.
pub open spec fn datastream_prelude(s: Seq<u8>) -> Result<
    ((u32, u32, ColorKind, u8, u8), Seq<u8>, Seq<u8>),
    PngError,
> {
    if s.len() < 8 {
        Err(PngError::UnexpectedEnd)
    } else if s.take(8) != crate::chunk::png_signature() {
        Err(PngError::BadSignature)
    } else {
        match chunk_parse(s.skip(8)) {
            Err(e) => Err(e),
            Ok(c) => if c.0 != ihdr_bytes() || c.1.len() != 13 {
                Err(PngError::BadHeader)
            } else {
                match header_parse(c.1) {
                    Err(e) => Err(e),
                    Ok(h) => after_header(h, prelude(s.skip(33), None)),
                }
            },
        }
    }
}

/// The rest of `datastream_prelude` once the header `h` is known and the
/// walk over the chunks before the image data gave `pr`.
pub open spec fn after_header(
    h: (u32, u32, ColorKind, u8, u8),
    pr: Result<(Seq<u8>, Option<Seq<u8>>), PngError>,
) -> Result<((u32, u32, ColorKind, u8, u8), Seq<u8>, Seq<u8>), PngError> {
    match pr {
        Err(e) => Err(e),
        Ok((at, pal)) => if h.2 is Indexed && pal is None {
            Err(PngError::BadPalette)
        } else {
            match bridge_header(at) {
                Err(e) => Err(e),
                Ok(_) => Ok((h, if pal is Some { pal.unwrap() } else { Seq::empty() }, at)),
            }
        },
    }
}

pub open spec fn opt_view(o: Option<Vec<u8>>) -> Option<Seq<u8>> {
    match o {
        Some(p) => Some(p@),
        None => None,
    }
}

/// A decoder positioned at the image data of a datastream.
pub struct PngParser {
    reader: ChunkReader,
    header: Header,
    palette: Vec<u8>,
}

impl PngParser {
    pub closed spec fn wf(&self) -> bool {
        self.reader.wf() && self.header.wf()
    }

    /// The header, the palette, and the stream of image data still to come.
    pub closed spec fn parts(&self) -> ((u32, u32, ColorKind, u8, u8), Seq<u8>, (Seq<u8>, Option<PngError>)) {
        (self.header.view(), self.palette@, self.reader.stream())
    }

    /// Checks the signature and the header, walks the chunks before the
    /// image data, and opens the stream of image data.
    pub fn new(data: Vec<u8>) -> (r: Result<Self, PngError>)
        ensures
            match datastream_prelude(data@) {
                Err(e) => r == Err::<PngParser, PngError>(e),
                Ok((h, pal, at)) => r is Ok && r.unwrap().wf() && r.unwrap().parts() == (
                    h,
                    pal,
                    idat_stream(at),
                ),
            },
    {
        let ghost s = data@;
        let mut reader = ByteReader::new(data);
        let sig = match reader.read_exact(8) {
            Some(v) => v,
            None => return Err(PngError::UnexpectedEnd),
        };
        match crate::chunk::check_signature(sig.as_slice()) {
            Ok(()) => {},
            Err(e) => {
                assert(sig@.take(8) =~= sig@);
                return Err(e);
            },
        }
        assert(sig@.take(8) =~= sig@);
        let hdr = match Chunk::read(&mut reader) {
            Ok(c) => c,
            Err(e) => return Err(e),
        };
        if !hdr.kind().same(&ihdr()) || hdr.len() != 13 {
            return Err(PngError::BadHeader);
        }
        let header = match Header::parse(hdr.data()) {
            Ok(h) => h,
            Err(e) => return Err(e),
        };
        assert(reader.rest() =~= s.skip(33));
        assert(s.skip(8).skip(25) =~= s.skip(33));
        let mut palette: Option<Vec<u8>> = None;
        let idat_kind = idat();
        let plte_kind = plte();
        loop
            invariant
                reader.wf(),
                idat_kind@ == idat_bytes(),
                plte_kind@ == plte_bytes(),
                header.wf(),
                s == data@,
                datastream_prelude(s) == after_header(
                    header.view(),
                    prelude(reader.rest(), opt_view(palette)),
                ),
            ensures
                prelude(reader.rest(), opt_view(palette)) == Ok::<
                    (Seq<u8>, Option<Seq<u8>>),
                    PngError,
                >((reader.rest(), opt_view(palette))),
            decreases reader.rest().len(),
        {
            let head = match reader.peek(8) {
                Some(v) => v,
                None => return Err(PngError::UnexpectedEnd),
            };
            let arr: [u8; 4] = [head[4], head[5], head[6], head[7]];
            assert(arr@ =~= reader.rest().subrange(4, 8));
            let kind = match ChunkKind::from_bytes(&arr) {
                Ok(k) => k,
                Err(e) => return Err(e),
            };
            if kind.same(&idat_kind) {
                assert(reader.rest().subrange(4, 8) == idat_bytes());
                break;
            }
            assert(reader.rest().subrange(4, 8) != idat_bytes());
            let ghost before = reader.rest();
            let c = match Chunk::read(&mut reader) {
                Ok(c) => c,
                Err(e) => return Err(e),
            };
            if c.kind().same(&plte_kind) {
                let n = c.len();
                if n == 0 || n % 3 != 0 || n > 768 {
                    return Err(PngError::BadPalette);
                }
                palette = Some(c.into_data());
            } else if c.kind().critical() {
                return Err(PngError::UnexpectedChunk);
            }
        }
        let ghost at = reader.rest();
        let palette: Vec<u8> = match palette {
            Some(p) => p,
            None => {
                if let ColorKind::Indexed = header.color.kind() {
                    return Err(PngError::BadPalette);
                }
                Vec::new()
            },
        };
        let bridge = match ChunkReader::new(reader) {
            Ok(b) => b,
            Err(e) => return Err(e),
        };
        Ok(PngParser { reader: bridge, header, palette })
    }

    /// What parsing gives once the image data stream `st` has been read:
    /// a failure of the stream, of the decompressor, or of the pixel
    /// decoding; or the image.
    pub open spec fn outcome(
        h: (u32, u32, ColorKind, u8, u8),
        pal: Seq<u8>,
        st: (Seq<u8>, Option<PngError>),
        r: Result<Png, PngError>,
    ) -> bool {
        if let Some(e) = st.1 {
            r == Err::<Png, PngError>(e)
        } else {
            match zlib_inflate(st.0) {
                None => r == Err::<Png, PngError>(PngError::Decompression),
                Some(raw) => match decode_image(h, pal, raw) {
                    Err(e) => r == Err::<Png, PngError>(e),
                    Ok(px) => r is Ok && r.unwrap()@ == (h.1, h.0, px),
                },
            }
        }
    }

    /// Reads the image data, inflates it, and decodes the pixel grid.
    pub fn parse(self) -> (r: Result<Png, PngError>)
        requires
            self.wf(),
        ensures
            Self::outcome(self.parts().0, self.parts().1, self.parts().2, r),
    {
        let mut this = self;
        let compressed = match this.reader.read_to_end(8192) {
            Ok(v) => v,
            Err(e) => return Err(e),
        };
        let raw = match inflate(compressed.as_slice()) {
            Some(v) => v,
            None => return Err(PngError::Decompression),
        };
        let pixels = match decode_pixels(&this.header, this.palette.as_slice(), raw.as_slice()) {
            Ok(p) => p,
            Err(e) => return Err(e),
        };
        Ok(Png::new(this.header.height, this.header.width, pixels))
    }
}

/// Decodes a whole datastream held in memory.
pub fn decode(data: Vec<u8>) -> (r: Result<Png, PngError>)
    ensures
        match datastream_prelude(data@) {
            Err(e) => r == Err::<Png, PngError>(e),
            Ok((h, pal, at)) => PngParser::outcome(h, pal, idat_stream(at), r),
        },
{
    match PngParser::new(data) {
        Ok(p) => p.parse(),
        Err(e) => Err(e),
    }
}

/// Decoding depends on the bytes alone: two decodings of the same
/// datastream, where one succeeds, give the same image.
pub proof fn lemma_decode_idempotent(data: Vec<u8>, r1: Result<Png, PngError>, r2: Result<Png, PngError>)
    requires
        call_ensures(decode, (data,), r1),
        call_ensures(decode, (data,), r2),
        r1 is Ok,
    ensures
        r2 is Ok,
        r1.unwrap()@ == r2.unwrap()@,
{
}

} // verus!

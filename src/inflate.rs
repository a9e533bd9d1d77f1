//! The zlib decompressor, used as a byte-stream transform.
use vstd::prelude::*;

verus! {

/// What inflating the zlib stream `compressed` gives: the decompressed
/// bytes, or `None` where the stream is malformed or ends early.
pub uninterp spec fn zlib_inflate(compressed: Seq<u8>) -> Option<Seq<u8>>;

/// Relies on flate2's `read::ZlibDecoder`, read to its end over a byte
/// slice: it inflates one zlib stream, fails on a corrupt or incomplete
/// one, and depends on the input bytes alone.
#[verifier::external_body]
pub(crate) fn inflate(compressed: &[u8]) -> (r: Option<Vec<u8>>)
    ensures
        match r {
            Some(v) => zlib_inflate(compressed@) == Some(v@),
            None => zlib_inflate(compressed@) is None,
        },
{
    let mut out: Vec<u8> = Vec::new();
    let mut decoder = flate2::read::ZlibDecoder::new(compressed);
    match std::io::Read::read_to_end(&mut decoder, &mut out) {
        Ok(_) => Some(out),
        Err(_) => None,
    }
}

} // verus!

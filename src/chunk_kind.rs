//! Four-letter chunk types and the properties carried by their letter case.
use vstd::prelude::*;
use crate::error::PngError;

verus! {

/// The bit that tells an upper-case ASCII letter from a lower-case one.
pub const SIG_BIT: u8 = 0b10_0000;

/// Whether `b` is an ASCII letter.
pub open spec fn is_letter(b: u8) -> bool {
    (65 <= b <= 90) || (97 <= b <= 122)
}

/// Whether the four bytes of `s` form a valid chunk type.
pub open spec fn valid_kind(s: Seq<u8>) -> bool {
    &&& s.len() == 4
    &&& forall|i: int| 0 <= i < 4 ==> is_letter(#[trigger] s[i])
}

pub open spec fn ihdr_bytes() -> Seq<u8> {
    seq![73u8, 72, 68, 82]
}

pub open spec fn plte_bytes() -> Seq<u8> {
    seq![80u8, 76, 84, 69]
}

pub open spec fn idat_bytes() -> Seq<u8> {
    seq![73u8, 68, 65, 84]
}

pub open spec fn iend_bytes() -> Seq<u8> {
    seq![73u8, 69, 78, 68]
}

/// A chunk type: four ASCII letters.
#[derive(Debug, Clone, Copy, PartialEq, Eq)]
pub struct ChunkKind([u8; 4]);

impl View for ChunkKind {
    type V = Seq<u8>;

    closed spec fn view(&self) -> Seq<u8> {
        self.0@
    }
}

/// The image header kind.
pub fn ihdr() -> (r: ChunkKind)
    ensures
        r@ == ihdr_bytes(),
{
    let r = ChunkKind([73, 72, 68, 82]);
    assert(r@ =~= ihdr_bytes());
    r
}

/// The palette kind.
pub fn plte() -> (r: ChunkKind)
    ensures
        r@ == plte_bytes(),
{
    let r = ChunkKind([80, 76, 84, 69]);
    assert(r@ =~= plte_bytes());
    r
}

/// The image data kind.
pub fn idat() -> (r: ChunkKind)
    ensures
        r@ == idat_bytes(),
{
    let r = ChunkKind([73, 68, 65, 84]);
    assert(r@ =~= idat_bytes());
    r
}

/// The image trailer kind.
pub fn iend() -> (r: ChunkKind)
    ensures
        r@ == iend_bytes(),
{
    let r = ChunkKind([73, 69, 78, 68]);
    assert(r@ =~= iend_bytes());
    r
}

impl ChunkKind {
    /// Checks that the four bytes are letters and wraps them.
    pub fn from_bytes(value: &[u8; 4]) -> (r: Result<ChunkKind, PngError>)
        ensures
            valid_kind(value@) ==> r is Ok && r.unwrap()@ == value@,
            !valid_kind(value@) ==> r == Err::<ChunkKind, PngError>(PngError::InvalidChunkKind),
    {
        check_kind(value)
    }

    /// The raw chunk type.
    pub fn as_bytes(&self) -> (r: &[u8; 4])
        ensures
            r@ == self@,
    {
        &self.0
    }

    /// Whether two kinds are the same four bytes.
    pub fn same(&self, other: &ChunkKind) -> (r: bool)
        ensures
            r == (self@ == other@),
    {
        let r = self.0[0] == other.0[0] && self.0[1] == other.0[1] && self.0[2] == other.0[2]
            && self.0[3] == other.0[3];
        assert(r ==> self@ =~= other@);
        r
    }

    /// A critical chunk must be understood by every decoder; its first
    /// letter is upper case.
    pub fn critical(&self) -> (r: bool)
        ensures
            r == (self@[0] & SIG_BIT == 0),
    {
        self.0[0] & SIG_BIT == 0
    }

    /// A public chunk is registered in the standard; its second letter is
    /// upper case.
    pub fn public(&self) -> (r: bool)
        ensures
            r == (self@[1] & SIG_BIT == 0),
    {
        self.0[1] & SIG_BIT == 0
    }

    /// A copy-safe chunk may be carried over by an editor that does not
    /// know it; its fourth letter is lower case.
    pub fn copy_safe(&self) -> (r: bool)
        ensures
            r == (self@[3] & SIG_BIT == SIG_BIT),
    {
        self.0[3] & SIG_BIT == SIG_BIT
    }
}

/// Two kinds with the same bytes are the same kind.
proof fn lemma_view_injective(a: ChunkKind, b: ChunkKind)
    requires
        a@ == b@,
    ensures
        a == b,
{
    assert(a.0 =~= b.0);
}

fn check_kind(value: &[u8; 4]) -> (r: Result<ChunkKind, PngError>)
    ensures
        valid_kind(value@) ==> r == Ok::<ChunkKind, PngError>(ChunkKind(*value)),
        !valid_kind(value@) ==> r == Err::<ChunkKind, PngError>(PngError::InvalidChunkKind),
{
    let mut i: usize = 0;
    while i < 4
        invariant
            i <= 4,
            value@.len() == 4,
            forall|j: int| 0 <= j < i ==> is_letter(#[trigger] value@[j]),
        decreases 4 - i,
    {
        let v = value[i];
        if !((v >= 65 && v <= 90) || (v >= 97 && v <= 122)) {
            return Err(PngError::InvalidChunkKind);
        }
        i = i + 1;
    }
    Ok(ChunkKind(*value))
}

impl<'a> TryFrom<&'a [u8; 4]> for ChunkKind {
    type Error = PngError;

    fn try_from(value: &'a [u8; 4]) -> (r: Result<ChunkKind, PngError>) {
        let r = check_kind(value);
        proof {
            if valid_kind(value@) {
                let k = choose|k: ChunkKind| k@ == value@;
                assert(ChunkKind(*value)@ == value@);
                lemma_view_injective(k, ChunkKind(*value));
            }
        }
        r
    }
}

impl<'a> vstd::std_specs::convert::TryFromSpecImpl<&'a [u8; 4]> for ChunkKind {
    open spec fn obeys_try_from_spec() -> bool {
        true
    }

    open spec fn try_from_spec(value: &'a [u8; 4]) -> Result<ChunkKind, PngError> {
        if valid_kind(value@) {
            Ok(choose|k: ChunkKind| k@ == value@)
        } else {
            Err(PngError::InvalidChunkKind)
        }
    }
}

} // verus!

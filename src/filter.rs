//! Filter methods, per-row filter types, and scanline reconstruction.
use vstd::prelude::*;
use crate::error::PngError;

verus! {

/// The filter method of the header. Method 0 is the only one defined.
#[derive(Debug, Default, Clone, Copy, PartialEq, Eq, Structural)]
pub enum Filter {
    /// Filter method 0: five filter types chosen per row.
    #[default]
    Zero,
}

impl Filter {
    pub fn from_byte(value: u8) -> (r: Result<Filter, PngError>)
        ensures
            value == 0 ==> r == Ok::<Filter, PngError>(Filter::Zero),
            value != 0 ==> r == Err::<Filter, PngError>(PngError::BadFilterMethod),
    {
        if value == 0 {
            Ok(Filter::Zero)
        } else {
            Err(PngError::BadFilterMethod)
        }
    }
}

impl TryFrom<u8> for Filter {
    type Error = PngError;

    fn try_from(value: u8) -> (r: Result<Filter, PngError>) {
        Filter::from_byte(value)
    }
}

impl vstd::std_specs::convert::TryFromSpecImpl<u8> for Filter {
    open spec fn obeys_try_from_spec() -> bool {
        true
    }

    open spec fn try_from_spec(value: u8) -> Result<Filter, PngError> {
        if value == 0 {
            Ok(Filter::Zero)
        } else {
            Err(PngError::BadFilterMethod)
        }
    }
}

/// The filter type that leads each scanline.
#[derive(Debug, Default, Clone, Copy, PartialEq, Eq, Structural)]
pub enum FilterKind {
    #[default]
    NoFilter,
    Sub,
    Up,
    Average,
    Paeth,
}

/// The filter type a scanline's leading byte names.
pub open spec fn filter_kind_of(value: u8) -> Option<FilterKind> {
    match value {
        0 => Some(FilterKind::NoFilter),
        1 => Some(FilterKind::Sub),
        2 => Some(FilterKind::Up),
        3 => Some(FilterKind::Average),
        4 => Some(FilterKind::Paeth),
        _ => None,
    }
}

impl FilterKind {
    pub fn from_byte(value: u8) -> (r: Result<FilterKind, PngError>)
        ensures
            match filter_kind_of(value) {
                Some(k) => r == Ok::<FilterKind, PngError>(k),
                None => r == Err::<FilterKind, PngError>(PngError::BadFilterType),
            },
    {
        match value {
            0 => Ok(FilterKind::NoFilter),
            1 => Ok(FilterKind::Sub),
            2 => Ok(FilterKind::Up),
            3 => Ok(FilterKind::Average),
            4 => Ok(FilterKind::Paeth),
            _ => Err(PngError::BadFilterType),
        }
    }
}

impl TryFrom<u8> for FilterKind {
    type Error = PngError;

    fn try_from(value: u8) -> (r: Result<FilterKind, PngError>) {
        FilterKind::from_byte(value)
    }
}

impl vstd::std_specs::convert::TryFromSpecImpl<u8> for FilterKind {
    open spec fn obeys_try_from_spec() -> bool {
        true
    }

    open spec fn try_from_spec(value: u8) -> Result<FilterKind, PngError> {
        match filter_kind_of(value) {
            Some(k) => Ok(k),
            None => Err(PngError::BadFilterType),
        }
    }
}

pub open spec fn abs_diff(x: int, y: int) -> int {
    if x >= y {
        x - y
    } else {
        y - x
    }
}

/// Whichever of `a`, `b`, `c` lies closest to `a + b - c`; ties go to `a`,
/// then to `b`.
pub open spec fn paeth_spec(a: u8, b: u8, c: u8) -> u8 {
    let p = a + b - c;
    let pa = abs_diff(p, a as int);
    let pb = abs_diff(p, b as int);
    let pc = abs_diff(p, c as int);
    if pa <= pb && pa <= pc {
        a
    } else if pb <= pc {
        b
    } else {
        c
    }
}

/// Byte `x` of a reconstructed row, from the filtered bytes `f`, the
/// reconstructed previous row `u` (zeros before the first row) and the
/// number of bytes per complete pixel `bpp`. Arithmetic wraps at 256.
pub open spec fn recon_at(kind: FilterKind, f: Seq<u8>, u: Seq<u8>, bpp: int, x: int) -> u8
    decreases x,
{
    if bpp <= 0 || x < 0 {
        0
    } else {
        let a: u8 = if x >= bpp {
            recon_at(kind, f, u, bpp, x - bpp)
        } else {
            0
        };
        let b: u8 = u[x];
        let c: u8 = if x >= bpp {
            u[x - bpp]
        } else {
            0
        };
        unfilter_byte_spec(kind, f[x], a, b, c)
    }
}

/// One reconstructed byte from its filtered value `v`, the reconstructed
/// byte to its left `a`, the one above `b` and the one above-left `c`.
pub open spec fn unfilter_byte_spec(kind: FilterKind, v: u8, a: u8, b: u8, c: u8) -> u8 {
    match kind {
        FilterKind::NoFilter => v,
        FilterKind::Sub => ((v + a) % 256) as u8,
        FilterKind::Up => ((v + b) % 256) as u8,
        FilterKind::Average => ((v + (a + b) / 2) % 256) as u8,
        FilterKind::Paeth => ((v + paeth_spec(a, b, c)) % 256) as u8,
    }
}

fn unfilter_byte(kind: FilterKind, v: u8, a: u8, b: u8, c: u8) -> (r: u8)
    ensures
        r == unfilter_byte_spec(kind, v, a, b, c),
{
    match kind {
        FilterKind::NoFilter => v,
        FilterKind::Sub => ((v as u16 + a as u16) % 256) as u8,
        FilterKind::Up => ((v as u16 + b as u16) % 256) as u8,
        FilterKind::Average => ((v as u16 + (a as u16 + b as u16) / 2) % 256) as u8,
        FilterKind::Paeth => ((v as u16 + paeth_predict(a, b, c) as u16) % 256) as u8,
    }
}

/// The whole reconstructed row.
pub open spec fn recon_row(kind: FilterKind, f: Seq<u8>, u: Seq<u8>, bpp: int) -> Seq<u8> {
    Seq::new(f.len(), |x: int| recon_at(kind, f, u, bpp, x))
}

/// The Paeth predictor.
pub fn paeth_predict(a: u8, b: u8, c: u8) -> (r: u8)
    ensures
        r == paeth_spec(a, b, c),
{
    let p: i32 = a as i32 + b as i32 - c as i32;
    let pa: i32 = if p >= a as i32 { p - a as i32 } else { a as i32 - p };
    let pb: i32 = if p >= b as i32 { p - b as i32 } else { b as i32 - p };
    let pc: i32 = if p >= c as i32 { p - c as i32 } else { c as i32 - p };
    if pa <= pb && pa <= pc {
        a
    } else if pb <= pc {
        b
    } else {
        c
    }
}

/// Reverses the filter `kind` on the filtered bytes of one scanline, given
/// the reconstructed previous row.
pub fn reconstruct_row(kind: FilterKind, filtered: &[u8], prev: &[u8], bpp: usize) -> (r: Vec<u8>)
    requires
        prev@.len() == filtered@.len(),
        bpp >= 1,
    ensures
        r@ == recon_row(kind, filtered@, prev@, bpp as int),
{
    let n = filtered.len();
    let mut out: Vec<u8> = Vec::new();
    let mut x: usize = 0;
    while x < n
        invariant
            n == filtered@.len(),
            prev@.len() == n,
            bpp >= 1,
            x <= n,
            out@.len() == x,
            forall|j: int| 0 <= j < x ==> out@[j] == recon_at(kind, filtered@, prev@, bpp as int, j),
        decreases n - x,
    {
        let a: u8 = if x >= bpp {
            out[x - bpp]
        } else {
            0
        };
        let b: u8 = prev[x];
        let c: u8 = if x >= bpp {
            prev[x - bpp]
        } else {
            0
        };
        let v = unfilter_byte(kind, filtered[x], a, b, c);
        assert(v == recon_at(kind, filtered@, prev@, bpp as int, x as int));
        out.push(v);
        x = x + 1;
    }
    assert(out@ =~= recon_row(kind, filtered@, prev@, bpp as int));
    out
}

/// Every filter type turns an all-zero filtered row over an all-zero
/// previous row into an all-zero row.
pub proof fn lemma_zero_row_stays_zero(kind: FilterKind, f: Seq<u8>, u: Seq<u8>, bpp: int, x: int)
    requires
        bpp >= 1,
        0 <= x < f.len(),
        u.len() == f.len(),
        forall|j: int| 0 <= j < f.len() ==> f[j] == 0,
        forall|j: int| 0 <= j < u.len() ==> u[j] == 0,
    ensures
        recon_at(kind, f, u, bpp, x) == 0,
    decreases x,
{
    if x >= bpp {
        lemma_zero_row_stays_zero(kind, f, u, bpp, x - bpp);
    }
}

/// The Paeth predictor returns one of its three neighbors, the one closest
/// to `a + b - c`, preferring `a` and then `b` where distances tie.
pub proof fn lemma_paeth_choice(a: u8, b: u8, c: u8)
    ensures
        ({
            let p = a + b - c;
            let pa = abs_diff(p, a as int);
            let pb = abs_diff(p, b as int);
            let pc = abs_diff(p, c as int);
            let r = paeth_spec(a, b, c);
            &&& r == a || r == b || r == c
            &&& abs_diff(p, r as int) <= pa && abs_diff(p, r as int) <= pb && abs_diff(p, r as int)
                <= pc
            &&& (pa <= pb && pa <= pc) ==> r == a
            &&& (pb < pa && pb <= pc) ==> r == b
        }),
{
}

} // verus!

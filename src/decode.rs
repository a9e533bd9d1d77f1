//! Turning the inflated image data into the pixel grid: scanlines are
//! reconstructed pass by pass (one pass, or the seven of Adam7), then each
//! pixel is unpacked from the pass and row it belongs to.
use vstd::prelude::*;
use crate::color_kind::{ColorKind, channels_spec, pixel_spec, indexed_pixel_spec, raw_sample};
use crate::error::PngError;
use crate::filter::{FilterKind, filter_kind_of, recon_row, reconstruct_row};
use crate::parser::Header;
use crate::Color;

verus! {

/// Where pass `p` of interlace method `il` starts and how far apart its
/// pixels are: (first column, first row, column step, row step).
pub open spec fn pass_geom(il: u8, p: int) -> (int, int, int, int) {
    if il == 0 {
        (0, 0, 1, 1)
    } else if p == 0 {
        (0, 0, 8, 8)
    } else if p == 1 {
        (4, 0, 8, 8)
    } else if p == 2 {
        (0, 4, 4, 8)
    } else if p == 3 {
        (2, 0, 4, 4)
    } else if p == 4 {
        (0, 2, 2, 4)
    } else if p == 5 {
        (1, 0, 2, 2)
    } else {
        (0, 1, 1, 2)
    }
}

pub open spec fn num_passes(il: u8) -> int {
    if il == 0 {
        1
    } else {
        7
    }
}

/// How many of `0..total` a pass starting at `start` with step `step` hits.
pub open spec fn extent(total: int, start: int, step: int) -> int {
    if total > start {
        (total - start + step - 1) / step
    } else {
        0
    }
}

/// Bits per pixel.
pub open spec fn pixel_bits(h: (u32, u32, ColorKind, u8, u8)) -> int {
    channels_spec(h.2) * h.3
}

/// Bytes of a scanline of `pw` pixels, without its filter byte.
pub open spec fn row_bytes(pw: int, bits: int) -> int {
    (pw * bits + 7) / 8
}

/// Bytes per complete pixel, rounded up: the distance to the left neighbor
/// for the filters.
pub open spec fn filter_bpp(h: (u32, u32, ColorKind, u8, u8)) -> int {
    (pixel_bits(h) + 7) / 8
}

pub open spec fn zero_row(n: int) -> Seq<u8> {
    Seq::new(n as nat, |i: int| 0u8)
}

/// Columns and rows of pass `p`.
pub open spec fn pass_dims(h: (u32, u32, ColorKind, u8, u8), p: int) -> (int, int) {
    let g = pass_geom(h.4, p);
    (extent(h.0 as int, g.0, g.2), extent(h.1 as int, g.1, g.3))
}

/// The first `ph` reconstructed rows of a pass of `pw` columns whose
/// scanlines start at `off` in `raw`; its first row is reconstructed
/// against a row of zeros.
pub open spec fn pass_rows(
    h: (u32, u32, ColorKind, u8, u8),
    raw: Seq<u8>,
    off: int,
    pw: int,
    ph: int,
) -> Result<Seq<Seq<u8>>, PngError>
    decreases ph,
{
    if ph <= 0 {
        Ok(Seq::empty())
    } else {
        match pass_rows(h, raw, off, pw, ph - 1) {
            Err(e) => Err(e),
            Ok(rows) => {
                let rb = row_bytes(pw, pixel_bits(h));
                let start = off + (ph - 1) * (rb + 1);
                if raw.len() < start + rb + 1 {
                    Err(PngError::UnexpectedEnd)
                } else {
                    match filter_kind_of(raw[start]) {
                        None => Err(PngError::BadFilterType),
                        Some(k) => Ok(
                            rows.push(
                                recon_row(
                                    k,
                                    raw.subrange(start + 1, start + 1 + rb),
                                    if ph == 1 {
                                        zero_row(rb)
                                    } else {
                                        rows.last()
                                    },
                                    filter_bpp(h),
                                ),
                            ),
                        ),
                    }
                }
            },
        }
    }
}

/// The reconstructed rows of the first `n` passes, and where the next
/// pass's scanlines start. An empty pass has no scanlines.
pub open spec fn passes_upto(h: (u32, u32, ColorKind, u8, u8), raw: Seq<u8>, n: int) -> Result<
    (Seq<Seq<Seq<u8>>>, int),
    PngError,
>
    decreases n,
{
    if n <= 0 {
        Ok((Seq::empty(), 0))
    } else {
        match passes_upto(h, raw, n - 1) {
            Err(e) => Err(e),
            Ok((ps, off)) => {
                let d = pass_dims(h, n - 1);
                if d.0 == 0 || d.1 == 0 {
                    Ok((ps.push(Seq::empty()), off))
                } else {
                    match pass_rows(h, raw, off, d.0, d.1) {
                        Err(e) => Err(e),
                        Ok(rows) => Ok(
                            (ps.push(rows), off + d.1 * (row_bytes(d.0, pixel_bits(h)) + 1)),
                        ),
                    }
                }
            },
        }
    }
}

/// The pass that holds the pixel at column `x`, row `y`.
pub open spec fn pass_of(il: u8, x: int, y: int) -> int {
    if il == 0 {
        0
    } else if y % 2 == 1 {
        6
    } else if x % 2 == 1 {
        5
    } else if y % 4 == 2 {
        4
    } else if x % 4 == 2 {
        3
    } else if y % 8 == 4 {
        2
    } else if x % 8 == 4 {
        1
    } else {
        0
    }
}

/// The reconstructed row of its pass that holds the pixel at (`x`, `y`).
pub open spec fn pixel_row(h: (u32, u32, ColorKind, u8, u8), ps: Seq<Seq<Seq<u8>>>, x: int, y: int) -> Seq<u8> {
    let p = pass_of(h.4, x, y);
    let g = pass_geom(h.4, p);
    ps[p][(y - g.1) / g.3]
}

/// The position of the pixel at (`x`, `y`) within that row.
pub open spec fn pixel_col(h: (u32, u32, ColorKind, u8, u8), x: int, y: int) -> int {
    let g = pass_geom(h.4, pass_of(h.4, x, y));
    (x - g.0) / g.2
}

/// Whether the palette index of the pixel at (`x`, `y`) names an entry.
pub open spec fn index_ok(h: (u32, u32, ColorKind, u8, u8), pal: Seq<u8>, ps: Seq<Seq<Seq<u8>>>, x: int, y: int) -> bool {
    3 * raw_sample(pixel_row(h, ps, x, y), pixel_col(h, x, y), h.3) + 3 <= pal.len()
}

/// The color of the pixel at (`x`, `y`).
pub open spec fn image_pixel(
    h: (u32, u32, ColorKind, u8, u8),
    pal: Seq<u8>,
    ps: Seq<Seq<Seq<u8>>>,
    x: int,
    y: int,
) -> (u16, u16, u16, u16) {
    if h.2 is Indexed {
        indexed_pixel_spec(h.3, pixel_row(h, ps, x, y), pal, pixel_col(h, x, y))
    } else {
        pixel_spec(h.2, h.3, pixel_row(h, ps, x, y), pixel_col(h, x, y))
    }
}

/// Whether the grid and its widest row can be held in memory.
pub open spec fn fits(h: (u32, u32, ColorKind, u8, u8)) -> bool {
    &&& h.0 * h.1 <= usize::MAX
    &&& (row_bytes(h.0 as int, pixel_bits(h)) + 1) * 8 <= usize::MAX
}

/// The decoded grid, row-major, for header `h`, palette `pal` and inflated
/// image data `raw`; or the first failure.
pub open spec fn decode_image(h: (u32, u32, ColorKind, u8, u8), pal: Seq<u8>, raw: Seq<u8>) -> Result<
    Seq<(u16, u16, u16, u16)>,
    PngError,
> {
    if !fits(h) {
        Err(PngError::TooLarge)
    } else {
        match passes_upto(h, raw, num_passes(h.4)) {
            Err(e) => Err(e),
            Ok((ps, _)) => if h.2 is Indexed && exists|x: int, y: int|
                0 <= x < h.0 && 0 <= y < h.1 && !#[trigger] index_ok(h, pal, ps, x, y) {
                Err(PngError::BadPaletteIndex)
            } else {
                Ok(Seq::new((h.0 * h.1) as nat, |k: int| image_pixel(h, pal, ps, k % (h.0 as int), k / (h.0 as int))))
            },
        }
    }
}

/// Pass geometry as machine integers.
fn geometry(il: u8, p: usize) -> (r: (u64, u64, u64, u64))
    ensures
        (r.0 as int, r.1 as int, r.2 as int, r.3 as int) == pass_geom(il, p as int),
{
    if il == 0 {
        (0, 0, 1, 1)
    } else if p == 0 {
        (0, 0, 8, 8)
    } else if p == 1 {
        (4, 0, 8, 8)
    } else if p == 2 {
        (0, 4, 4, 8)
    } else if p == 3 {
        (2, 0, 4, 4)
    } else if p == 4 {
        (0, 2, 2, 4)
    } else if p == 5 {
        (1, 0, 2, 2)
    } else {
        (0, 1, 1, 2)
    }
}

fn extent_of(total: u64, start: u64, step: u64) -> (r: u64)
    requires
        total <= u32::MAX,
        step >= 1,
        step <= 8,
    ensures
        r == extent(total as int, start as int, step as int),
{
    if total > start {
        (total - start + step - 1) / step
    } else {
        0
    }
}

/// Copies `raw[start..start + n]`.
fn copy_range(raw: &[u8], start: usize, n: usize) -> (r: Vec<u8>)
    requires
        start + n <= raw@.len(),
    ensures
        r@ == raw@.subrange(start as int, start + n),
{
    let mut out: Vec<u8> = Vec::new();
    let len = raw.len();
    assert(start + n <= len);
    let end: usize = start + n;
    let mut i: usize = 0;
    while i < n
        invariant
            end == start + n,
            end <= raw@.len(),
            i <= n,
            out@ == raw@.subrange(start as int, start + i),
        decreases n - i,
    {
        out.push(raw[start + i]);
        i = i + 1;
        assert(out@ =~= raw@.subrange(start as int, start + i));
    }
    out
}

fn zeros(n: usize) -> (r: Vec<u8>)
    ensures
        r@ == zero_row(n as int),
{
    let mut out: Vec<u8> = Vec::new();
    let mut i: usize = 0;
    while i < n
        invariant
            i <= n,
            out@ == zero_row(i as int),
        decreases n - i,
    {
        out.push(0);
        i = i + 1;
        assert(out@ =~= zero_row(i as int));
    }
    out
}

/// Reconstructs the `ph` rows of one pass, of `rb` bytes each, whose
/// scanlines start at `off`.
fn decode_pass(header: &Header, raw: &[u8], off: usize, pw: usize, ph: usize, rb: usize, bpp: usize) -> (r: Result<Vec<Vec<u8>>, PngError>)
    requires
        header.wf(),
        rb == row_bytes(pw as int, pixel_bits(header.view())),
        bpp == filter_bpp(header.view()),
        off <= raw@.len(),
        (rb + 1) * 8 <= usize::MAX,
    ensures
        match pass_rows(header.view(), raw@, off as int, pw as int, ph as int) {
            Err(e) => r == Err::<Vec<Vec<u8>>, PngError>(e),
            Ok(rows) => r is Ok && r.unwrap().deep_view() == rows && off + ph * (rb + 1) <= raw@.len()
                && rows.len() == ph && forall|j: int| 0 <= j < ph ==> (#[trigger] rows[j]).len() == rb,
        },
{
    let ghost h = header.view();
    let mut rows: Vec<Vec<u8>> = Vec::new();
    let mut pos: usize = off;
    let mut j: usize = 0;
    assert(rows.deep_view() =~= Seq::<Seq<u8>>::empty());
    while j < ph
        invariant
            h == header.view(),
            rb == row_bytes(pw as int, pixel_bits(h)),
            bpp == filter_bpp(h),
            bpp >= 1,
            (rb + 1) * 8 <= usize::MAX,
            j <= ph,
            pos == off + j * (rb + 1),
            pos <= raw@.len(),
            pass_rows(h, raw@, off as int, pw as int, j as int) == Ok::<Seq<Seq<u8>>, PngError>(rows.deep_view()),
            rows@.len() == j,
            forall|i: int| 0 <= i < j ==> (#[trigger] rows@[i])@.len() == rb,
        decreases ph - j,
    {
        assert((j + 1) * (rb + 1) == j * (rb + 1) + rb + 1) by (nonlinear_arith);
        if raw.len() - pos < rb + 1 {
            proof {
                lemma_pass_rows_error_stays(h, raw@, off as int, pw as int, (j + 1) as int, ph as int);
            }
            return Err(PngError::UnexpectedEnd);
        }
        let ft = match FilterKind::from_byte(raw[pos]) {
            Ok(k) => k,
            Err(e) => {
                proof {
                    lemma_pass_rows_error_stays(h, raw@, off as int, pw as int, (j + 1) as int, ph as int);
                }
                return Err(e);
            },
        };
        let filtered = copy_range(raw, pos + 1, rb);
        let row = if j == 0 {
            let z = zeros(rb);
            reconstruct_row(ft, filtered.as_slice(), z.as_slice(), bpp)
        } else {
            assert(rows.deep_view().last() == rows@[j - 1]@);
            reconstruct_row(ft, filtered.as_slice(), rows[j - 1].as_slice(), bpp)
        };
        let ghost prev = rows.deep_view();
        assert(row.deep_view() =~= row@);
        rows.push(row);
        assert(rows.deep_view() =~= prev.push(row@));
        pos = pos + rb + 1;
        j = j + 1;
    }
    assert forall|i: int| 0 <= i < ph implies (#[trigger] rows.deep_view()[i]).len() == rb by {
        assert(rows.deep_view()[i] == rows@[i].deep_view());
        assert(rows@[i].deep_view() =~= rows@[i]@);
    }
    Ok(rows)
}

/// The rows of each pass come in the count and length its size gives.
pub open spec fn passes_shape(h: (u32, u32, ColorKind, u8, u8), ps: Seq<Seq<Seq<u8>>>, n: int) -> bool {
    &&& ps.len() == n
    &&& forall|p: int|
        #![trigger ps[p]]
        0 <= p < n ==> {
            let d = pass_dims(h, p);
            &&& ps[p].len() == (if d.0 == 0 || d.1 == 0 {
                0
            } else {
                d.1
            })
            &&& forall|j: int| 0 <= j < ps[p].len() ==> (#[trigger] ps[p][j]).len() == row_bytes(d.0, pixel_bits(h))
        }
}

/// Reconstructs the rows of every pass.
fn decode_passes(header: &Header, raw: &[u8]) -> (r: Result<Vec<Vec<Vec<u8>>>, PngError>)
    requires
        header.wf(),
        fits(header.view()),
    ensures
        match passes_upto(header.view(), raw@, num_passes(header.interlace)) {
            Err(e) => r == Err::<Vec<Vec<Vec<u8>>>, PngError>(e),
            Ok((ps, _)) => r is Ok && r.unwrap().deep_view() == ps && passes_shape(
                header.view(),
                ps,
                num_passes(header.interlace),
            ),
        },
{
    let ghost h = header.view();
    let w = header.width as u64;
    let ht = header.height as u64;
    let bits = header.color.data_len() as u64;
    let bpp = ((bits + 7) / 8) as usize;
    let np: usize = if header.interlace == 0 {
        1
    } else {
        7
    };
    let raw_len = raw.len();
    let mut passes: Vec<Vec<Vec<u8>>> = Vec::new();
    let mut off: usize = 0;
    let mut p: usize = 0;
    assert(passes.deep_view() =~= Seq::<Seq<Seq<u8>>>::empty());
    while p < np
        invariant
            h == header.view(),
            header.wf(),
            fits(h),
            w == h.0,
            ht == h.1,
            bits == pixel_bits(h),
            1 <= bits <= 64,
            bpp == filter_bpp(h),
            np == num_passes(h.4),
            p <= np,
            raw_len == raw@.len(),
            off <= raw@.len(),
            passes_upto(h, raw@, p as int) == Ok::<(Seq<Seq<Seq<u8>>>, int), PngError>(
                (passes.deep_view(), off as int),
            ),
            passes_shape(h, passes.deep_view(), p as int),
        decreases np - p,
    {
        let g = geometry(header.interlace, p);
        let pw = extent_of(w, g.0, g.2);
        let ph = extent_of(ht, g.1, g.3);
        let ghost prev = passes.deep_view();
        if pw == 0 || ph == 0 {
            let empty: Vec<Vec<u8>> = Vec::new();
            assert(empty.deep_view() =~= Seq::<Seq<u8>>::empty());
            passes.push(empty);
            assert(passes.deep_view() =~= prev.push(Seq::<Seq<u8>>::empty()));
            proof {
                lemma_shape_push(h, prev, p as int, Seq::<Seq<u8>>::empty());
            }
        } else {
            assert(pw <= w && ph <= ht) by (nonlinear_arith)
                requires
                    pw == extent(w as int, g.0 as int, g.2 as int),
                    ph == extent(ht as int, g.1 as int, g.3 as int),
                    g.2 >= 1,
                    g.3 >= 1,
            ;
            assert(row_bytes(pw as int, bits as int) <= row_bytes(w as int, bits as int)) by (nonlinear_arith)
                requires
                    pw <= w,
                    bits >= 1,
            ;
            assert(pw * bits <= w * bits) by (nonlinear_arith)
                requires
                    pw <= w,
            ;
            let rb = ((pw * bits + 7) / 8) as usize;
            let rows = match decode_pass(header, raw, off, pw as usize, ph as usize, rb, bpp) {
                Ok(rows) => rows,
                Err(e) => {
                    proof {
                        lemma_passes_error_stays(h, raw@, (p + 1) as int, np as int);
                    }
                    return Err(e);
                },
            };
            let ghost rv = rows.deep_view();
            assert(off + ph * (rb + 1) <= raw@.len());
            assert((ph as usize) * (rb + 1) <= raw@.len()) by (nonlinear_arith)
                requires
                    off + ph * (rb + 1) <= raw@.len(),
                    off >= 0,
            ;
            let adv: usize = (ph as usize) * (rb + 1);
            off = off + adv;
            passes.push(rows);
            assert(passes.deep_view() =~= prev.push(rv));
            proof {
                lemma_shape_push(h, prev, p as int, rv);
            }
        }
        p = p + 1;
    }
    Ok(passes)
}

proof fn lemma_shape_push(h: (u32, u32, ColorKind, u8, u8), ps: Seq<Seq<Seq<u8>>>, p: int, rows: Seq<Seq<u8>>)
    requires
        passes_shape(h, ps, p),
        p >= 0,
        rows.len() == (if pass_dims(h, p).0 == 0 || pass_dims(h, p).1 == 0 {
            0
        } else {
            pass_dims(h, p).1
        }),
        forall|j: int| 0 <= j < rows.len() ==> (#[trigger] rows[j]).len() == row_bytes(pass_dims(h, p).0, pixel_bits(h)),
    ensures
        passes_shape(h, ps.push(rows), p + 1),
{
    let ps2 = ps.push(rows);
    assert forall|q: int| 0 <= q < p + 1 implies {
        let d = pass_dims(h, q);
        &&& (#[trigger] ps2[q]).len() == (if d.0 == 0 || d.1 == 0 {
            0
        } else {
            d.1
        })
        &&& forall|j: int| 0 <= j < ps2[q].len() ==> (#[trigger] ps2[q][j]).len() == row_bytes(d.0, pixel_bits(h))
    } by {
        if q < p {
            assert(ps2[q] == ps[q]);
        } else {
            assert(ps2[q] == rows);
        }
    }
}

/// Once the first `n` passes fail, so do the first `m >= n`.
proof fn lemma_passes_error_stays(h: (u32, u32, ColorKind, u8, u8), raw: Seq<u8>, n: int, m: int)
    requires
        0 <= n <= m,
        passes_upto(h, raw, n) is Err,
    ensures
        passes_upto(h, raw, m) == passes_upto(h, raw, n),
    decreases m - n,
{
    if m > n {
        lemma_passes_error_stays(h, raw, n, m - 1);
    }
}

fn pass_of_exec(il: u8, x: u64, y: u64) -> (r: usize)
    ensures
        r == pass_of(il, x as int, y as int),
{
    if il == 0 {
        0
    } else if y % 2 == 1 {
        6
    } else if x % 2 == 1 {
        5
    } else if y % 4 == 2 {
        4
    } else if x % 4 == 2 {
        3
    } else if y % 8 == 4 {
        2
    } else if x % 8 == 4 {
        1
    } else {
        0
    }
}

/// Decodes the inflated image data `raw` into the pixel grid, row-major.
pub fn decode_pixels(header: &Header, palette: &[u8], raw: &[u8]) -> (r: Result<Vec<Color>, PngError>)
    requires
        header.wf(),
    ensures
        match decode_image(header.view(), palette@, raw@) {
            Err(e) => r == Err::<Vec<Color>, PngError>(e),
            Ok(px) => r is Ok && crate::color_views(r.unwrap()@) == px,
        },
{
    let ghost h = header.view();
    let w = header.width as u64;
    let ht = header.height as u64;
    let bits = header.color.data_len() as u64;
    assert(bits <= 64);
    let wide = w as u128;
    assert(wide * (ht as u128) <= 0xffff_ffff_ffff_ffff_ffff && wide * (bits as u128) <= 0xffff_ffff_ffff_ffff) by (nonlinear_arith)
        requires
            wide <= 0xffff_ffff,
            ht <= 0xffff_ffff,
            bits <= 64,
    ;
    if wide * (ht as u128) > usize::MAX as u128 || ((wide * (bits as u128) + 7) / 8 + 1) * 8
        > usize::MAX as u128 {
        return Err(PngError::TooLarge);
    }
    let passes = match decode_passes(header, raw) {
        Ok(p) => p,
        Err(e) => return Err(e),
    };
    let ghost ps = passes.deep_view();
    let indexed = if let ColorKind::Indexed = header.color.kind() {
        true
    } else {
        false
    };
    let mut pixels: Vec<Color> = Vec::new();
    let mut y: u64 = 0;
    while y < ht
        invariant
            h == header.view(),
            header.wf(),
            fits(h),
            w == h.0,
            ht == h.1,
            bits == pixel_bits(h),
            indexed == (h.2 is Indexed),
            passes_upto(h, raw@, num_passes(h.4)) matches Ok((ps2, _)) && ps2 == ps,
            passes.deep_view() == ps,
            passes_shape(h, ps, num_passes(h.4)),
            y <= ht,
            pixels@.len() == y * w,
            forall|k: int|
                0 <= k < y * w ==> (#[trigger] crate::color_views(pixels@)[k]) == image_pixel(
                    h,
                    palette@,
                    ps,
                    k % (w as int),
                    k / (w as int),
                ),
            indexed ==> forall|x2: int, y2: int|
                0 <= x2 < w && 0 <= y2 < y ==> #[trigger] index_ok(h, palette@, ps, x2, y2),
        decreases ht - y,
    {
        let mut x: u64 = 0;
        while x < w
            invariant
                h == header.view(),
                header.wf(),
                fits(h),
                w == h.0,
                ht == h.1,
                bits == pixel_bits(h),
                indexed == (h.2 is Indexed),
                passes_upto(h, raw@, num_passes(h.4)) matches Ok((ps2, _)) && ps2 == ps,
                passes.deep_view() == ps,
                passes_shape(h, ps, num_passes(h.4)),
                y < ht,
                x <= w,
                pixels@.len() == y * w + x,
                forall|k: int|
                    0 <= k < y * w + x ==> (#[trigger] crate::color_views(pixels@)[k]) == image_pixel(
                        h,
                        palette@,
                        ps,
                        k % (w as int),
                        k / (w as int),
                    ),
                indexed ==> forall|x2: int, y2: int|
                    (0 <= x2 < w && 0 <= y2 < y) || (0 <= x2 < x && y2 == y) ==> #[trigger] index_ok(
                        h,
                        palette@,
                        ps,
                        x2,
                        y2,
                    ),
            decreases w - x,
        {
            proof {
                lemma_pixel_in_pass(h, x as int, y as int);
            }
            let q = pass_of_exec(header.interlace, x, y);
            let g = geometry(header.interlace, q);
            let ghost d = pass_dims(h, q as int);
            let j = ((y - g.1) / g.3) as usize;
            let i = ((x - g.0) / g.2) as usize;
            assert(ps[q as int].len() == d.1);
            let ghost rowv = ps[q as int][j as int];
            assert(rowv.len() == row_bytes(d.0, bits as int));
            let row = passes[q][j].as_slice();
            assert(passes@[q as int].deep_view()[j as int] == passes@[q as int]@[j as int].deep_view());
            assert(passes@[q as int]@[j as int].deep_view() =~= passes@[q as int]@[j as int]@);
            assert(row@ == rowv);
            proof {
                lemma_row_holds_pixel(d.0, w as int, bits as int, i as int);
            }
            let color = if indexed {
                match header.color.indexed_pixel(row, palette, i) {
                    Some(c) => c,
                    None => {
                        assert(!index_ok(h, palette@, ps, x as int, y as int));
                        return Err(PngError::BadPaletteIndex);
                    },
                }
            } else {
                header.color.pixel(row, i)
            };
            let ghost prev = pixels@;
            pixels.push(color);
            proof {
                let k = y * w + x;
                vstd::arithmetic::div_mod::lemma_fundamental_div_mod_converse(
                    k as int,
                    w as int,
                    y as int,
                    x as int,
                );
                assert(crate::color_views(pixels@) =~= crate::color_views(prev).push(color@));
            }
            x = x + 1;
        }
        assert((y + 1) * w == y * w + w) by (nonlinear_arith);
        y = y + 1;
    }
    assert(ht * w == w * ht) by (nonlinear_arith);
    assert(crate::color_views(pixels@) =~= Seq::new(
        (w * ht) as nat,
        |k: int| image_pixel(h, palette@, ps, k % (w as int), k / (w as int)),
    ));
    Ok(pixels)
}

/// A row of a pass holds each of its pixels whole, and its bit positions
/// fit in a machine word.
proof fn lemma_row_holds_pixel(pw: int, w: int, bits: int, i: int)
    requires
        0 <= i < pw <= w,
        bits >= 1,
    ensures
        (i + 1) * bits <= row_bytes(pw, bits) * 8,
        row_bytes(pw, bits) <= row_bytes(w, bits),
{
    assert((i + 1) * bits <= pw * bits) by (nonlinear_arith)
        requires
            i + 1 <= pw,
            bits >= 1,
    ;
    assert(pw * bits <= w * bits) by (nonlinear_arith)
        requires
            pw <= w,
            bits >= 1,
    ;
}

/// Every pixel of the grid lies in a non-empty pass, at a row and a
/// column that the pass has.
proof fn lemma_pixel_in_pass(h: (u32, u32, ColorKind, u8, u8), x: int, y: int)
    requires
        h.4 <= 1,
        0 <= x < h.0,
        0 <= y < h.1,
    ensures
        ({
            let q = pass_of(h.4, x, y);
            let g = pass_geom(h.4, q);
            let d = pass_dims(h, q);
            &&& 0 <= q < num_passes(h.4)
            &&& x >= g.0 && y >= g.1
            &&& 0 <= (x - g.0) / g.2 < d.0
            &&& 0 <= (y - g.1) / g.3 < d.1
            &&& d.0 <= h.0
        }),
{
    let q = pass_of(h.4, x, y);
    let g = pass_geom(h.4, q);
    let w = h.0 as int;
    let ht = h.1 as int;
    assert(x >= g.0 && y >= g.1);
    assert((x - g.0) / g.2 < (w - g.0 + g.2 - 1) / g.2) by (nonlinear_arith)
        requires
            g.0 <= x < w,
            g.2 >= 1,
    ;
    assert((w - g.0 + g.2 - 1) / g.2 <= w) by (nonlinear_arith)
        requires
            g.0 <= x < w,
            g.0 >= 0,
            g.2 >= 1,
    ;
    assert((y - g.1) / g.3 < (ht - g.1 + g.3 - 1) / g.3) by (nonlinear_arith)
        requires
            g.1 <= y < ht,
            g.3 >= 1,
    ;
}

/// The first `j` rows of a grey 8-bit image whose scanlines hold a valid
/// filter type and then only zeros are rows of zeros.
proof fn lemma_zero_rows(h: (u32, u32, ColorKind, u8, u8), raw: Seq<u8>, j: int)
    requires
        h.2 == ColorKind::Grey(false),
        h.3 == 8,
        0 <= j <= h.1,
        raw.len() == h.1 * (h.0 + 1),
        forall|i: int|
            0 <= i < raw.len() ==> (i % (h.0 + 1) == 0 ==> #[trigger] raw[i] <= 4) && (i % (h.0
                + 1) != 0 ==> raw[i] == 0),
    ensures
        pass_rows(h, raw, 0, h.0 as int, j) == Ok::<Seq<Seq<u8>>, PngError>(
            Seq::new(j as nat, |r: int| zero_row(h.0 as int)),
        ),
    decreases j,
{
    let w = h.0 as int;
    if j == 0 {
        assert(Seq::new(0, |r: int| zero_row(w)) =~= Seq::<Seq<u8>>::empty());
    } else {
        lemma_zero_rows(h, raw, j - 1);
        let rows = Seq::new((j - 1) as nat, |r: int| zero_row(w));
        assert(pixel_bits(h) == 8);
        assert(row_bytes(w, 8) == w);
        let start = (j - 1) * (w + 1);
        assert(start + w + 1 == j * (w + 1)) by (nonlinear_arith)
            requires
                start == (j - 1) * (w + 1),
        ;
        assert(j * (w + 1) <= h.1 * (w + 1)) by (nonlinear_arith)
            requires
                j <= h.1,
                w >= 0,
        ;
        vstd::arithmetic::div_mod::lemma_fundamental_div_mod_converse_mod(start, w + 1, j - 1, 0);
        assert(raw[start] <= 4);
        let f = raw.subrange(start + 1, start + 1 + w);
        assert forall|i: int| 0 <= i < w implies f[i] == 0 by {
            vstd::arithmetic::div_mod::lemma_fundamental_div_mod_converse_mod(
                start + 1 + i,
                w + 1,
                j - 1,
                i + 1,
            );
            assert(raw[start + 1 + i] == 0);
        }
        let u = if j == 1 {
            zero_row(w)
        } else {
            rows.last()
        };
        assert(u =~= zero_row(w));
        let k = filter_kind_of(raw[start]).unwrap();
        let row = recon_row(k, f, u, filter_bpp(h));
        assert forall|x: int| 0 <= x < w implies row[x] == 0 by {
            crate::filter::lemma_zero_row_stays_zero(k, f, u, filter_bpp(h), x);
        }
        assert(row =~= zero_row(w));
        assert(rows.push(row) =~= Seq::new(j as nat, |r: int| zero_row(w)));
    }
}

/// A grey 8-bit image without interlacing whose scanlines each hold a
/// valid filter type and then only zero bytes decodes to opaque black,
/// whatever the filter types: zero filtered bytes over a zero previous row
/// reconstruct to zeros under every filter.
pub proof fn lemma_zero_image_is_black(h: (u32, u32, ColorKind, u8, u8), pal: Seq<u8>, raw: Seq<u8>)
    requires
        h.2 == ColorKind::Grey(false),
        h.3 == 8,
        h.4 == 0,
        h.0 > 0,
        h.1 > 0,
        fits(h),
        raw.len() == h.1 * (h.0 + 1),
        forall|i: int|
            0 <= i < raw.len() ==> (i % (h.0 + 1) == 0 ==> #[trigger] raw[i] <= 4) && (i % (h.0
                + 1) != 0 ==> raw[i] == 0),
    ensures
        decode_image(h, pal, raw) == Ok::<Seq<(u16, u16, u16, u16)>, PngError>(
            Seq::new((h.0 * h.1) as nat, |k: int| (0u16, 0u16, 0u16, 0xffffu16)),
        ),
{
    let w = h.0 as int;
    let ht = h.1 as int;
    lemma_zero_rows(h, raw, ht);
    let rows = Seq::new(ht as nat, |r: int| zero_row(w));
    assert(pass_dims(h, 0) == (w, ht));
    assert(passes_upto(h, raw, 0) == Ok::<(Seq<Seq<Seq<u8>>>, int), PngError>((Seq::empty(), 0)));
    let ps = Seq::<Seq<Seq<u8>>>::empty().push(rows);
    assert(passes_upto(h, raw, 1) == Ok::<(Seq<Seq<Seq<u8>>>, int), PngError>(
        (ps, ht * (row_bytes(w, pixel_bits(h)) + 1)),
    ));
    let px = Seq::new((h.0 * h.1) as nat, |k: int| image_pixel(h, pal, ps, k % w, k / w));
    assert forall|k: int| 0 <= k < h.0 * h.1 implies px[k] == (0u16, 0u16, 0u16, 0xffffu16) by {
        let x = k % w;
        let y = k / w;
        assert(0 <= x < w && 0 <= y < ht) by (nonlinear_arith)
            requires
                0 <= k < w * ht,
                w > 0,
                x == k % w,
                y == k / w,
        ;
        assert(pixel_row(h, ps, x, y) == zero_row(w));
        assert(pixel_col(h, x, y) == x);
        assert(raw_sample(zero_row(w), x * 1 + 0, 8) == 0);
    }
    assert(px =~= Seq::new((h.0 * h.1) as nat, |k: int| (0u16, 0u16, 0u16, 0xffffu16)));
}

/// Once the first `n` rows fail, so do the first `m >= n`.
proof fn lemma_pass_rows_error_stays(
    h: (u32, u32, ColorKind, u8, u8),
    raw: Seq<u8>,
    off: int,
    pw: int,
    n: int,
    m: int,
)
    requires
        0 <= n <= m,
        pass_rows(h, raw, off, pw, n) is Err,
    ensures
        pass_rows(h, raw, off, pw, m) == pass_rows(h, raw, off, pw, n),
    decreases m - n,
{
    if m > n {
        lemma_pass_rows_error_stays(h, raw, off, pw, n, m - 1);
    }
}

} // verus!

//! Color types, bit depths, and unpacking of packed samples into colors.
use vstd::prelude::*;
use crate::error::PngError;
use crate::{Color, color_views};

verus! {

/// How the channels of a pixel are laid out.
#[derive(Debug, Clone, Copy, PartialEq, Eq, Structural)]
pub enum ColorKind {
    /// Greyscale (with alpha).
    Grey(bool),
    /// Truecolor (with alpha).
    True(bool),
    /// Indexed color: one palette index per pixel.
    Indexed,
}

/// Number of channels of a pixel.
pub open spec fn channels_spec(kind: ColorKind) -> nat {
    match kind {
        ColorKind::Grey(false) => 1,
        ColorKind::Grey(true) => 2,
        ColorKind::True(false) => 3,
        ColorKind::True(true) => 4,
        ColorKind::Indexed => 1,
    }
}

/// Whether `depth` is a bit depth that `kind` allows.
pub open spec fn depth_allowed(kind: ColorKind, depth: u8) -> bool {
    match kind {
        ColorKind::Grey(false) => depth == 1 || depth == 2 || depth == 4 || depth == 8 || depth
            == 16,
        ColorKind::Grey(true) | ColorKind::True(_) => depth == 8 || depth == 16,
        ColorKind::Indexed => depth == 1 || depth == 2 || depth == 4 || depth == 8,
    }
}

/// The color type that a header byte names.
pub open spec fn color_kind_of(value: u8) -> Option<ColorKind> {
    match value {
        0 => Some(ColorKind::Grey(false)),
        2 => Some(ColorKind::True(false)),
        3 => Some(ColorKind::Indexed),
        4 => Some(ColorKind::Grey(true)),
        6 => Some(ColorKind::True(true)),
        _ => None,
    }
}

/// The largest raw value of a sample of `depth` bits.
pub open spec fn sample_max(depth: u8) -> u16 {
    match depth {
        1 => 1,
        2 => 3,
        4 => 15,
        8 => 255,
        _ => 0xffff,
    }
}

/// Sample number `k` of a row: samples are packed without gaps, the
/// leftmost in the highest-order bits of a byte, 16-bit ones big-endian.
pub open spec fn raw_sample(data: Seq<u8>, k: int, depth: u8) -> u16 {
    match depth {
        1 => ((data[k / 8] >> ((7 - k % 8) as u8)) & 1) as u16,
        2 => ((data[k / 4] >> ((6 - 2 * (k % 4)) as u8)) & 3) as u16,
        4 => ((data[k / 2] >> ((4 - 4 * (k % 2)) as u8)) & 15) as u16,
        8 => data[k] as u16,
        _ => (data[2 * k] as int * 256 + data[2 * k + 1] as int) as u16,
    }
}

/// A raw sample of `depth` bits widened to 16 bits by repeating its bit
/// pattern, so that 0 stays 0 and the largest value becomes 0xFFFF.
pub open spec fn expand_sample(v: u16, depth: u8) -> u16 {
    match depth {
        1 => (v * 0xffff) as u16,
        2 => (v * 0x5555) as u16,
        4 => (v * 0x1111) as u16,
        8 => (v * 0x101) as u16,
        _ => v,
    }
}

/// Channel `c` of pixel `i`, widened to 16 bits.
pub open spec fn channel_spec(kind: ColorKind, depth: u8, data: Seq<u8>, i: int, c: int) -> u16 {
    expand_sample(raw_sample(data, i * channels_spec(kind) + c, depth), depth)
}

/// Pixel `i` of a row of a non-indexed image, as red, green, blue, alpha.
pub open spec fn pixel_spec(kind: ColorKind, depth: u8, data: Seq<u8>, i: int) -> (
    u16,
    u16,
    u16,
    u16,
) {
    let s0 = channel_spec(kind, depth, data, i, 0);
    match kind {
        ColorKind::Grey(false) => (s0, s0, s0, 0xffff),
        ColorKind::Grey(true) => (s0, s0, s0, channel_spec(kind, depth, data, i, 1)),
        ColorKind::True(false) => (
            s0,
            channel_spec(kind, depth, data, i, 1),
            channel_spec(kind, depth, data, i, 2),
            0xffff,
        ),
        _ => (
            s0,
            channel_spec(kind, depth, data, i, 1),
            channel_spec(kind, depth, data, i, 2),
            channel_spec(kind, depth, data, i, 3),
        ),
    }
}

/// Number of whole pixels that `len` bytes hold.
pub open spec fn pixel_count(kind: ColorKind, depth: u8, len: nat) -> nat {
    (len * 8) / (channels_spec(kind) * depth as nat)
}

/// Pixel `i` of a row of an indexed image, looked up in `palette`, which
/// holds red, green, blue bytes for each entry.
pub open spec fn indexed_pixel_spec(depth: u8, data: Seq<u8>, palette: Seq<u8>, i: int) -> (
    u16,
    u16,
    u16,
    u16,
) {
    let idx = raw_sample(data, i, depth) as int;
    (
        expand_sample(palette[3 * idx] as u16, 8),
        expand_sample(palette[3 * idx + 1] as u16, 8),
        expand_sample(palette[3 * idx + 2] as u16, 8),
        0xffff,
    )
}

/// Reads sample number `k` of a row.
fn sample_at(data: &[u8], k: usize, depth: u8) -> (r: u16)
    requires
        depth == 1 || depth == 2 || depth == 4 || depth == 8 || depth == 16,
        (k + 1) * depth <= data@.len() * 8,
    ensures
        r == raw_sample(data@, k as int, depth),
{
    match depth {
        1 => {
            assert(k / 8 < data@.len()) by (nonlinear_arith)
                requires
                    (k + 1) * 1 <= data@.len() * 8,
            ;
            ((data[k / 8] >> ((7 - k % 8) as u8)) & 1) as u16
        },
        2 => {
            assert(k / 4 < data@.len()) by (nonlinear_arith)
                requires
                    (k + 1) * 2 <= data@.len() * 8,
            ;
            ((data[k / 4] >> ((6 - 2 * (k % 4)) as u8)) & 3) as u16
        },
        4 => {
            assert(k / 2 < data@.len()) by (nonlinear_arith)
                requires
                    (k + 1) * 4 <= data@.len() * 8,
            ;
            ((data[k / 2] >> ((4 - 4 * (k % 2)) as u8)) & 15) as u16
        },
        8 => {
            assert(k < data@.len()) by (nonlinear_arith)
                requires
                    (k + 1) * 8 <= data@.len() * 8,
            ;
            data[k] as u16
        },
        _ => {
            assert(2 * k + 1 < data@.len()) by (nonlinear_arith)
                requires
                    (k + 1) * 16 <= data@.len() * 8,
            ;
            let n = data.len();
            assert(2 * k + 1 < n);
            let j: usize = 2 * k;
            (data[j] as u16) * 256 + data[j + 1] as u16
        },
    }
}

proof fn lemma_raw_sample_bound(data: Seq<u8>, k: int, depth: u8)
    requires
        depth == 1 || depth == 2 || depth == 4 || depth == 8 || depth == 16,
        0 <= k,
        (k + 1) * depth <= data.len() * 8,
    ensures
        raw_sample(data, k, depth) <= sample_max(depth),
{
    if depth == 1 {
        let x = data[k / 8];
        let s = (7 - k % 8) as u8;
        assert((x >> s) & 1 <= 1) by (bit_vector);
    } else if depth == 2 {
        let x = data[k / 4];
        let s = (6 - 2 * (k % 4)) as u8;
        assert((x >> s) & 3 <= 3) by (bit_vector);
    } else if depth == 4 {
        let x = data[k / 2];
        let s = (4 - 4 * (k % 2)) as u8;
        assert((x >> s) & 15 <= 15) by (bit_vector);
    }
}

proof fn lemma_mul_le(a: int, b: int, d: int)
    requires
        a <= b,
        d >= 0,
    ensures
        a * d <= b * d,
{
    assert(a * d <= b * d) by (nonlinear_arith)
        requires
            a <= b,
            d >= 0,
    ;
}

/// Widens a raw sample to 16 bits by repeating its bit pattern.
pub fn expand(v: u16, depth: u8) -> (r: u16)
    requires
        v <= sample_max(depth),
    ensures
        r == expand_sample(v, depth),
{
    match depth {
        1 => v * 0xffff,
        2 => v * 0x5555,
        4 => v * 0x1111,
        8 => v * 0x101,
        _ => v,
    }
}

/// Zero stays zero and the largest raw value becomes 0xFFFF at every
/// allowed depth, so the darkest and the brightest samples keep their
/// meaning.
pub proof fn lemma_expand_extremes(depth: u8)
    requires
        depth == 1 || depth == 2 || depth == 4 || depth == 8 || depth == 16,
    ensures
        expand_sample(0, depth) == 0,
        expand_sample(sample_max(depth), depth) == 0xffff,
{
}

impl ColorKind {
    /// The allowed bit depths as a bit set: bit `n` stands for depth 2^n.
    pub fn allowed_bit_depth(self) -> (r: u8)
        ensures
            r == match self {
                ColorKind::Grey(false) => 0b11111u8,
                ColorKind::Grey(true) | ColorKind::True(_) => 0b11000u8,
                ColorKind::Indexed => 0b1111u8,
            },
    {
        match self {
            ColorKind::Grey(false) => 0b11111,
            ColorKind::True(_) | ColorKind::Grey(true) => 0b11000,
            ColorKind::Indexed => 0b1111,
        }
    }

    /// Number of channels of a pixel.
    pub fn channels(self) -> (r: u8)
        ensures
            r == channels_spec(self),
    {
        match self {
            ColorKind::Grey(false) => 1,
            ColorKind::Grey(true) => 2,
            ColorKind::True(false) => 3,
            ColorKind::True(true) => 4,
            ColorKind::Indexed => 1,
        }
    }

    /// The color type that a header byte names.
    pub fn from_byte(value: u8) -> (r: Result<ColorKind, PngError>)
        ensures
            match color_kind_of(value) {
                Some(k) => r == Ok::<ColorKind, PngError>(k),
                None => r == Err::<ColorKind, PngError>(PngError::UnknownColorType),
            },
    {
        match value {
            0 => Ok(ColorKind::Grey(false)),
            2 => Ok(ColorKind::True(false)),
            3 => Ok(ColorKind::Indexed),
            4 => Ok(ColorKind::Grey(true)),
            6 => Ok(ColorKind::True(true)),
            _ => Err(PngError::UnknownColorType),
        }
    }
}

impl TryFrom<u8> for ColorKind {
    type Error = PngError;

    fn try_from(value: u8) -> (r: Result<ColorKind, PngError>) {
        ColorKind::from_byte(value)
    }
}

impl vstd::std_specs::convert::TryFromSpecImpl<u8> for ColorKind {
    open spec fn obeys_try_from_spec() -> bool {
        true
    }

    open spec fn try_from_spec(value: u8) -> Result<ColorKind, PngError> {
        match color_kind_of(value) {
            Some(k) => Ok(k),
            None => Err(PngError::UnknownColorType),
        }
    }
}

/// A color type together with a bit depth that it allows.
pub struct PngColor {
    kind: ColorKind,
    depth: u8,
}

impl View for PngColor {
    type V = (ColorKind, u8);

    closed spec fn view(&self) -> (ColorKind, u8) {
        (self.kind, self.depth)
    }
}

impl PngColor {
    /// Every value of this type pairs a kind with an allowed depth.
    pub open spec fn wf(&self) -> bool {
        depth_allowed(self@.0, self@.1)
    }

    /// Pairs a color type with a bit depth; fails where the type does not
    /// allow the depth.
    pub fn new(kind: ColorKind, depth: u8) -> (r: Result<Self, PngError>)
        ensures
            depth_allowed(kind, depth) ==> r is Ok && r.unwrap()@ == (kind, depth) && r.unwrap().wf(),
            !depth_allowed(kind, depth) ==> r == Err::<PngColor, PngError>(PngError::InvalidBitDepth),
    {
        let ok = match kind {
            ColorKind::Grey(false) => depth == 1 || depth == 2 || depth == 4 || depth == 8 || depth
                == 16,
            ColorKind::Grey(true) | ColorKind::True(_) => depth == 8 || depth == 16,
            ColorKind::Indexed => depth == 1 || depth == 2 || depth == 4 || depth == 8,
        };
        if !ok {
            return Err(PngError::InvalidBitDepth);
        }
        Ok(PngColor { kind, depth })
    }

    pub fn kind(&self) -> (r: ColorKind)
        ensures
            r == self@.0,
    {
        self.kind
    }

    pub fn depth(&self) -> (r: u8)
        ensures
            r == self@.1,
    {
        self.depth
    }

    /// Number of channels of a pixel.
    pub fn channels(&self) -> (r: u8)
        ensures
            r == channels_spec(self@.0),
    {
        self.kind.channels()
    }

    /// The largest raw value of one sample.
    pub fn channel_mask(&self) -> (r: u16)
        requires
            self.wf(),
        ensures
            r == sample_max(self@.1),
    {
        match self.depth {
            16 => u16::MAX,
            8 => 255,
            4 => 15,
            2 => 3,
            _ => 1,
        }
    }

    /// Channel `c` of the pixel whose first sample is number `k`.
    fn channel(&self, data: &[u8], k: usize, c: usize) -> (r: u16)
        requires
            self.wf(),
            (k + c + 1) * self@.1 <= data@.len() * 8,
            data@.len() * 8 <= usize::MAX,
        ensures
            r == expand_sample(raw_sample(data@, k + c, self@.1), self@.1),
    {
        proof {
            lemma_raw_sample_bound(data@, k + c, self.depth);
        }
        assert(k + c + 1 <= (k + c + 1) * self@.1) by (nonlinear_arith)
            requires
                self@.1 >= 1,
        ;
        let kc: usize = k + c;
        expand(sample_at(data, kc, self.depth), self.depth)
    }

    /// Unpacks pixel `i` of a reconstructed row of a non-indexed image.
    pub fn pixel(&self, data: &[u8], i: usize) -> (r: Color)
        requires
            self.wf(),
            !(self@.0 is Indexed),
            (i + 1) * (channels_spec(self@.0) * self@.1) <= data@.len() * 8,
            data@.len() * 8 <= usize::MAX,
        ensures
            r@ == pixel_spec(self@.0, self@.1, data@, i as int),
    {
        let ch = self.channels() as usize;
        let ghost depth = self@.1;
        assert((i + 1) * ch * depth <= data@.len() * 8) by (nonlinear_arith)
            requires
                (i + 1) * (ch * depth) <= data@.len() * 8,
        ;
        assert(i * ch + ch == (i + 1) * ch) by (nonlinear_arith);
        assert((i * ch + ch) * depth == (i + 1) * ch * depth) by (nonlinear_arith)
            requires
                i * ch + ch == (i + 1) * ch,
        ;
        assert(i * ch + ch <= data@.len() * 8) by (nonlinear_arith)
            requires
                (i * ch + ch) * depth <= data@.len() * 8,
                depth >= 1,
        ;
        let k: usize = i * ch;
        assert((k + ch) * depth <= data@.len() * 8);
        proof {
            assert forall|d: int| 1 <= d <= ch implies #[trigger] ((k + d) * depth) <= (k + ch)
                * depth by {
                lemma_mul_le(k + d, (k + ch) as int, depth as int);
            }
        }
        assert(ch >= 2 ==> (k + 2) * depth <= data@.len() * 8);
        assert(ch >= 3 ==> (k + 3) * depth <= data@.len() * 8);
        let s0 = self.channel(data, k, 0);
        match self.kind {
            ColorKind::Grey(false) => Color::new(s0, s0, s0, u16::MAX),
            ColorKind::Grey(true) => Color::new(s0, s0, s0, self.channel(data, k, 1)),
            ColorKind::True(false) => Color::new(
                s0,
                self.channel(data, k, 1),
                self.channel(data, k, 2),
                u16::MAX,
            ),
            _ => Color::new(
                s0,
                self.channel(data, k, 1),
                self.channel(data, k, 2),
                self.channel(data, k, 3),
            ),
        }
    }

    /// Unpacks pixel `i` of a reconstructed row of an indexed image;
    /// `None` where its index points past the palette's end.
    pub fn indexed_pixel(&self, data: &[u8], palette: &[u8], i: usize) -> (r: Option<Color>)
        requires
            self.wf(),
            self@.0 is Indexed,
            (i + 1) * self@.1 <= data@.len() * 8,
        ensures
            r is Some <==> 3 * raw_sample(data@, i as int, self@.1) + 3 <= palette@.len(),
            r is Some ==> r.unwrap()@ == indexed_pixel_spec(self@.1, data@, palette@, i as int),
    {
        proof {
            lemma_raw_sample_bound(data@, i as int, self@.1);
        }
        let idx = sample_at(data, i, self.depth) as usize;
        if idx >= palette.len() / 3 {
            return None;
        }
        let at: usize = 3 * idx;
        Some(
            Color::new(
                expand(palette[at] as u16, 8),
                expand(palette[at + 1] as u16, 8),
                expand(palette[at + 2] as u16, 8),
                u16::MAX,
            ),
        )
    }

    /// Unpacks every whole pixel of a reconstructed row (filter byte
    /// removed). Indexed rows need a palette: see `parse_indexed`.
    pub fn parse(&self, data: &[u8]) -> (r: Result<Vec<Color>, PngError>)
        requires
            self.wf(),
            data@.len() * 8 <= usize::MAX,
        ensures
            self@.0 is Indexed ==> r == Err::<Vec<Color>, PngError>(PngError::BadPalette),
            !(self@.0 is Indexed) ==> r is Ok && color_views(r.unwrap()@) == Seq::new(
                pixel_count(self@.0, self@.1, data@.len()),
                |i: int| pixel_spec(self@.0, self@.1, data@, i),
            ),
    {
        if let ColorKind::Indexed = self.kind {
            return Err(PngError::BadPalette);
        }
        let bits = self.data_len();
        let npix = data.len() * 8 / bits;
        let ghost kind = self@.0;
        let ghost depth = self@.1;
        let mut colors: Vec<Color> = Vec::new();
        let mut i: usize = 0;
        while i < npix
            invariant
                self.wf(),
                !(kind is Indexed),
                kind == self@.0,
                depth == self@.1,
                bits == channels_spec(kind) * depth,
                npix == pixel_count(kind, depth, data@.len()),
                data@.len() * 8 <= usize::MAX,
                i <= npix,
                color_views(colors@) == Seq::new(i as nat, |j: int| pixel_spec(kind, depth, data@, j)),
            decreases npix - i,
        {
            assert((i + 1) * bits <= data@.len() * 8) by (nonlinear_arith)
                requires
                    i < npix,
                    npix == (data@.len() * 8) as int / bits as int,
                    bits > 0,
            ;
            let color = self.pixel(data, i);
            let ghost prev = colors@;
            colors.push(color);
            assert(color_views(colors@) =~= color_views(prev).push(color@));
            assert(color_views(colors@) =~= Seq::new(
                (i + 1) as nat,
                |j: int| pixel_spec(kind, depth, data@, j),
            ));
            i = i + 1;
        }
        Ok(colors)
    }

    /// Unpacks every whole pixel of a reconstructed row of an indexed image,
    /// looking each index up in `palette` (red, green, blue bytes per entry).
    /// Fails where an index points past the palette's end.
    pub fn parse_indexed(&self, data: &[u8], palette: &[u8]) -> (r: Result<Vec<Color>, PngError>)
        requires
            self.wf(),
            self@.0 is Indexed,
            data@.len() * 8 <= usize::MAX,
        ensures
            r is Ok <==> forall|i: int|
                0 <= i < pixel_count(self@.0, self@.1, data@.len()) ==> 3 * (#[trigger] raw_sample(
                    data@,
                    i,
                    self@.1,
                )) + 3 <= palette@.len(),
            r is Err ==> r == Err::<Vec<Color>, PngError>(PngError::BadPaletteIndex),
            r is Ok ==> color_views(r.unwrap()@) == Seq::new(
                pixel_count(self@.0, self@.1, data@.len()),
                |i: int| indexed_pixel_spec(self@.1, data@, palette@, i),
            ),
    {
        let npix = data.len() * 8 / (self.depth as usize);
        let ghost depth = self@.1;
        let mut colors: Vec<Color> = Vec::new();
        let mut i: usize = 0;
        while i < npix
            invariant
                self.wf(),
                self@.0 is Indexed,
                depth == self@.1,
                npix == pixel_count(self@.0, depth, data@.len()),
                data@.len() * 8 <= usize::MAX,
                i <= npix,
                forall|j: int| 0 <= j < i ==> 3 * (#[trigger] raw_sample(data@, j, depth)) + 3 <= palette@.len(),
                color_views(colors@) == Seq::new(
                    i as nat,
                    |j: int| indexed_pixel_spec(depth, data@, palette@, j),
                ),
            decreases npix - i,
        {
            assert((i + 1) * depth <= data@.len() * 8) by (nonlinear_arith)
                requires
                    i < npix,
                    npix == (data@.len() * 8) as int / depth as int,
                    depth > 0,
            ;
            let color = match self.indexed_pixel(data, palette, i) {
                Some(c) => c,
                None => return Err(PngError::BadPaletteIndex),
            };
            let ghost prev = colors@;
            colors.push(color);
            assert(color_views(colors@) =~= color_views(prev).push(color@));
            assert(color_views(colors@) =~= Seq::new(
                (i + 1) as nat,
                |j: int| indexed_pixel_spec(depth, data@, palette@, j),
            ));
            i = i + 1;
        }
        Ok(colors)
    }

    /// Number of bits of one pixel.
    pub fn data_len(&self) -> (r: usize)
        ensures
            r == channels_spec(self@.0) * self@.1,
    {
        self.channels() as usize * self.depth as usize
    }
}

} // verus!

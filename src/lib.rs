//! Decoding of PNG datastreams into a grid of 16-bit RGBA samples.
//!
//! The pipeline is split into small verified stages: CRC-32 checking
//! (`crc`), chunk framing (`chunk`, `chunk_kind`), the IDAT stream bridge
//! (`chunk_reader`), header validation and sample unpacking (`color_kind`),
//! scanline reconstruction (`filter`) and the decoder that drives them
//! (`parser`).
use vstd::prelude::*;

pub mod chunk;
pub mod chunk_kind;
pub mod chunk_reader;
pub mod color_kind;
pub mod crc;
pub mod decode;
pub mod error;
pub mod filter;
pub mod inflate;
pub mod parser;
pub mod source;

verus! {

/// A color as four 16-bit channels: red, green, blue and alpha.
#[derive(Debug, Clone, Copy, PartialEq, Eq, Structural)]
pub struct Color(u16, u16, u16, u16);

impl View for Color {
    type V = (u16, u16, u16, u16);

    closed spec fn view(&self) -> (u16, u16, u16, u16) {
        (self.0, self.1, self.2, self.3)
    }
}

impl Color {
    pub fn new(red: u16, green: u16, blue: u16, alpha: u16) -> (r: Self)
        ensures
            r@ == (red, green, blue, alpha),
    {
        Color(red, green, blue, alpha)
    }

    /// A fully opaque color.
    pub fn new_opaque(red: u16, green: u16, blue: u16) -> (r: Self)
        ensures
            r@ == (red, green, blue, 0xffffu16),
    {
        Self::new(red, green, blue, u16::MAX)
    }

    /// Red channel.
    pub fn red(self) -> (r: u16)
        ensures
            r == self@.0,
    {
        self.0
    }

    /// Green channel.
    pub fn green(self) -> (r: u16)
        ensures
            r == self@.1,
    {
        self.1
    }

    /// Blue channel.
    pub fn blue(self) -> (r: u16)
        ensures
            r == self@.2,
    {
        self.2
    }

    /// Alpha channel.
    pub fn alpha(self) -> (r: u16)
        ensures
            r == self@.3,
    {
        self.3
    }
}

/// A decoded image: its size and its pixels, row-major.
#[derive(Debug, PartialEq, Eq)]
pub struct Png {
    height: u32,
    width: u32,
    pixels: Vec<Color>,
}

impl View for Png {
    type V = (u32, u32, Seq<(u16, u16, u16, u16)>);

    closed spec fn view(&self) -> (u32, u32, Seq<(u16, u16, u16, u16)>) {
        (self.height, self.width, color_views(self.pixels@))
    }
}

impl Png {
    pub fn new(height: u32, width: u32, pixels: Vec<Color>) -> (r: Self)
        ensures
            r@ == (height, width, color_views(pixels@)),
    {
        Png { height, width, pixels }
    }

    pub fn height(&self) -> (r: u32)
        ensures
            r == self@.0,
    {
        self.height
    }

    pub fn width(&self) -> (r: u32)
        ensures
            r == self@.1,
    {
        self.width
    }

    /// The pixels, row by row.
    pub fn pixels(&self) -> (r: &[Color])
        ensures
            color_views(r@) == self@.2,
    {
        self.pixels.as_slice()
    }
}

/// The views of a sequence of colors.
pub open spec fn color_views(v: Seq<Color>) -> Seq<(u16, u16, u16, u16)> {
    v.map_values(|c: Color| c@)
}

} // verus!

use png_decode::chunk::{read_chunks, Chunk};
use png_decode::chunk_kind::{idat, iend, ihdr, plte, ChunkKind};
use png_decode::chunk_reader::ChunkReader;
use png_decode::color_kind::{ColorKind, PngColor};
use png_decode::parser::PngParser;
use png_decode::source::ByteReader;
use png_decode::Color;

const TINY_PNG: &[u8] = &[
    0x89, 0x50, 0x4e, 0x47, 0x0d, 0x0a, 0x1a, 0x0a, 0x00, 0x00, 0x00, 0x0d, 0x49, 0x48, 0x44,
    0x52, 0x00, 0x00, 0x00, 0x01, 0x00, 0x00, 0x00, 0x01, 0x01, 0x00, 0x00, 0x00, 0x00, 0x37,
    0x6e, 0xf9, 0x24, 0x00, 0x00, 0x00, 0x0a, 0x49, 0x44, 0x41, 0x54, 0x78, 0x01, 0x63, 0x60,
    0x00, 0x00, 0x00, 0x02, 0x00, 0x01, 0x73, 0x75, 0x01, 0x18, 0x00, 0x00, 0x00, 0x00, 0x49,
    0x45, 0x4e, 0x44, 0xae, 0x42, 0x60, 0x82,
];

const SINGLE_CHUNK: &[u8] = &[
    0x00, 0x00, 0x00, 0x0a, // len
    0x49, 0x44, 0x41, 0x54, // IDAT
    0x78, 0x01, 0x63, 0x60, 0x00, 0x00, 0x00, 0x02, 0x00, 0x01, // data
    0x73, 0x75, 0x01, 0x18, // crc
    0x00, 0x00, 0x00, 0x00, 0x49, 0x45, 0x4e, 0x44, 0xae, 0x42, 0x60, 0x82,
];

const MULTI_CHUNK: &[u8] = &[
    0x00, 0x00, 0x00, 0x0a, // len
    0x49, 0x44, 0x41, 0x54, // IDAT
    0x78, 0x01, 0x63, 0x60, 0x00, 0x00, 0x00, 0x02, 0x00, 0x01, // data
    0x73, 0x75, 0x01, 0x18, // crc
    0x00, 0x00, 0x00, 0x0a, // len
    0x49, 0x44, 0x41, 0x54, // IDAT
    0x78, 0x01, 0x63, 0x60, 0x00, 0x00, 0x00, 0x02, 0x00, 0x01, // data
    0x73, 0x75, 0x01, 0x18, // crc
    0x00, 0x00, 0x00, 0x0a, // len
    0x49, 0x44, 0x41, 0x54, // IDAT
    0x78, 0x01, 0x63, 0x60, 0x00, 0x00, 0x00, 0x02, 0x00, 0x01, // data
    0x73, 0x75, 0x01, 0x18, // crc
    0x00, 0x00, 0x00, 0x00, 0x49, 0x45, 0x4e, 0x44, 0xae, 0x42, 0x60, 0x82,
];

fn hex(c: &Color) -> String {
    format!("{:X}{:X}{:X}{:X}", c.red(), c.green(), c.blue(), c.alpha())
}

fn white() -> Color {
    Color::new(u16::MAX, u16::MAX, u16::MAX, u16::MAX)
}

fn black() -> Color {
    Color::new(0, 0, 0, u16::MAX)
}

#[test]
fn test_tiny() {
    let chunks = read_chunks(TINY_PNG).expect("Valid png");
    let expected = [
        Chunk::new(ihdr(), TINY_PNG[16..29].to_vec()),
        Chunk::new(idat(), TINY_PNG[39..49].to_vec()),
        Chunk::new(iend(), Vec::new()),
    ];

    assert_eq!(chunks[0], expected[0]);
}

#[test]
fn test_consts() {
    assert!(ihdr().critical());
    assert!(plte().critical());
    assert!(idat().critical());
    assert!(iend().critical());

    assert!(ihdr().public());
    assert!(plte().public());
    assert!(idat().public());
    assert!(iend().public());

    assert!(!ihdr().copy_safe());
    assert!(!plte().copy_safe());
    assert!(!idat().copy_safe());
    assert!(!iend().copy_safe());
}

#[test]
fn test_unknown() {
    let e1 = ChunkKind::try_from(b"cHnk").unwrap();
    assert!(!e1.critical());
    assert!(e1.public());
    assert!(e1.copy_safe());

    let e2 = ChunkKind::try_from(b"AaAA").unwrap();
    assert!(e2.critical());
    assert!(!e2.public());
    assert!(!e2.copy_safe());
}

#[test]
fn test_single_chunk() {
    let mut reader = ChunkReader::new(ByteReader::new(SINGLE_CHUNK.to_vec())).unwrap();

    let data = reader.read_to_end(8192).unwrap();
    let length = data.len();
    assert_eq!(length, 10);
    assert_eq!(data[..], SINGLE_CHUNK[8..18]);
}

#[test]
fn test_multi_chunk() {
    let mut reader = ChunkReader::new(ByteReader::new(MULTI_CHUNK.to_vec())).unwrap();

    let data = reader.read_to_end(8192).unwrap();
    let length = data.len();
    assert_eq!(length, 30);
    assert_eq!(data[..10], MULTI_CHUNK[8..18]);
    assert_eq!(data[10..20], MULTI_CHUNK[30..40]);
    assert_eq!(data[20..30], MULTI_CHUNK[52..62]);
}

#[test]
fn test_allowed_bit_depth() {
    let ck = ColorKind::try_from(0).unwrap(); // Greyscale - 1,2,4,8,16 allowed
    let abd = ck.allowed_bit_depth();
    assert!(abd & 16 == 16);
    assert!(abd & 32 == 0);

    let ck = ColorKind::try_from(6).unwrap(); // Truecolor with alpha - 8, 16 allowed
    let abd = ck.allowed_bit_depth();
    assert!(abd & 16 == 16);
    assert!(abd & 2 != 2);
}

#[test]
fn test_single_greyscale() {
    let ck = ColorKind::Grey(false);
    let color = PngColor::new(ck, 1).unwrap();
    let data = [0b10011111u8];
    let (w, b) = (white(), black());

    let colors = color.parse(&data).unwrap();
    let expected = [w, b, b, w, w, w, w, w];
    for (c, e) in colors.iter().zip(expected.iter()) {
        println!("#{}, #{}", hex(c), hex(e));
    }
    assert_eq!(&colors, &expected);
}

#[test]
fn test_two_greyscale() {
    let ck = ColorKind::Grey(false);
    let color = PngColor::new(ck, 2).unwrap();
    let data = [0b10011100u8];
    let a = 0x5555;
    let b = 0xAAAA;
    let ac = Color::new(a, a, a, u16::MAX);
    let bc = Color::new(b, b, b, u16::MAX);

    let colors = color.parse(&data).unwrap();
    let expected = [bc, ac, white(), black()];
    for (c, e) in colors.iter().zip(expected.iter()) {
        println!("#{}, #{}", hex(c), hex(e));
    }

    assert_eq!(&colors, &expected);
}

#[test]
fn test_alpha_greyscale() {
    let ck = ColorKind::Grey(true);
    let color = PngColor::new(ck, 8).unwrap();
    let data = [u8::MAX, u8::MAX, 0, u8::MAX, u8::MAX, 0, 0, 0];
    // A grey sample sets all three color channels: grey 0 is black.
    let tw = Color::new(u16::MAX, u16::MAX, u16::MAX, 0);
    let tb = Color::new(0, 0, 0, 0);

    let colors = color.parse(&data).unwrap();
    let expected = [white(), black(), tw, tb];
    for (c, e) in colors.iter().zip(expected.iter()) {
        println!("#{}, #{}", hex(c), hex(e));
    }

    assert_eq!(&colors, &expected);
}

#[test]
fn test_parse_tiny() {
    let parser = PngParser::new(TINY_PNG.to_vec()).unwrap();
    let image = parser.parse().unwrap();

    let mut pixels = image.pixels().iter();
    let pixel = pixels.next().unwrap();

    assert_eq!(*pixel, Color::new_opaque(0, 0, 0));
    assert_eq!(pixels.next(), None);
}

use std::io::Write;

use png_decode::chunk::{read_chunks, Chunk};
use png_decode::chunk_kind::{idat, iend, ihdr, plte, ChunkKind};
use png_decode::chunk_reader::ChunkReader;
use png_decode::color_kind::{expand, ColorKind, PngColor};
use png_decode::crc::{make_crc_table, Crc32};
use png_decode::error::{ErrorClass, PngError};
use png_decode::filter::{paeth_predict, reconstruct_row, Filter, FilterKind};
use png_decode::parser::{decode, Header, PngParser};
use png_decode::source::ByteReader;
use png_decode::Color;

fn bitwise_crc(data: &[u8]) -> u32 {
    let mut c: u32 = 0xffff_ffff;
    for &b in data {
        c ^= b as u32;
        for _ in 0..8 {
            c = if c & 1 == 1 { 0xedb8_8320 ^ (c >> 1) } else { c >> 1 };
        }
    }
    c ^ 0xffff_ffff
}

fn zlib(data: &[u8]) -> Vec<u8> {
    let mut enc = flate2::write::ZlibEncoder::new(Vec::new(), flate2::Compression::default());
    enc.write_all(data).unwrap();
    enc.finish().unwrap()
}

fn chunk_bytes(kind: ChunkKind, data: &[u8]) -> Vec<u8> {
    Chunk::new(kind, data.to_vec()).to_bytes()
}

fn header_data(w: u32, h: u32, depth: u8, color: u8, interlace: u8) -> Vec<u8> {
    let mut d = Vec::new();
    d.extend_from_slice(&w.to_be_bytes());
    d.extend_from_slice(&h.to_be_bytes());
    d.extend_from_slice(&[depth, color, 0, 0, interlace]);
    d
}

fn png_file(header: &[u8], extra: &[Vec<u8>], raw: &[u8]) -> Vec<u8> {
    let mut out = vec![137, 80, 78, 71, 13, 10, 26, 10];
    out.extend(chunk_bytes(ihdr(), header));
    for c in extra {
        out.extend_from_slice(c);
    }
    out.extend(chunk_bytes(idat(), &zlib(raw)));
    out.extend(chunk_bytes(iend(), &[]));
    out
}

fn idat_stream(parts: &[&[u8]]) -> Vec<u8> {
    let mut out = Vec::new();
    for p in parts {
        out.extend(chunk_bytes(idat(), p));
    }
    out.extend(chunk_bytes(iend(), &[]));
    out
}

#[test]
fn crc_table_matches_bitwise_reference() {
    let table = make_crc_table();
    assert_eq!(table.len(), 256);
    assert_eq!(table[1], 0x7707_3096);
    assert_eq!(table[255], 0x2d02_ef8d);
    let engine = Crc32::new();
    for b in 0..=255u8 {
        assert_eq!(engine.checksum(&[b]), bitwise_crc(&[b]));
    }
}

#[test]
fn crc_known_vectors() {
    let engine = Crc32::new();
    assert_eq!(engine.checksum(b"123456789"), 0xCBF4_3926);
    assert_eq!(engine.checksum(b""), 0);
    assert_eq!(engine.checksum(&[0u8]), 0xD202_EF8D);
    assert_eq!(engine.checksum(b"IEND"), 0xAE42_6082);
    assert_eq!(Chunk::new(iend(), Vec::new()).crc(), 0xAE42_6082);
}

#[test]
fn chunk_round_trip_and_bit_flips() {
    let kind = ChunkKind::try_from(b"tEXt").unwrap();
    let data = b"Comment\0hello".to_vec();
    let bytes = Chunk::new(kind, data.clone()).to_bytes();
    assert_eq!(bytes.len(), 12 + data.len());
    let mut r = ByteReader::new(bytes.clone());
    let c = Chunk::read(&mut r).unwrap();
    assert_eq!(c.kind(), kind);
    assert_eq!(c.data(), &data[..]);
    assert_eq!(r.remaining(), 0);
    for pos in 8..bytes.len() {
        for bit in 0..8 {
            let mut bad = bytes.clone();
            bad[pos] ^= 1 << bit;
            let mut r = ByteReader::new(bad);
            assert_eq!(Chunk::read(&mut r), Err(PngError::CrcMismatch));
        }
    }
    for pos in 4..8 {
        for bit in 0..8 {
            let mut bad = bytes.clone();
            bad[pos] ^= 1 << bit;
            let mut r = ByteReader::new(bad);
            let e = Chunk::read(&mut r).unwrap_err();
            assert!(e == PngError::CrcMismatch || e == PngError::InvalidChunkKind);
        }
    }
}

#[test]
fn chunk_read_errors() {
    let bytes = chunk_bytes(idat(), &[1, 2, 3]);
    let mut r = ByteReader::new(bytes[..bytes.len() - 1].to_vec());
    assert_eq!(Chunk::read(&mut r), Err(PngError::UnexpectedEnd));
    let mut long = bytes.clone();
    long[0] = 0x80;
    assert_eq!(Chunk::read(&mut ByteReader::new(long)), Err(PngError::ChunkTooLong));
    let mut badkind = bytes.clone();
    badkind[5] = b'1';
    assert_eq!(Chunk::read(&mut ByteReader::new(badkind)), Err(PngError::InvalidChunkKind));
    assert!(ChunkKind::try_from(b"ab1d").is_err());
    assert!(ChunkKind::try_from(b"ab[d").is_err());
}

#[test]
fn read_chunks_errors() {
    let mut bad = vec![0u8; 8];
    bad.extend(chunk_bytes(iend(), &[]));
    assert_eq!(read_chunks(&bad), Err(PngError::BadSignature));
    assert_eq!(read_chunks(&[137, 80, 78]), Err(PngError::UnexpectedEnd));
}

fn read_in_steps(stream: &[u8], step: usize) -> Result<Vec<u8>, PngError> {
    let mut br = ChunkReader::new(ByteReader::new(stream.to_vec()))?;
    let mut all = Vec::new();
    loop {
        let part = br.read(step)?;
        if part.is_empty() {
            assert!(br.is_done());
            return Ok(all);
        }
        assert!(part.len() <= step);
        all.extend(part);
    }
}

#[test]
fn bridge_same_content_for_every_read_size() {
    let a: Vec<u8> = (0..10).collect();
    let b: Vec<u8> = (10..20).collect();
    let c: Vec<u8> = (20..30).collect();
    let stream = idat_stream(&[&a, &b, &c]);
    let expected: Vec<u8> = (0..30).collect();
    for step in [1usize, 7, 10, 12, 22, stream.len()] {
        assert_eq!(read_in_steps(&stream, step).unwrap(), expected);
        let mut br = ChunkReader::new(ByteReader::new(stream.clone())).unwrap();
        assert_eq!(br.read_to_end(step).unwrap(), expected);
    }
}

#[test]
fn bridge_small_chunks_in_one_read() {
    let stream = idat_stream(&[&[1], &[2, 3], &[4]]);
    let mut br = ChunkReader::new(ByteReader::new(stream)).unwrap();
    assert_eq!(br.read(100).unwrap(), vec![1, 2, 3, 4]);
    assert_eq!(br.read(100).unwrap(), Vec::<u8>::new());
}

#[test]
fn bridge_crc_failure_for_every_read_size() {
    let a: Vec<u8> = (0..10).collect();
    let b: Vec<u8> = (10..20).collect();
    let mut stream = idat_stream(&[&a, &b]);
    stream[8 + 10 + 12 + 3] ^= 0x40;
    for step in [1usize, 7, 10, stream.len()] {
        assert_eq!(read_in_steps(&stream, step), Err(PngError::CrcMismatch));
    }
    let mut br = ChunkReader::new(ByteReader::new(stream)).unwrap();
    assert!(br.read_to_end(5).is_err());
    assert_eq!(br.read(5), Err(PngError::CrcMismatch));
}

#[test]
fn bridge_truncated_and_misplaced() {
    let stream = idat_stream(&[&[1, 2, 3]]);
    assert_eq!(read_in_steps(&stream[..10], 4), Err(PngError::UnexpectedEnd));
    let text = chunk_bytes(ChunkKind::try_from(b"tEXt").unwrap(), &[0]);
    assert!(ChunkReader::new(ByteReader::new(text)).is_err());
    let mut mixed = chunk_bytes(idat(), &[1]);
    mixed.extend(chunk_bytes(plte(), &[0, 0, 0]));
    assert_eq!(read_in_steps(&mixed, 3), Err(PngError::UnexpectedChunk));
}

#[test]
fn zero_rows_stay_zero() {
    let zeros = [0u8; 9];
    for kind in [FilterKind::NoFilter, FilterKind::Sub, FilterKind::Up, FilterKind::Average, FilterKind::Paeth] {
        assert_eq!(reconstruct_row(kind, &zeros, &zeros, 3), vec![0u8; 9]);
    }
}

#[test]
fn paeth_ties() {
    assert_eq!(paeth_predict(7, 7, 7), 7);
    // p = 10 + 20 - 10 = 20: b is exact.
    assert_eq!(paeth_predict(10, 20, 10), 20);
    // p = 3 + 5 - 4 = 4: pa = 1, pb = 1, pc = 0: c wins.
    assert_eq!(paeth_predict(3, 5, 4), 4);
    // p = 4 + 6 - 0 = 10: pa = 6, pb = 4, pc = 10: b wins.
    assert_eq!(paeth_predict(4, 6, 0), 6);
    // p = 6 + 4 - 5 = 5: pa = 1, pb = 1, pc = 0: c wins; with c = 0,
    // p = 10: pa = 4, pb = 6: a wins.
    assert_eq!(paeth_predict(6, 4, 5), 5);
    assert_eq!(paeth_predict(6, 4, 0), 6);
    // p = 2 + 4 - 3 = 3: pa = 1, pb = 1, pc = 0; with c = 1, p = 5: pa = 3,
    // pb = 1, pc = 4: b wins. Equal a and b tie at distance 0: a is taken.
    assert_eq!(paeth_predict(2, 4, 1), 4);
    assert_eq!(paeth_predict(9, 9, 3), 9);
}

#[test]
fn filter_formulas() {
    let prev = [10u8, 20, 30, 250];
    let f = [1u8, 2, 3, 10];
    assert_eq!(reconstruct_row(FilterKind::NoFilter, &f, &prev, 1), vec![1, 2, 3, 10]);
    assert_eq!(reconstruct_row(FilterKind::Sub, &f, &prev, 1), vec![1, 3, 6, 16]);
    assert_eq!(reconstruct_row(FilterKind::Up, &f, &prev, 1), vec![11, 22, 33, 4]);
    assert_eq!(reconstruct_row(FilterKind::Average, &f, &prev, 1), vec![6, 15, 25, 147]);
    assert_eq!(reconstruct_row(FilterKind::Paeth, &f, &prev, 1), vec![11, 22, 33, 4]);
    assert_eq!(reconstruct_row(FilterKind::Sub, &[1, 2, 3, 4], &[0; 4], 2), vec![1, 2, 4, 6]);
    assert_eq!(FilterKind::try_from(5), Err(PngError::BadFilterType));
    assert_eq!(FilterKind::try_from(4), Ok(FilterKind::Paeth));
    assert_eq!(Filter::try_from(1), Err(PngError::BadFilterMethod));
    assert_eq!(Filter::try_from(0), Ok(Filter::Zero));
}

#[test]
fn sample_expansion() {
    assert_eq!(expand(0b11, 2), 0xFFFF);
    assert_eq!(expand(0b01, 2), 0x5555);
    assert_eq!(expand(0b10, 2), 0xAAAA);
    assert_eq!(expand(0b00, 2), 0x0000);
    assert_eq!(expand(1, 1), 0xFFFF);
    assert_eq!(expand(0xA, 4), 0xAAAA);
    assert_eq!(expand(0x12, 8), 0x1212);
    assert_eq!(expand(0x1234, 16), 0x1234);
}

#[test]
fn unpack_true_color_and_sixteen_bit() {
    let c = PngColor::new(ColorKind::True(true), 16).unwrap();
    let px = c.parse(&[0x12, 0x34, 0, 1, 0xff, 0xff, 0x80, 0x00]).unwrap();
    assert_eq!(px, vec![Color::new(0x1234, 1, 0xffff, 0x8000)]);
    let c = PngColor::new(ColorKind::True(false), 8).unwrap();
    let px = c.parse(&[1, 2, 3, 4, 5, 6, 7]).unwrap();
    assert_eq!(px, vec![Color::new(0x101, 0x202, 0x303, 0xffff), Color::new(0x404, 0x505, 0x606, 0xffff)]);
    assert_eq!(c.channel_mask(), 255);
    assert_eq!(c.data_len(), 24);
    assert_eq!(c.channels(), 3);
    let ix = PngColor::new(ColorKind::Indexed, 4).unwrap();
    assert_eq!(ix.parse(&[0]), Err(PngError::BadPalette));
    assert_eq!(
        ix.parse_indexed(&[0x10], &[1, 2, 3, 4, 5, 6]).unwrap(),
        vec![Color::new(0x404, 0x505, 0x606, 0xffff), Color::new(0x101, 0x202, 0x303, 0xffff)]
    );
    assert_eq!(ix.parse_indexed(&[0x20], &[1, 2, 3, 4, 5, 6]), Err(PngError::BadPaletteIndex));
}

#[test]
fn profile_validation() {
    for color in [0u8, 2, 3, 4, 6] {
        assert_eq!(Header::parse(&header_data(1, 1, 3, color, 0)).err(), Some(PngError::InvalidBitDepth));
    }
    assert_eq!(Header::parse(&header_data(1, 1, 16, 3, 0)).err(), Some(PngError::InvalidBitDepth));
    assert_eq!(Header::parse(&header_data(0, 1, 8, 2, 0)).err(), Some(PngError::EmptyImage));
    assert_eq!(Header::parse(&header_data(1, 0, 8, 2, 0)).err(), Some(PngError::EmptyImage));
    assert_eq!(Header::parse(&header_data(1, 1, 8, 1, 0)).err(), Some(PngError::UnknownColorType));
    assert_eq!(Header::parse(&header_data(1, 1, 8, 2, 2)).err(), Some(PngError::BadInterlaceMethod));
    assert_eq!(Header::parse(&header_data(1, 1, 8, 2, 0)[..12]).err(), Some(PngError::BadHeader));
    let mut d = header_data(1, 1, 8, 2, 0);
    d[10] = 1;
    assert_eq!(Header::parse(&d).err(), Some(PngError::BadCompressionMethod));
    let mut d = header_data(1, 1, 8, 2, 0);
    d[11] = 1;
    assert_eq!(Header::parse(&d).err(), Some(PngError::BadFilterMethod));
    let h = Header::parse(&header_data(3, 2, 4, 3, 1)).unwrap();
    assert_eq!((h.width, h.height, h.interlace), (3, 2, 1));
    assert_eq!(PngError::CrcMismatch.class(), ErrorClass::Integrity);
    assert_eq!(PngError::BadSignature.class(), ErrorClass::Framing);
    assert_eq!(PngError::InvalidBitDepth.class(), ErrorClass::Profile);
    assert_eq!(PngError::Decompression.class(), ErrorClass::Decompression);
}

#[test]
fn end_to_end_black_pixel() {
    let file = png_file(&header_data(1, 1, 8, 2, 0), &[], &[0, 0, 0, 0]);
    let img = decode(file).unwrap();
    assert_eq!((img.width(), img.height()), (1, 1));
    assert_eq!(img.pixels(), &[Color::new(0, 0, 0, 65535)]);
}

#[test]
fn decoding_twice_gives_the_same_image() {
    let raw = [1u8, 10, 20, 30, 2, 1, 1, 1];
    let file = png_file(&header_data(1, 2, 8, 2, 0), &[], &raw);
    let a = decode(file.clone()).unwrap();
    let b = decode(file).unwrap();
    assert_eq!(a, b);
    assert_eq!(
        a.pixels(),
        &[Color::new(0x0a0a, 0x1414, 0x1e1e, 0xffff), Color::new(0x0b0b, 0x1515, 0x1f1f, 0xffff)]
    );
}

#[test]
fn filtered_rows_end_to_end() {
    // 2x2 grey, 8 bits: row 0 with Sub, row 1 with Up.
    let raw = [1u8, 5, 5, 2, 1, 2];
    let img = decode(png_file(&header_data(2, 2, 8, 0, 0), &[], &raw)).unwrap();
    let g = |v: u16| Color::new(v * 257, v * 257, v * 257, 0xffff);
    assert_eq!(img.pixels(), &[g(5), g(10), g(6), g(12)]);
}

#[test]
fn adam7_end_to_end() {
    // 3x3 grey, 8 bits, interlaced: only passes 1, 4, 5, 6 and 7 are non-empty.
    let v = |x: u8, y: u8| 10 * (y * 3 + x) + 1;
    let raw = [
        0, v(0, 0),
        0, v(2, 0),
        0, v(0, 2), v(2, 2),
        0, v(1, 0),
        0, v(1, 2),
        0, v(0, 1), v(1, 1), v(2, 1),
    ];
    let img = decode(png_file(&header_data(3, 3, 8, 0, 1), &[], &raw)).unwrap();
    let mut expected = Vec::new();
    for y in 0..3u8 {
        for x in 0..3u8 {
            let g = v(x, y) as u16 * 257;
            expected.push(Color::new(g, g, g, 0xffff));
        }
    }
    assert_eq!(img.pixels(), &expected[..]);
}

#[test]
fn indexed_image_with_palette() {
    let pal = chunk_bytes(plte(), &[255, 0, 0, 0, 0, 255]);
    let text = chunk_bytes(ChunkKind::try_from(b"tEXt").unwrap(), b"a\0b");
    // 3x1, 1 bit: indexes 1, 0, 1.
    let img = decode(png_file(&header_data(3, 1, 1, 3, 0), &[text, pal], &[0, 0b1010_0000])).unwrap();
    let red = Color::new(0xffff, 0, 0, 0xffff);
    let blue = Color::new(0, 0, 0xffff, 0xffff);
    assert_eq!(img.pixels(), &[blue, red, blue]);
}

#[test]
fn decode_errors() {
    let ok_raw = [0u8, 0, 0, 0];
    let good = png_file(&header_data(1, 1, 8, 2, 0), &[], &ok_raw);
    let mut bad_sig = good.clone();
    bad_sig[1] = b'Q';
    assert_eq!(decode(bad_sig).err(), Some(PngError::BadSignature));
    assert_eq!(decode(good[..5].to_vec()).err(), Some(PngError::UnexpectedEnd));
    let mut bad_crc = good.clone();
    bad_crc[20] ^= 1;
    assert_eq!(decode(bad_crc).err(), Some(PngError::CrcMismatch));
    let unknown_critical = chunk_bytes(ChunkKind::try_from(b"ABCD").unwrap(), &[]);
    assert_eq!(
        decode(png_file(&header_data(1, 1, 8, 2, 0), &[unknown_critical], &ok_raw)).err(),
        Some(PngError::UnexpectedChunk)
    );
    assert_eq!(
        decode(png_file(&header_data(1, 1, 8, 3, 0), &[], &[0, 0])).err(),
        Some(PngError::BadPalette)
    );
    let pal = chunk_bytes(plte(), &[1, 2, 3]);
    assert_eq!(
        decode(png_file(&header_data(1, 1, 8, 3, 0), &[pal], &[0, 1])).err(),
        Some(PngError::BadPaletteIndex)
    );
    assert_eq!(
        decode(png_file(&header_data(1, 1, 8, 2, 0), &[], &[7, 0, 0, 0])).err(),
        Some(PngError::BadFilterType)
    );
    assert_eq!(
        decode(png_file(&header_data(1, 2, 8, 2, 0), &[], &ok_raw)).err(),
        Some(PngError::UnexpectedEnd)
    );
    let mut file = vec![137, 80, 78, 71, 13, 10, 26, 10];
    file.extend(chunk_bytes(ihdr(), &header_data(1, 1, 8, 2, 0)));
    file.extend(chunk_bytes(idat(), &[1, 2, 3, 4]));
    file.extend(chunk_bytes(iend(), &[]));
    assert_eq!(decode(file).err(), Some(PngError::Decompression));
    let parser = PngParser::new(png_file(&header_data(1, 1, 8, 2, 0), &[], &ok_raw));
    assert!(parser.is_ok());
    let mut wrong_first = vec![137, 80, 78, 71, 13, 10, 26, 10];
    wrong_first.extend(chunk_bytes(idat(), &[0; 13]));
    assert_eq!(decode(wrong_first).err(), Some(PngError::BadHeader));
}

#[test]
fn bridge_reports_crc_mismatch_with_last_byte() {
    let a: Vec<u8> = (0..10).collect();
    let b: Vec<u8> = (10..20).collect();
    let mut stream = idat_stream(&[&a, &b]);
    stream[18] ^= 1; // stored CRC of the first chunk
    for step in [1usize, 3, 10, 64] {
        let mut br = ChunkReader::new(ByteReader::new(stream.clone())).unwrap();
        let mut got = Vec::new();
        let err = loop {
            match br.read(step) {
                Ok(part) => {
                    assert!(!part.is_empty());
                    got.extend(part);
                    assert!(got.len() < 10, "the last byte must come with the failure");
                }
                Err(e) => break e,
            }
        };
        assert_eq!(err, PngError::CrcMismatch);
        assert!(br.is_done());
        assert_eq!(br.read(step), Err(PngError::CrcMismatch));
    }
}

#[test]
fn bridge_opened_on_iend_is_done() {
    let mut br = ChunkReader::new(ByteReader::new(chunk_bytes(iend(), &[]))).unwrap();
    assert!(br.is_done());
    assert_eq!(br.read(16).unwrap(), Vec::<u8>::new());
    let br = ChunkReader::new(ByteReader::new(idat_stream(&[&[1, 2]]))).unwrap();
    assert!(!br.is_done());
}

#[test]
fn bridge_any_size_sequence() {
    let a: Vec<u8> = (0..10).collect();
    let b: Vec<u8> = (10..20).collect();
    let c: Vec<u8> = (20..30).collect();
    let stream = idat_stream(&[&a, &b, &c]);
    let expected: Vec<u8> = (0..30).collect();
    for sizes in [vec![1usize], vec![7], vec![3, 11, 1], vec![10, 10, 10], vec![stream.len()]] {
        let mut br = ChunkReader::new(ByteReader::new(stream.clone())).unwrap();
        assert_eq!(br.read_all_with(&sizes).unwrap(), expected);
    }
    let mut bad = stream.clone();
    bad[55] ^= 2; // a data byte of the third chunk
    for sizes in [vec![1usize], vec![4, 9], vec![bad.len()]] {
        let mut br = ChunkReader::new(ByteReader::new(bad.clone())).unwrap();
        assert_eq!(br.read_all_with(&sizes), Err(PngError::CrcMismatch));
    }
}

#[test]
fn chunk_too_long_takes_only_the_length() {
    let mut bytes = chunk_bytes(idat(), &[1, 2, 3]);
    bytes[0] = 0x80;
    let total = bytes.len();
    let mut r = ByteReader::new(bytes);
    assert_eq!(Chunk::read(&mut r), Err(PngError::ChunkTooLong));
    assert_eq!(r.remaining(), total - 4);
}

#[test]
fn kind_letters_only() {
    assert_eq!(ChunkKind::try_from(b"IH1R"), Err(PngError::InvalidChunkKind));
    assert_eq!(ChunkKind::try_from(&[0x49, 0x48, 0x44, 0x00]), Err(PngError::InvalidChunkKind));
    assert!(ChunkKind::try_from(b"zZaA").is_ok());
}

#[test]
fn zero_image_every_filter_is_black() {
    let w = 3usize;
    for t in 0..5u8 {
        let mut raw = Vec::new();
        for row in 0..2u8 {
            raw.push((t + row) % 5);
            raw.extend(std::iter::repeat(0u8).take(w));
        }
        let img = decode(png_file(&header_data(3, 2, 8, 0, 0), &[], &raw)).unwrap();
        assert_eq!(img.pixels(), &[Color::new(0, 0, 0, 65535); 6][..]);
    }
}

#[test]
fn paeth_equal_neighbors_end_to_end() {
    let g = |v: u16| Color::new(v, v, v, 0xffff);
    let img = decode(png_file(&header_data(2, 2, 8, 0, 0), &[], &[0, 5, 5, 4, 0, 7])).unwrap();
    assert_eq!(img.pixels(), &[g(0x0505), g(0x0505), g(0x0505), g(0x0c0c)]);
    let img = decode(png_file(&header_data(2, 2, 8, 0, 0), &[], &[0, 2, 3, 4, 0xfe, 0])).unwrap();
    assert_eq!(img.pixels(), &[g(0x0202), g(0x0303), g(0), g(0)]);
}

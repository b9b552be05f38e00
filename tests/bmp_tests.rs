use maya::bmp::BmpImageParser;
use maya::encoding::{FileEncoding, FileEncodingSupport};
use maya::engine::{embed_lsb_data_left_right, extract_lsb_data_left_right};
use maya::geometry::StegoError;
use maya::pixel::{RgbPixel, RgbaPixel};
use maya::traversal::TraversalStrategy;

const MESSAGE: &str = "This is a test embedding for testing purposes";

/// A BMP file of the given size and depth whose pixel bytes are all `fill`.
fn bmp_bytes(width: i32, height: i32, bits_per_pixel: u16, fill: u8) -> Vec<u8> {
    let channels = (bits_per_pixel / 8) as usize;
    let w = width.unsigned_abs() as usize;
    let h = height.unsigned_abs() as usize;
    let stride = (w * channels + 3) / 4 * 4;
    let size = 54 + stride * h;
    let mut b: Vec<u8> = Vec::new();
    b.extend_from_slice(b"BM");
    b.extend_from_slice(&(size as u32).to_le_bytes());
    b.extend_from_slice(&0u16.to_le_bytes());
    b.extend_from_slice(&0u16.to_le_bytes());
    b.extend_from_slice(&54u32.to_le_bytes());
    b.extend_from_slice(&40u32.to_le_bytes());
    b.extend_from_slice(&width.to_le_bytes());
    b.extend_from_slice(&height.to_le_bytes());
    b.extend_from_slice(&1u16.to_le_bytes());
    b.extend_from_slice(&bits_per_pixel.to_le_bytes());
    b.extend_from_slice(&0u32.to_le_bytes());
    b.extend_from_slice(&((stride * h) as u32).to_le_bytes());
    b.extend_from_slice(&2835i32.to_le_bytes());
    b.extend_from_slice(&2835i32.to_le_bytes());
    b.extend_from_slice(&0u32.to_le_bytes());
    b.extend_from_slice(&0u32.to_le_bytes());
    b.resize(size, fill);
    b
}

fn sample_image() -> BmpImageParser {
    let mut parser = BmpImageParser::new();
    parser.parse_file(bmp_bytes(1024, 1024, 24, 0x5a)).unwrap();
    parser
}

fn embed_left_right(parser: &mut BmpImageParser, data: &Vec<u8>) -> Result<(), StegoError> {
    let start = parser.pixel_map.pixel_map_start as usize;
    let width = parser.pixel_map.width as u64;
    let height = parser.pixel_map.height as u64;
    let padding = parser.padding_size as u64;
    let pixel_size = parser.pixel_size as u64;
    match parser.pixel_size {
        3 => embed_lsb_data_left_right::<RgbPixel>(
            data,
            &mut parser.file_data[start..],
            width,
            height,
            padding,
            pixel_size,
        ),
        4 => embed_lsb_data_left_right::<RgbaPixel>(
            data,
            &mut parser.file_data[start..],
            width,
            height,
            padding,
            pixel_size,
        ),
        _ => panic!("bad value for pixel size"),
    }
}

fn extract_left_right(parser: &BmpImageParser, bits: u64) -> Vec<u8> {
    let start = parser.pixel_map.pixel_map_start as usize;
    let width = parser.pixel_map.width as u64;
    let height = parser.pixel_map.height as u64;
    let padding = parser.padding_size as u64;
    let pixel_size = parser.pixel_size as u64;
    match parser.pixel_size {
        3 => extract_lsb_data_left_right::<RgbPixel>(
            &parser.file_data[start..],
            width,
            height,
            padding,
            pixel_size,
            bits,
        )
        .unwrap(),
        4 => extract_lsb_data_left_right::<RgbaPixel>(
            &parser.file_data[start..],
            width,
            height,
            padding,
            pixel_size,
            bits,
        )
        .unwrap(),
        _ => panic!("bad value for pixel size"),
    }
}

fn large_message() -> Vec<u8> {
    MESSAGE.repeat(356).as_bytes().to_vec()
}

#[test]
fn test_bmp_object_creation() {
    let bmp_image_parser = BmpImageParser::new();

    assert_eq!(bmp_image_parser.file_data.len(), 0);
    assert_eq!(bmp_image_parser.pixel_size, 0);
    assert_eq!(bmp_image_parser.pixel_map.width, 0);
    assert_eq!(bmp_image_parser.pixel_map.height, 0);
    assert_eq!(bmp_image_parser.pixel_map.pixel_map_start, 0);

    let h = bmp_image_parser.bmp_header;
    assert_eq!(h.bf_type, 0);
    assert_eq!(h.bf_size, 0);
    assert_eq!(h.bf_reserved1, 0);
    assert_eq!(h.bf_reserved2, 0);
    assert_eq!(h.bf_off_bits, 0);

    let d = bmp_image_parser.bmp_dib_header;
    assert_eq!(d.bi_size, 0);
    assert_eq!(d.bi_width, 0);
    assert_eq!(d.bi_height, 0);
    assert_eq!(d.bi_planes, 0);
    assert_eq!(d.bi_bit_count, 0);
    assert_eq!(d.bi_compression, 0);
    assert_eq!(d.bi_size_image, 0);
    assert_eq!(d.bi_x_pels_per_meter, 0);
    assert_eq!(d.bi_y_pels_per_meter, 0);
    assert_eq!(d.bi_clr_used, 0);
    assert_eq!(d.bi_clr_important, 0);

    assert_eq!(bmp_image_parser.padding_size, 0);
}

#[test]
fn test_bmp_image_parsing() {
    let bmp_image_parser = sample_image();

    assert_ne!(bmp_image_parser.file_data.len(), 0);
    assert_ne!(bmp_image_parser.pixel_size, 0);
    assert_ne!(bmp_image_parser.pixel_map.width, 0);
    assert_ne!(bmp_image_parser.pixel_map.height, 0);
    assert_ne!(bmp_image_parser.pixel_map.pixel_map_start, 0);

    let h = bmp_image_parser.bmp_header;
    assert_ne!(h.bf_type, 0);
    assert_ne!(h.bf_size, 0);
    assert_eq!(h.bf_off_bits, 54);

    let d = bmp_image_parser.bmp_dib_header;
    assert_ne!(d.bi_size, 0);
    assert_eq!(d.bi_width, 1024);
    assert_eq!(d.bi_height, 1024);
    assert_ne!(d.bi_planes, 0);
    assert_eq!(d.bi_bit_count, 24);
    assert_ne!(d.bi_size_image, 0);
    assert_ne!(d.bi_x_pels_per_meter, 0);
    assert_ne!(d.bi_y_pels_per_meter, 0);

    assert_eq!(bmp_image_parser.padding_size, 0);
}

#[test]
fn test_bmp_lsb_embed_left_right() {
    let mut bmp_image_parser = sample_image();
    let data_vec: Vec<u8> = MESSAGE.as_bytes().to_vec();
    let before = bmp_image_parser.file_data.clone();
    assert_eq!(embed_left_right(&mut bmp_image_parser, &data_vec), Ok(()));
    assert_eq!(bmp_image_parser.file_data.len(), before.len());
    assert_ne!(bmp_image_parser.file_data, before);
}

#[test]
fn test_bmp_lsb_retrieve_left_right() {
    let mut bmp_image_parser = sample_image();
    let message: Vec<u8> = MESSAGE.as_bytes().to_vec();
    embed_left_right(&mut bmp_image_parser, &message).unwrap();

    let data_vec = extract_left_right(&bmp_image_parser, 360);
    assert_eq!(data_vec[0..(360 / 8)], MESSAGE.as_bytes().to_vec());
}

#[test]
fn test_bmp_lsb_embed_large_message() {
    let mut bmp_image_parser = sample_image();
    let data_vec = large_message();
    assert_eq!(embed_left_right(&mut bmp_image_parser, &data_vec), Ok(()));

    // more than a full pixel row of bits, so that embedding spans rows
    assert!(data_vec.len() > 384);
}

#[test]
fn test_bmp_lsb_retrieve_large_message() {
    let mut bmp_image_parser = sample_image();
    let message_vec = large_message();
    embed_left_right(&mut bmp_image_parser, &message_vec).unwrap();

    let data_vec = extract_left_right(&bmp_image_parser, (message_vec.len() * 8) as u64);
    assert_eq!(
        String::from_utf8(data_vec[0..(message_vec.len())].to_owned()),
        String::from_utf8(message_vec)
    );
}

#[test]
fn parser_embeds_and_retrieves_through_the_container() {
    let mut parser = sample_image();
    let message = MESSAGE.as_bytes().to_vec();
    let header_before = parser.file_data[0..54].to_vec();
    parser.embed_data(&message, FileEncoding::Lsb, &TraversalStrategy::ZigZagVertical).unwrap();
    assert_eq!(parser.file_data[0..54].to_vec(), header_before);
    let out = parser
        .retrieve_data(message.len() * 8, FileEncoding::Lsb, &TraversalStrategy::ZigZagVertical)
        .unwrap();
    let mut expected = message.clone();
    expected.push(0);
    assert_eq!(out, expected);
}

#[test]
fn parser_refuses_unimplemented_encodings() {
    let mut parser = sample_image();
    let before = parser.file_data.clone();
    assert_eq!(
        parser.embed_data(b"x", FileEncoding::HammingMatrix, &TraversalStrategy::LeftToRight),
        Err(StegoError::UnsupportedEncoding)
    );
    assert_eq!(
        parser.retrieve_data(8, FileEncoding::PixelValueDifferencing, &TraversalStrategy::LeftToRight),
        Err(StegoError::UnsupportedEncoding)
    );
    assert_eq!(parser.file_data, before);
}

#[test]
fn unparsed_parser_has_no_geometry() {
    let mut parser = BmpImageParser::new();
    assert_eq!(parser.geometry(), None);
    assert_eq!(
        parser.embed_data(b"x", FileEncoding::Lsb, &TraversalStrategy::LeftToRight),
        Err(StegoError::InvalidGeometry)
    );
}

#[test]
fn parse_derives_stride_and_padding() {
    let mut parser = BmpImageParser::new();
    parser.parse_file(bmp_bytes(5, 3, 24, 0)).unwrap();
    let g = parser.geometry().unwrap();
    assert_eq!(g.width, 5);
    assert_eq!(g.height, 3);
    assert_eq!(g.channels, 3);
    assert_eq!(g.row_stride, 16);
    assert_eq!(g.row_padding, 1);
    assert_eq!(g.pixel_data_offset, 54);
    assert!(!g.top_down);
    assert_eq!(parser.padding_size, 1);
}

#[test]
fn parse_records_top_down_rows() {
    let mut parser = BmpImageParser::new();
    parser.parse_file(bmp_bytes(2, -3, 32, 0)).unwrap();
    let g = parser.geometry().unwrap();
    assert_eq!(g.height, 3);
    assert_eq!(g.channels, 4);
    assert_eq!(g.row_stride, 8);
    assert!(g.top_down);
}

#[test]
fn parse_rejects_bad_magic() {
    let mut bytes = bmp_bytes(2, 2, 24, 0);
    bytes[0] = b'P';
    let mut parser = BmpImageParser::new();
    assert_eq!(parser.parse_file(bytes), Err(StegoError::UnsupportedFormat));
    assert!(!parser.ready);
}

#[test]
fn parse_rejects_larger_dib_headers() {
    let mut bytes = bmp_bytes(2, 2, 24, 0);
    bytes[14] = 124;
    let mut parser = BmpImageParser::new();
    assert_eq!(parser.parse_file(bytes), Err(StegoError::UnsupportedFormat));
}

#[test]
fn parse_rejects_short_files() {
    let mut parser = BmpImageParser::new();
    assert_eq!(parser.parse_file(b"BM".to_vec()), Err(StegoError::UnsupportedFormat));
    let mut bytes = bmp_bytes(4, 4, 24, 0);
    bytes.truncate(54 + 12 * 4 - 1);
    assert_eq!(parser.parse_file(bytes), Err(StegoError::InvalidGeometry));
}

#[test]
fn parse_rejects_other_depths() {
    let mut parser = BmpImageParser::new();
    assert_eq!(parser.parse_file(bmp_bytes(4, 4, 8, 0)), Err(StegoError::UnsupportedPixelDepth));
    assert_eq!(parser.parse_file(bmp_bytes(4, 4, 16, 0)), Err(StegoError::UnsupportedPixelDepth));
}

#[test]
fn parse_rejects_non_positive_width() {
    let mut parser = BmpImageParser::new();
    assert_eq!(parser.parse_file(bmp_bytes(0, 4, 24, 0)), Err(StegoError::InvalidGeometry));
    assert_eq!(parser.parse_file(bmp_bytes(-3, 4, 24, 0)), Err(StegoError::InvalidGeometry));
}

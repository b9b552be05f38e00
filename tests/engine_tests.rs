use maya::bits::{increment_bit_and_byte_counters, PayloadCursor};
use maya::engine::{embed_lsb, embed_pixel_lsb, extract_lsb, embed_lsb_data_right_left, extract_lsb_data_right_left, embed_lsb_wave_function_left_right};
use maya::geometry::{Geometry, StegoError};
use maya::parity::{embed_color_data_left_right, embed_parity, extract_color_data_left_right, extract_parity};
use maya::pixel::{Pixel, RgbPixel, RgbaPixel};
use maya::traversal::{TraversalStrategy, WaveFunction};

fn geometry(width: usize, height: usize, channels: usize, offset: usize) -> Geometry {
    let row = width * channels;
    let stride = (row + 3) / 4 * 4;
    Geometry {
        width,
        height,
        row_stride: stride,
        row_padding: stride - row,
        channels,
        pixel_data_offset: offset,
        top_down: false,
    }
}

fn all_strategies() -> Vec<TraversalStrategy> {
    vec![
        TraversalStrategy::LeftToRight,
        TraversalStrategy::RightToLeft,
        TraversalStrategy::TopToBottom,
        TraversalStrategy::BottomToTop,
        TraversalStrategy::ZigZagHorizontal,
        TraversalStrategy::ZigZagVertical,
        TraversalStrategy::DiagonalRight,
        TraversalStrategy::DiagonalLeft,
        TraversalStrategy::Sinusoidal(vec![0, 3, 5, 9, 2, 1, 4, 7]),
    ]
}

#[test]
fn scenario_a_two_bytes_into_zero_image() {
    let g = geometry(4, 4, 3, 0);
    assert_eq!(g.row_stride, 12);
    let mut buf = vec![0u8; 48];
    let payload = vec![0b1010_0101u8, 0b0000_0011u8];
    embed_lsb::<RgbPixel>(&payload, &mut buf, &g, &TraversalStrategy::LeftToRight).unwrap();
    for k in 0..16 {
        let expected = (payload[k / 8] >> (k % 8)) & 1;
        assert_eq!(buf[k], expected, "channel {}", k);
    }
    for k in 16..48 {
        assert_eq!(buf[k], 0);
    }
    let out = extract_lsb::<RgbPixel>(&buf, &g, &TraversalStrategy::LeftToRight, 16).unwrap();
    assert_eq!(out, vec![0b1010_0101u8, 0b0000_0011u8, 0]);
}

#[test]
fn scenario_b_message_across_rows() {
    let g = geometry(1024, 1024, 3, 54);
    let mut buf = vec![0x33u8; 54 + 1024 * 1024 * 3];
    let message = b"This message is forty-six bytes long, exactly.".to_vec();
    assert_eq!(message.len(), 46);
    embed_lsb::<RgbPixel>(&message, &mut buf, &g, &TraversalStrategy::LeftToRight).unwrap();
    let out = extract_lsb::<RgbPixel>(&buf, &g, &TraversalStrategy::LeftToRight, 46 * 8).unwrap();
    assert_eq!(&out[..46], &message[..]);

    // A narrow image makes the same message cross many rows.
    let narrow = geometry(5, 64, 3, 0);
    let mut small = vec![0xffu8; narrow.row_stride * 64];
    embed_lsb::<RgbPixel>(&message, &mut small, &narrow, &TraversalStrategy::LeftToRight).unwrap();
    let out = extract_lsb::<RgbPixel>(&small, &narrow, &TraversalStrategy::LeftToRight, 46 * 8).unwrap();
    assert_eq!(&out[..46], &message[..]);
}

#[test]
fn scenario_c_over_capacity_leaves_buffer() {
    let g = geometry(4, 4, 3, 0);
    let mut buf: Vec<u8> = (0..48).map(|i| i as u8).collect();
    let before = buf.clone();
    // 48 channels hold 6 bytes; 7 bytes is 56 bits.
    let payload = vec![0xaau8; 7];
    assert_eq!(
        embed_lsb::<RgbPixel>(&payload, &mut buf, &g, &TraversalStrategy::LeftToRight),
        Err(StegoError::CapacityExceeded)
    );
    assert_eq!(buf, before);
}

#[test]
fn capacity_boundary_exact_fit_succeeds() {
    let g = geometry(4, 4, 3, 0);
    let mut buf = vec![0u8; 48];
    let payload = vec![0xc3u8; 6];
    assert_eq!(embed_lsb::<RgbPixel>(&payload, &mut buf, &g, &TraversalStrategy::RightToLeft), Ok(()));
    let out = extract_lsb::<RgbPixel>(&buf, &g, &TraversalStrategy::RightToLeft, 48).unwrap();
    assert_eq!(out, vec![0xc3, 0xc3, 0xc3, 0xc3, 0xc3, 0xc3, 0]);
    // Diagonals hold min(w, h) * channels bits: 4 * 3 = 12, so one byte fits and two do not.
    assert_eq!(embed_lsb::<RgbPixel>(&[1u8], &mut buf, &g, &TraversalStrategy::DiagonalRight), Ok(()));
    assert_eq!(
        embed_lsb::<RgbPixel>(&[1u8, 2u8], &mut buf, &g, &TraversalStrategy::DiagonalRight),
        Err(StegoError::CapacityExceeded)
    );
}

#[test]
fn round_trip_every_strategy() {
    for channels in [3usize, 4] {
        for s in all_strategies() {
            let g = geometry(8, 8, channels, 10);
            let mut buf: Vec<u8> = (0..(10 + g.row_stride * 8)).map(|i| (i * 37 % 251) as u8).collect();
            let payload = vec![0x5au8, 0xf0, 0x0f];
            let r = if channels == 3 {
                embed_lsb::<RgbPixel>(&payload, &mut buf, &g, &s)
            } else {
                embed_lsb::<RgbaPixel>(&payload, &mut buf, &g, &s)
            };
            r.unwrap();
            let out = if channels == 3 {
                extract_lsb::<RgbPixel>(&buf, &g, &s, 24).unwrap()
            } else {
                extract_lsb::<RgbaPixel>(&buf, &g, &s, 24).unwrap()
            };
            assert_eq!(out, vec![0x5a, 0xf0, 0x0f, 0], "{:?}", s);
        }
    }
}

#[test]
fn header_bytes_are_preserved() {
    let g = geometry(3, 3, 3, 20);
    let mut buf: Vec<u8> = (0..(20 + 12 * 3)).map(|i| (255 - i) as u8).collect();
    let before = buf.clone();
    embed_lsb::<RgbPixel>(&[0xffu8, 0x00, 0x81], &mut buf, &g, &TraversalStrategy::ZigZagHorizontal).unwrap();
    assert_eq!(&buf[..20], &before[..20]);
    for i in 0..buf.len() {
        assert_eq!(buf[i] & 0xfe, before[i] & 0xfe);
    }
}

#[test]
fn channel_isolation_for_three_and_four_channels() {
    // 24 bits, width 1: every row is one pixel and one padding byte.
    let g3 = geometry(1, 10, 3, 0);
    assert_eq!(g3.row_padding, 1);
    let mut buf = vec![0xffu8; 40];
    embed_lsb::<RgbPixel>(&[0u8], &mut buf, &g3, &TraversalStrategy::LeftToRight).unwrap();
    for row in 0..10 {
        assert_eq!(buf[row * 4 + 3], 0xff, "padding of row {}", row);
    }
    // 8 bits went to rows 0, 1 and two channels of row 2.
    assert_eq!(&buf[0..3], &[0xfe, 0xfe, 0xfe]);
    assert_eq!(&buf[8..11], &[0xfe, 0xfe, 0xff]);

    // 32 bits: one byte fills two pixels; the third pixel's channels stay.
    let g4 = geometry(4, 1, 4, 0);
    let mut buf = vec![0xffu8; 16];
    embed_lsb::<RgbaPixel>(&[0u8], &mut buf, &g4, &TraversalStrategy::LeftToRight).unwrap();
    assert_eq!(&buf[0..8], &[0xfe; 8]);
    assert_eq!(&buf[8..16], &[0xff; 8]);
}

#[test]
fn extraction_past_capacity_reads_zeros() {
    let g = geometry(2, 1, 3, 0);
    let buf = vec![1u8; 8];
    let out = extract_lsb::<RgbPixel>(&buf, &g, &TraversalStrategy::LeftToRight, 16).unwrap();
    assert_eq!(out, vec![0x3f, 0, 0]);
}

#[test]
fn extraction_sizes_its_output() {
    let g = geometry(4, 4, 3, 0);
    let buf = vec![0u8; 48];
    assert_eq!(extract_lsb::<RgbPixel>(&buf, &g, &TraversalStrategy::LeftToRight, 0).unwrap().len(), 1);
    assert_eq!(extract_lsb::<RgbPixel>(&buf, &g, &TraversalStrategy::LeftToRight, 9).unwrap().len(), 3);
    assert_eq!(extract_lsb::<RgbPixel>(&buf, &g, &TraversalStrategy::LeftToRight, 16).unwrap().len(), 3);
}

#[test]
fn short_buffer_is_invalid_geometry() {
    let g = geometry(4, 4, 3, 0);
    let mut buf = vec![0u8; 47];
    assert_eq!(
        embed_lsb::<RgbPixel>(&[1u8], &mut buf, &g, &TraversalStrategy::LeftToRight),
        Err(StegoError::InvalidGeometry)
    );
    assert_eq!(
        extract_lsb::<RgbPixel>(&buf, &g, &TraversalStrategy::LeftToRight, 8),
        Err(StegoError::InvalidGeometry)
    );
    // A layout with another channel count is refused too.
    let mut full = vec![0u8; 48];
    assert_eq!(
        embed_lsb::<RgbaPixel>(&[1u8], &mut full, &g, &TraversalStrategy::LeftToRight),
        Err(StegoError::InvalidGeometry)
    );
}

#[test]
fn right_left_visits_last_channel_first() {
    let mut map = vec![0u8; 12];
    embed_lsb_data_right_left::<RgbPixel>(&[1u8], &mut map, 2, 2, 0, 3).unwrap();
    // The first bit lands in the first channel of the last pixel.
    assert_eq!(map, vec![0, 0, 0, 0, 0, 0, 0, 0, 0, 1, 0, 0]);
    let out = extract_lsb_data_right_left::<RgbPixel>(&map, 2, 2, 0, 3, 8).unwrap();
    assert_eq!(out, vec![1, 0]);
    assert_eq!(
        embed_lsb_data_right_left::<RgbPixel>(&[1u8], &mut map, 2, 2, 0, 5),
        Err(StegoError::InvalidGeometry)
    );
}

#[test]
fn wave_function_embedding_follows_the_wave() {
    let mut map = vec![0u8; 4 * 4 * 3];
    embed_lsb_wave_function_left_right::<RgbPixel>(&[0xffu8], &mut map, 4, 4, 0, 3, WaveFunction::DiagonalRight, Vec::new()).unwrap();
    // (0,0), (1,1) and two channels of (2,2)
    assert_eq!(&map[0..3], &[1, 1, 1]);
    assert_eq!(&map[15..18], &[1, 1, 1]);
    assert_eq!(&map[30..33], &[1, 1, 0]);
    assert_eq!(map.iter().filter(|b| **b == 1).count(), 8);
}

#[test]
fn parity_round_trip() {
    for s in all_strategies() {
        let g = geometry(16, 8, 3, 4);
        let mut buf: Vec<u8> = (0..(4 + g.row_stride * 8)).map(|i| (i * 91 % 256) as u8).collect();
        let payload = vec![0x96u8];
        embed_parity::<RgbPixel>(&payload, &mut buf, &g, &s).unwrap();
        let out = extract_parity::<RgbPixel>(&buf, &g, &s, 8).unwrap();
        assert_eq!(out, vec![0x96, 0], "{:?}", s);
    }
}

#[test]
fn parity_flips_only_where_needed() {
    // Pixel parities: [0,0,0] even, [1,0,0] odd.
    let mut map = vec![0u8, 0, 0, 1, 0, 0, 7, 7, 7, 0, 0, 0, 0, 0, 0, 0];
    let payload = vec![0b0000_0101u8];
    assert_eq!(
        embed_color_data_left_right::<RgbPixel>(&payload, &mut map, 16, 1, 0, 3),
        Err(StegoError::InvalidGeometry)
    );
    let mut map = vec![0u8; 8 * 3];
    map[3] = 1;
    embed_color_data_left_right::<RgbPixel>(&payload, &mut map, 8, 1, 0, 3).unwrap();
    // bit 0 is 1: pixel 0 flips; bit 1 is 0: pixel 1 (odd) flips; bit 2 is 1: pixel 2 flips.
    assert_eq!(&map[0..9], &[1, 0, 0, 0, 0, 0, 1, 0, 0]);
    let out = extract_color_data_left_right::<RgbPixel>(&map, 8, 1, 0, 3, 8).unwrap();
    assert_eq!(out, vec![0b0000_0101, 0]);
    assert_eq!(
        embed_color_data_left_right::<RgbPixel>(&[1u8, 2u8], &mut map, 8, 1, 0, 3),
        Err(StegoError::CapacityExceeded)
    );
}

#[test]
fn cursor_walks_bits_in_order() {
    let mut bit: u32 = 6;
    let mut byte: u32 = 2;
    increment_bit_and_byte_counters(&mut bit, &mut byte);
    assert_eq!((bit, byte), (7, 2));
    increment_bit_and_byte_counters(&mut bit, &mut byte);
    assert_eq!((bit, byte), (0, 3));

    let data = [0b1000_0001u8, 0b0000_0010u8];
    let mut c = PayloadCursor::start();
    let mut bits = Vec::new();
    for _ in 0..16 {
        bits.push(c.current_bit(&data));
        c.advance();
    }
    assert_eq!(bits, vec![1, 0, 0, 0, 0, 0, 0, 1, 0, 1, 0, 0, 0, 0, 0, 0]);
    assert_eq!((c.byte_index, c.bit_index), (2, 0));
}

#[test]
fn pixel_lsb_stops_with_the_payload() {
    let mut p = RgbaPixel { blue: 0xff, green: 0xff, red: 0xff, alpha: 0xff };
    let mut c = PayloadCursor::start();
    let data = [0u8];
    let mut remaining: usize = 2;
    c.advance();
    c.advance();
    c.advance();
    c.advance();
    c.advance();
    c.advance();
    embed_pixel_lsb(&mut p, &mut c, &data, &mut remaining);
    assert_eq!(p, RgbaPixel { blue: 0xfe, green: 0xfe, red: 0xff, alpha: 0xff });
    assert_eq!(remaining, 0);
    assert_eq!((c.byte_index, c.bit_index), (1, 0));
}

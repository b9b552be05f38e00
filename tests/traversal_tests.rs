use maya::encoding::FileEncodingMethod;
use maya::pixel::{transform_pixel_quadrants, transform_pixels, BmpPixelType, Pixel, RgbPixel, RgbaPixel};
use maya::traversal::{coordinate_at, coordinate_count, traverse, TraversalStrategy, WaveFunction};

fn order(s: &TraversalStrategy, h: usize, w: usize) -> Vec<(usize, usize)> {
    traverse(s, h, w)
}

#[test]
fn axis_aligned_orders_on_two_by_three() {
    assert_eq!(
        order(&TraversalStrategy::LeftToRight, 2, 3),
        vec![(0, 0), (0, 1), (0, 2), (1, 0), (1, 1), (1, 2)]
    );
    assert_eq!(
        order(&TraversalStrategy::RightToLeft, 2, 3),
        vec![(1, 2), (1, 1), (1, 0), (0, 2), (0, 1), (0, 0)]
    );
    assert_eq!(
        order(&TraversalStrategy::TopToBottom, 2, 3),
        vec![(0, 0), (1, 0), (0, 1), (1, 1), (0, 2), (1, 2)]
    );
    assert_eq!(
        order(&TraversalStrategy::BottomToTop, 2, 3),
        vec![(1, 2), (0, 2), (1, 1), (0, 1), (1, 0), (0, 0)]
    );
}

#[test]
fn zig_zag_orders_on_two_by_three() {
    assert_eq!(
        order(&TraversalStrategy::ZigZagHorizontal, 2, 3),
        vec![(0, 0), (0, 1), (0, 2), (1, 2), (1, 1), (1, 0)]
    );
    assert_eq!(
        order(&TraversalStrategy::ZigZagVertical, 2, 3),
        vec![(0, 0), (1, 0), (1, 1), (0, 1), (0, 2), (1, 2)]
    );
}

#[test]
fn total_orders_are_permutations() {
    for s in [
        TraversalStrategy::LeftToRight,
        TraversalStrategy::RightToLeft,
        TraversalStrategy::TopToBottom,
        TraversalStrategy::BottomToTop,
        TraversalStrategy::ZigZagHorizontal,
        TraversalStrategy::ZigZagVertical,
    ] {
        let mut v = order(&s, 5, 7);
        assert_eq!(v.len(), 35);
        v.sort();
        let mut all = Vec::new();
        for r in 0..5 {
            for c in 0..7 {
                all.push((r, c));
            }
        }
        assert_eq!(v, all, "{:?}", s);
    }
}

#[test]
fn diagonals_cover_the_shorter_side() {
    assert_eq!(order(&TraversalStrategy::DiagonalRight, 3, 5), vec![(0, 0), (1, 1), (2, 2)]);
    assert_eq!(order(&TraversalStrategy::DiagonalLeft, 3, 5), vec![(0, 4), (1, 3), (2, 2)]);
    assert_eq!(order(&TraversalStrategy::DiagonalLeft, 4, 2), vec![(0, 1), (1, 0)]);
    assert_eq!(coordinate_count(&TraversalStrategy::DiagonalRight, 4, 2), 2);
}

#[test]
fn sinusoid_takes_one_column_per_row() {
    let s = TraversalStrategy::Sinusoidal(vec![2, 4, 2, 0]);
    assert_eq!(order(&s, 4, 4), vec![(0, 2), (1, 3), (2, 2), (3, 0)]);
    assert_eq!(coordinate_count(&s, 6, 4), 4);
    assert_eq!(coordinate_count(&s, 4, 0), 0);
    assert_eq!(coordinate_at(&s, 4, 4, 1), (1, 3));
}

#[test]
fn empty_images_have_no_coordinates() {
    assert_eq!(order(&TraversalStrategy::LeftToRight, 0, 5), vec![]);
    assert_eq!(order(&TraversalStrategy::ZigZagVertical, 5, 0), vec![]);
}

#[test]
fn wave_functions_name_strategies() {
    assert_eq!(
        WaveFunction::Horizontal.traverse(2, 2, Vec::new()),
        vec![(0, 0), (0, 1), (1, 0), (1, 1)]
    );
    assert_eq!(
        WaveFunction::Vertical.traverse(2, 2, Vec::new()),
        vec![(0, 0), (1, 0), (0, 1), (1, 1)]
    );
    assert_eq!(WaveFunction::Sinusoidal.traverse(2, 3, vec![1, 9]), vec![(0, 1), (1, 2)]);
    assert_eq!(WaveFunction::ZigZagHorizontal.traverse(2, 2, Vec::new()), vec![(0, 0), (0, 1), (1, 1), (1, 0)]);
}

#[test]
fn methods_map_to_strategies() {
    assert!(matches!(FileEncodingMethod::LeftToRight.strategy(Vec::new()), Some(TraversalStrategy::LeftToRight)));
    assert!(matches!(FileEncodingMethod::TopToBottom.strategy(Vec::new()), Some(TraversalStrategy::TopToBottom)));
    match FileEncodingMethod::SinWave.strategy(vec![3, 1]) {
        Some(TraversalStrategy::Sinusoidal(c)) => assert_eq!(c, vec![3, 1]),
        other => panic!("{:?}", other),
    }
    assert!(FileEncodingMethod::CosWave.strategy(Vec::new()).is_none());
    assert!(FileEncodingMethod::FractalFunction.strategy(Vec::new()).is_none());
}

#[test]
fn three_channel_pixel_has_no_fourth_channel() {
    let mut p = RgbPixel { blue: 1, green: 2, red: 3 };
    assert_eq!((p.first(), p.second(), p.third(), p.fourth()), (1, 2, 3, 255));
    assert_eq!((p.red(), p.green(), p.blue(), p.alpha()), (3, 2, 1, 255));
    p.set_fourth(7);
    p.set_alpha(7);
    assert_eq!(p, RgbPixel { blue: 1, green: 2, red: 3 });
    p.set_first(10);
    p.set_red(30);
    assert_eq!(p, RgbPixel { blue: 10, green: 2, red: 30 });
    assert_eq!(p.pixel_size(), 3);
}

#[test]
fn four_channel_pixel_positions() {
    let mut p = RgbaPixel { blue: 1, green: 2, red: 3, alpha: 4 };
    assert_eq!((p.first(), p.second(), p.third(), p.fourth()), (1, 2, 3, 4));
    p.set_fourth(40);
    p.set_second(20);
    p.set_blue(11);
    assert_eq!(p, RgbaPixel { blue: 11, green: 20, red: 3, alpha: 40 });
    assert_eq!(p.alpha(), 40);
    assert_eq!(p.pixel_size(), 4);
    let mut bytes = vec![0u8; 6];
    p.write_at(&mut bytes, 1);
    assert_eq!(bytes, vec![0, 11, 20, 3, 40, 0]);
    assert_eq!(RgbaPixel::read_at(&bytes, 1), p);
    assert_eq!(RgbPixel::read_at(&bytes, 2), RgbPixel { blue: 20, green: 3, red: 40 });
}

#[test]
fn pixel_layouts_by_depth() {
    assert_eq!(BmpPixelType::from_bits_per_pixel(24), Some(BmpPixelType::Rgb));
    assert_eq!(BmpPixelType::from_bits_per_pixel(32), Some(BmpPixelType::Rgba));
    assert_eq!(BmpPixelType::from_bits_per_pixel(16), None);
    assert_eq!(BmpPixelType::Rgba.channel_count(), 4);
}

fn invert(p: RgbPixel) -> RgbPixel {
    RgbPixel { blue: 255 - p.blue, green: 255 - p.green, red: 255 - p.red }
}

#[test]
fn transforms_apply_to_pixels() {
    let mut map = vec![RgbPixel { blue: 0, green: 1, red: 2 }; 6];
    transform_pixels(&mut map, invert);
    assert!(map.iter().all(|p| *p == RgbPixel { blue: 255, green: 254, red: 253 }));
    transform_pixel_quadrants(&mut map, invert, (1, 2), 3);
    assert_eq!(map[1], RgbPixel { blue: 255, green: 254, red: 253 });
    assert_eq!(map[2], RgbPixel { blue: 0, green: 1, red: 2 });
    assert_eq!(map[4], RgbPixel { blue: 0, green: 1, red: 2 });
    assert_eq!(map[5], RgbPixel { blue: 255, green: 254, red: 253 });
}

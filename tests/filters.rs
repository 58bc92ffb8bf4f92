use pixel_filters::{
    color_dist, color_dist_lines, down_sample, gaussian_blur, super_safe_sub, Filter, FilterChain,
    FilterError, GaussKernel, Pixel, PixelBuffer,
};

fn px(r: u8, g: u8, b: u8) -> Pixel {
    Pixel { r, g, b }
}

const BLACK: Pixel = Pixel { r: 0, g: 0, b: 0 };
const WHITE: Pixel = Pixel { r: 255, g: 255, b: 255 };

fn gauss_kernel(sigma: f64) -> GaussKernel {
    let radius = (6.0 * sigma).round() as usize;
    let r = radius as i64;
    let mut weights = Vec::new();
    for dy in -r..=r {
        for dx in -r..=r {
            let d2 = (dx * dx + dy * dy) as f64;
            let w = (-d2 / (2.0 * sigma * sigma)).exp() / (2.0 * std::f64::consts::PI * sigma * sigma);
            weights.push((w * 65536.0).round() as u32);
        }
    }
    GaussKernel::new(radius, weights).unwrap()
}

fn buffer_from(width: usize, height: usize, samples: Vec<Pixel>) -> PixelBuffer {
    PixelBuffer::new(width, height, samples).unwrap()
}

#[test]
fn abs_difference_both_orders() {
    assert_eq!(super_safe_sub(3, 10), 7);
    assert_eq!(super_safe_sub(10, 3), 7);
    assert_eq!(super_safe_sub(0, 255), 255);
    assert_eq!(super_safe_sub(42, 42), 0);
}

#[test]
fn distance_exact_values() {
    assert_eq!(color_dist(&px(0, 0, 0), &px(3, 4, 0)), 5);
    assert_eq!(color_dist(&px(0, 0, 0), &px(255, 255, 255)), 441);
    assert_eq!(color_dist(&px(10, 10, 10), &px(11, 10, 10)), 1);
    assert_eq!(color_dist(&px(1, 1, 1), &px(2, 2, 2)), 1);
}

#[test]
fn distance_symmetric_and_zero_on_self() {
    let samples = [px(0, 0, 0), px(255, 0, 17), px(3, 200, 90), px(255, 255, 255), px(128, 64, 32)];
    for a in samples.iter() {
        assert_eq!(color_dist(a, a), 0);
        for b in samples.iter() {
            assert_eq!(color_dist(a, b), color_dist(b, a));
        }
    }
}

#[test]
fn blur_keeps_dimensions() {
    let buf = PixelBuffer::filled(7, 5, px(10, 20, 30));
    let f = gaussian_blur(gauss_kernel(1.0)).unwrap();
    let out = f.apply(&buf);
    assert_eq!(out.width(), 7);
    assert_eq!(out.height(), 5);
    assert_eq!(out.samples.len(), 35);
}

#[test]
fn blur_identity_kernel() {
    let samples = vec![px(1, 2, 3), px(40, 50, 60), px(200, 100, 0), px(255, 255, 255)];
    let buf = buffer_from(2, 2, samples.clone());
    let f = gaussian_blur(GaussKernel::new(0, vec![65536]).unwrap()).unwrap();
    assert_eq!(f.apply(&buf).samples, samples);
}

#[test]
fn blur_rounds_down_and_loses_mass_at_border() {
    let buf = PixelBuffer::filled(3, 3, px(90, 90, 90));
    let f = gaussian_blur(GaussKernel::new(1, vec![7281; 9]).unwrap()).unwrap();
    let out = f.apply(&buf);
    // centre: 9 * 90 * 7281 / 65536 = 89.99..
    assert_eq!(out.get_pixel(1, 1), px(89, 89, 89));
    // corner: 4 cells inside the raster
    assert_eq!(out.get_pixel(0, 0), px(39, 39, 39));
    // edge: 6 cells inside the raster
    assert_eq!(out.get_pixel(1, 0), px(59, 59, 59));
}

#[test]
fn blur_saturates_at_255() {
    let buf = PixelBuffer::filled(3, 3, px(200, 0, 100));
    let f = gaussian_blur(GaussKernel::new(1, vec![65536; 9]).unwrap()).unwrap();
    let out = f.apply(&buf);
    assert_eq!(out.get_pixel(1, 1), px(255, 0, 255));
    assert_eq!(out.get_pixel(0, 0), px(255, 0, 255));
    for p in out.samples.iter() {
        assert!(p.r <= 255 && p.g <= 255 && p.b <= 255);
    }
}

#[test]
fn blur_of_uniform_image_with_real_kernel() {
    let buf = PixelBuffer::filled(20, 20, px(100, 100, 100));
    let out = gaussian_blur(gauss_kernel(1.0)).unwrap().apply(&buf);
    let centre = out.get_pixel(10, 10);
    assert!(centre.r >= 98 && centre.r <= 100);
    let corner = out.get_pixel(0, 0);
    assert!(corner.r < centre.r);
}

#[test]
fn malformed_kernels_rejected() {
    assert_eq!(GaussKernel::new(1, vec![1; 8]).err(), Some(FilterError::Configuration));
    assert_eq!(GaussKernel::new(0, vec![16777217]).err(), Some(FilterError::Configuration));
    assert_eq!(GaussKernel::new(3000, vec![]).err(), Some(FilterError::Configuration));
    let bad = GaussKernel { radius: 2, weights: vec![1; 3] };
    assert_eq!(gaussian_blur(bad).err(), Some(FilterError::Configuration));
}

#[test]
fn edge_output_is_binary() {
    let samples: Vec<Pixel> = (0..16u8).map(|i| px(i * 13, 255 - i * 7, i * i)).collect();
    let buf = buffer_from(4, 4, samples);
    for t in [0u32, 5, 20, 100, 500] {
        let out = color_dist_lines(t).apply(&buf);
        assert_eq!(out.width(), 4);
        assert_eq!(out.height(), 4);
        for p in out.samples.iter() {
            assert!(*p == BLACK || *p == WHITE);
        }
    }
}

#[test]
fn edge_threshold_zero_flags_differing_neighbour() {
    let mut samples = vec![px(50, 50, 50); 9];
    samples[0] = px(51, 50, 50);
    let buf = buffer_from(3, 3, samples);
    let out = color_dist_lines(0).apply(&buf);
    assert_eq!(out.get_pixel(0, 0), BLACK);
    assert_eq!(out.get_pixel(1, 0), BLACK);
    assert_eq!(out.get_pixel(0, 1), BLACK);
    assert_eq!(out.get_pixel(1, 1), BLACK);
    assert_eq!(out.get_pixel(2, 2), WHITE);
    assert_eq!(out.get_pixel(2, 0), WHITE);
}

#[test]
fn edge_uniform_image_is_white() {
    let buf = PixelBuffer::filled(5, 4, px(7, 8, 9));
    let out = color_dist_lines(0).apply(&buf);
    assert!(out.samples.iter().all(|p| *p == WHITE));
}

#[test]
fn edge_tie_stays_white() {
    let buf = buffer_from(2, 1, vec![px(0, 0, 0), px(3, 4, 0)]);
    let at_tie = color_dist_lines(5).apply(&buf);
    assert_eq!(at_tie.samples, vec![WHITE, WHITE]);
    let below = color_dist_lines(4).apply(&buf);
    assert_eq!(below.samples, vec![BLACK, BLACK]);
}

#[test]
fn edge_single_bright_centre() {
    let mut samples = vec![BLACK; 9];
    samples[4] = WHITE;
    let buf = buffer_from(3, 3, samples);
    let out = color_dist_lines(10).apply(&buf);
    assert_eq!(out.width(), 3);
    assert_eq!(out.height(), 3);
    for y in 0..3 {
        for x in 0..3 {
            assert_eq!(out.get_pixel(x, y), BLACK);
        }
    }
    assert_eq!(out.samples.len(), 9);
}

#[test]
fn edge_far_pixels_unaffected() {
    let mut samples = vec![BLACK; 25];
    samples[0] = WHITE;
    let buf = buffer_from(5, 5, samples);
    let out = color_dist_lines(10).apply(&buf);
    assert_eq!(out.get_pixel(0, 0), BLACK);
    assert_eq!(out.get_pixel(1, 1), BLACK);
    assert_eq!(out.get_pixel(2, 2), WHITE);
    assert_eq!(out.get_pixel(4, 4), WHITE);
    assert_eq!(out.get_pixel(2, 0), WHITE);
}

#[test]
fn downsample_dimensions_floor() {
    let buf = PixelBuffer::filled(5, 7, px(1, 2, 3));
    let out = down_sample(2, 3).unwrap().apply(&buf);
    assert_eq!(out.width(), 1);
    assert_eq!(out.height(), 3);
    assert_eq!(out.samples.len(), 3);
    let empty = down_sample(8, 8).unwrap().apply(&buf);
    assert_eq!(empty.width(), 0);
    assert_eq!(empty.height(), 0);
    assert!(empty.samples.is_empty());
}

#[test]
fn downsample_uniform_any_scale() {
    let buf = PixelBuffer::filled(7, 6, px(17, 201, 99));
    for (hs, ws) in [(1u32, 1u32), (2, 3), (3, 2), (6, 7), (1, 7)] {
        let out = down_sample(hs, ws).unwrap().apply(&buf);
        assert_eq!(out.width(), 7 / ws as usize);
        assert_eq!(out.height(), 6 / hs as usize);
        assert!(out.samples.iter().all(|p| *p == px(17, 201, 99)));
    }
}

#[test]
fn downsample_four_by_four_hundred() {
    let buf = PixelBuffer::filled(4, 4, px(100, 100, 100));
    let out = down_sample(2, 2).unwrap().apply(&buf);
    assert_eq!(out.width(), 2);
    assert_eq!(out.height(), 2);
    assert_eq!(out.samples, vec![px(100, 100, 100); 4]);
}

#[test]
fn downsample_true_area_mean() {
    let buf = buffer_from(2, 2, vec![px(0, 1, 255), px(10, 2, 255), px(20, 2, 254), px(30, 2, 254)]);
    let out = down_sample(2, 2).unwrap().apply(&buf);
    // red: 60 / 4 = 15; green: 7 / 4 rounds down to 1; blue: 1018 / 4 = 254.5 -> 254
    assert_eq!(out.samples, vec![px(15, 1, 254)]);
}

#[test]
fn downsample_drops_trailing_edge() {
    let buf = buffer_from(3, 1, vec![px(10, 10, 10), px(20, 20, 20), px(250, 250, 250)]);
    let out = down_sample(1, 2).unwrap().apply(&buf);
    assert_eq!(out.samples, vec![px(15, 15, 15)]);
}

#[test]
fn zero_scale_rejected() {
    assert_eq!(down_sample(0, 2).err(), Some(FilterError::Configuration));
    assert_eq!(down_sample(2, 0).err(), Some(FilterError::Configuration));
    assert!(down_sample(1, 1).is_ok());
}

#[test]
fn chain_blur_then_halve() {
    for (w, h) in [(6usize, 4usize), (5, 3), (8, 9)] {
        let filters = vec![gaussian_blur(gauss_kernel(1.0)).unwrap(), down_sample(2, 2).unwrap()];
        let chain = FilterChain::new(filters).unwrap();
        let out = chain.apply(PixelBuffer::filled(w, h, px(80, 90, 100)));
        assert_eq!(out.width(), w / 2);
        assert_eq!(out.height(), h / 2);
        assert_eq!(out.samples.len(), (w / 2) * (h / 2));
    }
}

#[test]
fn chain_runs_in_order() {
    let buf = PixelBuffer::filled(4, 4, px(100, 100, 100));
    let chain = FilterChain::new(vec![down_sample(2, 2).unwrap(), color_dist_lines(0)]).unwrap();
    let out = chain.apply(buf);
    assert_eq!(out.samples, vec![WHITE; 4]);
    let empty = FilterChain::new(vec![]).unwrap();
    let same = empty.apply(PixelBuffer::filled(2, 1, px(1, 2, 3)));
    assert_eq!(same.samples, vec![px(1, 2, 3); 2]);
}

#[test]
fn chain_rejects_misconfigured_filter() {
    let chain = FilterChain::new(vec![color_dist_lines(3), Filter::BoxDownsample(0, 1)]);
    assert_eq!(chain.err(), Some(FilterError::Configuration));
}

#[test]
fn buffer_dimension_mismatch() {
    assert_eq!(PixelBuffer::new(2, 2, vec![BLACK; 3]).err(), Some(FilterError::Dimension));
    assert!(PixelBuffer::new(2, 2, vec![BLACK; 4]).is_ok());
    assert_eq!(PixelBuffer::from_raw(2, 1, &vec![0u8; 5]).err(), Some(FilterError::Dimension));
    assert_eq!(PixelBuffer::from_raw(2, 1, &vec![0u8; 9]).err(), Some(FilterError::Dimension));
}

#[test]
fn raw_bytes_round_trip() {
    let bytes: Vec<u8> = vec![1, 2, 3, 4, 5, 6, 7, 8, 9, 10, 11, 12];
    let buf = PixelBuffer::from_raw(2, 2, &bytes).unwrap();
    assert_eq!(buf.get_pixel(1, 0), px(4, 5, 6));
    assert_eq!(buf.get_pixel(0, 1), px(7, 8, 9));
    assert_eq!(buf.to_raw(), bytes);
}

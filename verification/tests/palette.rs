use chalkboard::palette::{
    generate_variants, pixel_size, recolor, recolor_pixel, PaletteError, PixelFormat, Texture,
    PALETTE_SIZE,
};

#[test]
fn white_takes_each_hue_at_full_strength() {
    let expected: [(u8, u8, u8); 12] = [
        (255, 0, 0),
        (255, 127, 0),
        (255, 255, 0),
        (127, 255, 0),
        (0, 255, 0),
        (0, 255, 127),
        (0, 255, 255),
        (0, 127, 255),
        (0, 0, 255),
        (127, 0, 255),
        (255, 0, 255),
        (255, 0, 127),
    ];
    for (step, px) in expected.iter().enumerate() {
        assert_eq!(recolor_pixel(255, 255, 255, step), *px);
    }
}

#[test]
fn black_stays_black() {
    for step in 0..12 {
        assert_eq!(recolor_pixel(0, 0, 0, step), (0, 0, 0));
    }
}

#[test]
fn dark_pixels_keep_their_lightness() {
    assert_eq!(recolor_pixel(100, 50, 20, 0), (120, 0, 0));
    assert_eq!(recolor_pixel(100, 50, 20, 4), (0, 120, 0));
    assert_eq!(recolor_pixel(100, 50, 20, 5), (0, 120, 60));
    assert_eq!(recolor_pixel(10, 20, 30, 8), (0, 0, 40));
}

#[test]
fn light_pixels_are_halved() {
    assert_eq!(recolor_pixel(200, 100, 100, 0), (150, 0, 0));
    assert_eq!(recolor_pixel(200, 100, 100, 9), (75, 0, 150));
    assert_eq!(recolor_pixel(255, 1, 1, 2), (128, 128, 0));
}

#[test]
fn lightness_of_exactly_one_half_is_kept() {
    assert_eq!(recolor_pixel(255, 0, 0, 0), (255, 0, 0));
    assert_eq!(recolor_pixel(255, 0, 0, 8), (0, 0, 255));
    assert_eq!(recolor_pixel(128, 127, 127, 4), (0, 255, 0));
}

#[test]
fn hue_step_wraps_round_the_circle() {
    assert_eq!(recolor_pixel(90, 60, 30, 12), recolor_pixel(90, 60, 30, 0));
    assert_eq!(recolor_pixel(90, 60, 30, 25), recolor_pixel(90, 60, 30, 1));
}

#[test]
fn recolor_keeps_alpha_and_length() {
    let data = vec![255, 255, 255, 7, 0, 0, 0, 200, 100, 50, 20, 0];
    let out = recolor(&data, 1);
    assert_eq!(out, vec![255, 127, 0, 7, 0, 0, 0, 200, 120, 60, 0, 0]);
}

#[test]
fn recolor_leaves_a_broken_last_pixel() {
    let data = vec![10, 20, 30, 40, 9, 8, 7];
    assert_eq!(recolor(&data, 8), vec![0, 0, 40, 40, 9, 8, 7]);
    assert_eq!(recolor(&vec![1, 2], 3), vec![1, 2]);
    assert_eq!(recolor(&Vec::new(), 3), Vec::<u8>::new());
}

#[test]
fn recolor_is_the_same_every_time() {
    let data: Vec<u8> = (0..=255).collect();
    assert_eq!(recolor(&data, 7), recolor(&data, 7));
}

#[test]
fn recolored_pixels_have_no_weakest_channel() {
    let data: Vec<u8> = (0..=255).rev().collect();
    for step in 0..12 {
        let out = recolor(&data, step);
        for px in out.chunks(4) {
            assert_eq!(*px[..3].iter().min().unwrap(), 0);
        }
    }
}

#[test]
fn pixel_size_of_each_format() {
    assert_eq!(pixel_size(PixelFormat::Rgba8), Ok(4));
    assert_eq!(pixel_size(PixelFormat::Other), Err(PaletteError::UnsupportedFormat));
}

#[test]
fn twelve_variants_in_hue_order() {
    let source = Texture { format: PixelFormat::Rgba8, data: vec![255, 255, 255, 255, 40, 40, 40, 9] };
    let variants = generate_variants(&source).unwrap();
    assert_eq!(variants.len(), PALETTE_SIZE);
    assert_eq!(PALETTE_SIZE, 12);
    for (step, variant) in variants.iter().enumerate() {
        assert_eq!(variant.format, PixelFormat::Rgba8);
        assert_eq!(variant.data, recolor(&source.data, step));
        assert_eq!(variant.data[3], 255);
        assert_eq!(variant.data[7], 9);
    }
    assert_eq!(variants[0].data, vec![255, 0, 0, 255, 80, 0, 0, 9]);
    assert_eq!(variants[6].data, vec![0, 255, 255, 255, 0, 80, 80, 9]);
}

#[test]
fn unsupported_format_is_refused() {
    let source = Texture { format: PixelFormat::Other, data: vec![1, 2, 3, 4] };
    assert_eq!(generate_variants(&source).err(), Some(PaletteError::UnsupportedFormat));
}

fn hue_in_degrees(r: u8, g: u8, b: u8) -> Option<f64> {
    let (r, g, b) = (r as f64, g as f64, b as f64);
    let hi = r.max(g).max(b);
    let lo = r.min(g).min(b);
    if hi == lo {
        return None;
    }
    let c = hi - lo;
    let sixth = if hi == r {
        ((g - b) / c).rem_euclid(6.0)
    } else if hi == g {
        (b - r) / c + 2.0
    } else {
        (r - g) / c + 4.0
    };
    Some(60.0 * sixth)
}

fn is_fully_saturated(r: u8, g: u8, b: u8) -> bool {
    let hi = r.max(g).max(b) as i32;
    let lo = r.min(g).min(b) as i32;
    let room = if hi + lo <= 255 { hi + lo } else { 510 - (hi + lo) };
    hi > lo && hi - lo == room
}

#[test]
fn even_hue_steps_are_exact() {
    for step in (0..12).step_by(2) {
        for (r, g, b) in [(255u8, 255u8, 255u8), (1, 0, 0), (13, 200, 77), (90, 90, 90)] {
            let px = recolor_pixel(r, g, b, step);
            assert_eq!(hue_in_degrees(px.0, px.1, px.2), Some(30.0 * step as f64));
            assert!(is_fully_saturated(px.0, px.1, px.2));
        }
    }
}

#[test]
fn odd_hue_steps_are_exact_where_the_half_is_whole() {
    for step in (1..12).step_by(2) {
        for (r, g, b) in [(2u8, 0u8, 0u8), (100, 50, 20), (254, 254, 254), (8, 8, 8)] {
            let px = recolor_pixel(r, g, b, step);
            assert_eq!(hue_in_degrees(px.0, px.1, px.2), Some(30.0 * step as f64));
            assert!(is_fully_saturated(px.0, px.1, px.2));
        }
    }
}

#[test]
fn odd_hue_steps_are_close_everywhere_else() {
    for step in (1..12).step_by(2) {
        let px = recolor_pixel(255, 255, 255, step);
        let hue = hue_in_degrees(px.0, px.1, px.2).unwrap();
        assert!((hue - 30.0 * step as f64).abs() < 0.2);
        assert!(is_fully_saturated(px.0, px.1, px.2));
    }
}

#[test]
fn black_has_neither_hue_nor_saturation() {
    let px = recolor_pixel(0, 0, 0, 5);
    assert_eq!(hue_in_degrees(px.0, px.1, px.2), None);
    assert!(!is_fully_saturated(px.0, px.1, px.2));
}

//! Tests of the manual workflow: source normalization, the flattened
//! palette, and export rendering.

use nesimg::color::{perceptual_to_rgb, rgb_to_perceptual, PColor, Rgb8};
use nesimg::nespal::NesPalette;
use nesimg::project::{normalize_grayscale, render_export, ImagePalletData, SourceError};

fn rgb(r: u8, g: u8, b: u8) -> Rgb8 {
    Rgb8 { r, g, b }
}

/// A 16x16 image of exactly 4 colors, one per quadrant.
fn four_color_image() -> Vec<Rgb8> {
    let quads = [rgb(250, 250, 250), rgb(10, 10, 10), rgb(200, 50, 50), rgb(50, 80, 200)];
    let mut pixels = Vec::new();
    for y in 0..16 {
        for x in 0..16 {
            let q = (y / 8) * 2 + x / 8;
            pixels.push(quads[q]);
        }
    }
    pixels
}

#[test]
fn normalize_orders_by_brightness() {
    let pixels = four_color_image();
    let (ids, palette) = normalize_grayscale(&pixels, 16, 16).expect("normalize");
    assert_eq!(palette.len(), 4);
    // Darkest first.
    assert_eq!(palette[0], rgb(10, 10, 10));
    assert_eq!(palette[3], rgb(250, 250, 250));
    let sums: Vec<u32> =
        palette.iter().map(|c| c.r as u32 + c.g as u32 + c.b as u32).collect();
    for j in 1..4 {
        assert!(sums[j - 1] <= sums[j]);
    }
    assert_eq!(ids.len(), pixels.len());
    for (i, &id) in ids.iter().enumerate() {
        assert!(id < 4);
        assert_eq!(pixels[i], palette[id as usize]);
    }
}

#[test]
fn normalize_rejects_unaligned_and_wrong_counts() {
    let pixels = vec![rgb(0, 0, 0); 8 * 16];
    assert_eq!(normalize_grayscale(&pixels, 8, 16), Err(SourceError::BadDimensions));
    // Aligned but only one distinct color.
    let pixels = vec![rgb(0, 0, 0); 16 * 16];
    assert_eq!(normalize_grayscale(&pixels, 16, 16), Err(SourceError::WrongColorCount));
    // Five distinct colors.
    let mut pixels = four_color_image();
    pixels[0] = rgb(1, 2, 3);
    assert_eq!(normalize_grayscale(&pixels, 16, 16), Err(SourceError::WrongColorCount));
}

#[test]
fn render_export_resolves_through_sub_pallets() {
    // One 16x16 tile, all four grayscale indices present.
    let mut ids = vec![0u8; 16 * 16];
    for (i, id) in ids.iter_mut().enumerate() {
        *id = (i % 4) as u8;
    }
    let pallet = ImagePalletData {
        colors: [0x0F, 0x01, 0x02, 0x03, 0x11, 0x12, 0x13, 0x21, 0x22, 0x23, 0x31, 0x32, 0x33],
        tile_pallets: vec![2],
    };
    let out = render_export(&ids, &pallet, 16, 16);
    assert_eq!(out.len(), 256);
    let pal = NesPalette::new();
    // Sub-pallet 2 holds entries [colors[0], colors[7], colors[8], colors[9]].
    let expect = [0x0F, 0x21, 0x22, 0x23];
    for (i, px) in out.iter().enumerate() {
        assert_eq!(*px, pal.rgb[expect[i % 4]]);
    }
}

#[test]
fn perceptual_conversion_exact_values() {
    // Pinned values of the fixed-point conversion.
    assert_eq!(rgb_to_perceptual(rgb(255, 0, 0)), PColor { l: 5321, a: 8008, b: 6724 });
    assert_eq!(rgb_to_perceptual(rgb(128, 128, 128)), PColor { l: 5726, a: 0, b: 0 });
    assert_eq!(rgb_to_perceptual(rgb(255, 255, 255)), PColor { l: 10000, a: 0, b: 0 });
    assert_eq!(rgb_to_perceptual(rgb(0, 0, 0)), PColor { l: -3, a: 0, b: 0 });
}

#[test]
fn perceptual_round_trip_is_close() {
    // The conversion back is not exact, but stays close for displayable
    // colors.
    let samples = [
        rgb(0, 0, 0),
        rgb(255, 255, 255),
        rgb(200, 40, 40),
        rgb(12, 200, 111),
        rgb(90, 90, 90),
        rgb(30, 60, 250),
        rgb(255, 156, 18),
    ];
    for c in samples {
        let back = perceptual_to_rgb(rgb_to_perceptual(c));
        assert!((c.r as i32 - back.r as i32).abs() <= 12);
        assert!((c.g as i32 - back.g as i32).abs() <= 12);
        assert!((c.b as i32 - back.b as i32).abs() <= 12);
    }
}

use textblit::Color;
use textblit::color::shade_channel;
use textblit::glyph::{fill_pixels, GlyphRaster};

#[test]
fn shade_full_coverage_keeps_channel() {
    assert_eq!(shade_channel(255, 255), 255);
    assert_eq!(shade_channel(200, 255), 200);
    assert_eq!(shade_channel(1, 255), 1);
}

#[test]
fn shade_zero_coverage_blanks_channel() {
    assert_eq!(shade_channel(255, 0), 0);
    assert_eq!(shade_channel(37, 0), 0);
}

#[test]
fn shade_half_coverage_truncates_toward_zero() {
    // A coverage of one half quantizes to the sample 127; 255 * 127 / 255
    // truncates to 127, and 10 * 127 / 255 = 4.98 truncates to 4.
    assert_eq!(shade_channel(255, 127), 127);
    assert_eq!(shade_channel(10, 127), 4);
    assert_eq!(shade_channel(128, 128), 64);
}

#[test]
fn alpha_is_opaque_at_every_drawn_pixel() {
    let mask: Vec<u8> = vec![0, 127, 255];
    let white = Color::new(255, 255, 255);
    let pixels = fill_pixels(white, &mask);
    assert_eq!(
        pixels,
        vec![0, 0, 0, 255, 127, 127, 127, 255, 255, 255, 255, 255]
    );
}

#[test]
fn fill_pixels_scales_each_channel() {
    let mask: Vec<u8> = vec![255, 51];
    let c = Color::new(100, 200, 10);
    let pixels = fill_pixels(c, &mask);
    // 100*51/255 = 20, 200*51/255 = 40, 10*51/255 = 2.
    assert_eq!(pixels, vec![100, 200, 10, 255, 20, 40, 2, 255]);
}

#[test]
fn fill_pixels_empty_mask_is_empty() {
    let mask: Vec<u8> = Vec::new();
    let pixels = fill_pixels(Color::new(1, 2, 3), &mask);
    assert!(pixels.is_empty());
}

#[test]
fn glyph_raster_new_accepts_exact_mask() {
    let g = GlyphRaster::new(2, 3, 7, vec![9; 6]);
    let g = g.expect("a 2x3 mask of six samples is well-formed");
    assert_eq!(g.width, 2);
    assert_eq!(g.height, 3);
    assert_eq!(g.advance, 7);
    assert_eq!(g.coverage, vec![9; 6]);
}

#[test]
fn glyph_raster_new_rejects_short_mask() {
    assert!(GlyphRaster::new(2, 3, 7, vec![9; 5]).is_none());
    assert!(GlyphRaster::new(2, 3, 7, vec![9; 7]).is_none());
}

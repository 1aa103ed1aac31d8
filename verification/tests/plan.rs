use textblit::Color;
use textblit::glyph::GlyphRaster;
use textblit::layout::{plan_glyphs, plan_line};

fn ink_glyph(width: u32, height: u32, advance: i32) -> GlyphRaster {
    let mask = vec![255u8; (width as usize) * (height as usize)];
    GlyphRaster::new(width, height, advance, mask).expect("mask sized to the box")
}

fn blank_glyph(advance: i32) -> GlyphRaster {
    GlyphRaster::new(0, 0, advance, Vec::new()).expect("an empty mask fits a zero box")
}

#[test]
fn empty_line_plans_no_draws() {
    let glyphs: Vec<GlyphRaster> = Vec::new();
    let ops = plan_line(&glyphs, 100, 100, 29, Color::new(255, 255, 255));
    assert!(ops.is_empty());
}

#[test]
fn spaces_only_plan_no_draws() {
    let glyphs = vec![blank_glyph(9), blank_glyph(9), blank_glyph(9)];
    let ops = plan_line(&glyphs, 0, 0, 29, Color::new(255, 255, 255));
    assert!(ops.is_empty());
}

#[test]
fn spaces_still_advance_the_cursor() {
    let glyphs = vec![blank_glyph(7), blank_glyph(7), ink_glyph(1, 1, 5)];
    let ops = plan_line(&glyphs, 10, 0, 1, Color::new(255, 255, 255));
    assert_eq!(ops.len(), 1);
    assert_eq!(ops[0].x, 10 + 7 + 7);
}

#[test]
fn draw_count_equals_glyphs_with_positive_box() {
    let glyphs = vec![
        ink_glyph(3, 4, 5),
        blank_glyph(5),
        ink_glyph(2, 2, 5),
        GlyphRaster::new(6, 0, 5, Vec::new()).unwrap(),
        GlyphRaster::new(0, 6, 5, Vec::new()).unwrap(),
        ink_glyph(1, 7, 5),
    ];
    let ops = plan_glyphs(&glyphs, 0, 0, Color::new(1, 2, 3));
    assert_eq!(ops.len(), 3);
}

#[test]
fn cursor_positions_are_prefix_sums_of_advances() {
    let glyphs = vec![ink_glyph(4, 4, 5), ink_glyph(4, 4, 7), ink_glyph(4, 4, 11)];
    let ops = plan_line(&glyphs, 100, 0, 4, Color::new(255, 255, 255));
    assert_eq!(ops.len(), 3);
    assert_eq!(ops[0].x, 100);
    assert_eq!(ops[1].x, 105);
    assert_eq!(ops[2].x, 112);
}

#[test]
fn glyphs_sit_bottom_aligned_to_the_baseline() {
    let glyphs = vec![ink_glyph(5, 23, 6)];
    let ops = plan_line(&glyphs, 0, 10, 30, Color::new(255, 255, 255));
    assert_eq!(ops.len(), 1);
    // Baseline 10 + 30; the 23-pixel-tall image starts at 40 - 23.
    assert_eq!(ops[0].y, 17);
    assert_eq!(ops[0].width, 5);
    assert_eq!(ops[0].height, 23);
}

#[test]
fn plan_line_is_plan_glyphs_at_the_shifted_baseline() {
    let glyphs = vec![ink_glyph(2, 3, 4), blank_glyph(4), ink_glyph(3, 2, 4)];
    let a = plan_line(&glyphs, 20, 30, 11, Color::new(9, 8, 7));
    let b = plan_glyphs(&glyphs, 20, 41, Color::new(9, 8, 7));
    assert_eq!(a, b);
}

#[test]
fn identical_runs_give_identical_plans() {
    let make = || {
        vec![
            ink_glyph(8, 9, 10),
            blank_glyph(4),
            ink_glyph(2, 12, 3),
        ]
    };
    let first = plan_line(&make(), 5, 6, 20, Color::new(200, 100, 50));
    let second = plan_line(&make(), 5, 6, 20, Color::new(200, 100, 50));
    assert_eq!(first, second);
}

#[test]
fn negative_advances_move_the_cursor_back() {
    let glyphs = vec![ink_glyph(1, 1, -3), ink_glyph(1, 1, 2)];
    let ops = plan_glyphs(&glyphs, 0, 0, Color::new(255, 255, 255));
    assert_eq!(ops.len(), 2);
    assert_eq!(ops[0].x, 0);
    assert_eq!(ops[1].x, -3);
}

#[test]
fn two_letter_line() {
    // A stand-in for the two letters of a short greeting at a 32-pixel
    // scale: a tall wide glyph, then a narrow one.
    let h = ink_glyph(20, 23, 21);
    let i = ink_glyph(4, 23, 8);
    let ops = plan_line(&vec![h, i], 0, 0, 29, Color::new(255, 255, 255));
    assert_eq!(ops.len(), 2);
    assert_eq!(ops[0].x, 0);
    // The second glyph starts exactly one advance width after the first.
    assert_eq!(ops[1].x, 21);
    assert_eq!(ops[0].y, 29 - 23);
    assert_eq!(ops[1].y, 29 - 23);
    // Fully covered white pixels stay white and opaque.
    assert_eq!(&ops[0].pixels[0..4], &[255, 255, 255, 255]);
    assert_eq!(ops[0].pixels.len(), 4 * 20 * 23);
    assert_eq!(ops[1].pixels.len(), 4 * 4 * 23);
}

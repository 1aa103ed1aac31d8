use vstd::prelude::*;

verus! {

/// An opaque RGB color. Alpha is not part of the color: drawn pixels are
/// always written fully opaque, whatever the glyph coverage was.
#[derive(Clone, Copy, PartialEq, Eq, Structural, Debug)]
pub struct Color {
    pub r: u8,
    pub g: u8,
    pub b: u8,
}

/// A color channel scaled by a coverage value: `floor(channel * cov / 255)`,
/// where `cov` is an 8-bit coverage sample (0 = blank, 255 = fully covered).
pub open spec fn shade(channel: u8, cov: u8) -> u8 {
    ((channel * cov) / 255) as u8
}

impl Color {
    pub fn new(r: u8, g: u8, b: u8) -> (c: Color)
        ensures
            c == (Color { r, g, b }),
    {
        Color { r, g, b }
    }
}

/// Scale one color channel by an 8-bit coverage sample, truncating toward
/// zero, as `shade` states.
pub fn shade_channel(channel: u8, cov: u8) -> (r: u8)
    ensures
        r == shade(channel, cov),
{
    proof {
        assert((channel as u32) * (cov as u32) <= 255 * 255) by (nonlinear_arith)
            requires
                channel <= 255,
                cov <= 255,
        ;
    }
    (((channel as u32) * (cov as u32)) / 255) as u8
}

} // verus!

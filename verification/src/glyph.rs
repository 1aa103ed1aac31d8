use vstd::prelude::*;
use crate::color::{Color, shade};

verus! {

/// One rasterized glyph: its pixel bounding box dimensions, its horizontal
/// advance width, and its coverage mask.
///
/// The mask holds one 8-bit coverage sample per pixel of the bounding box,
/// in row-major order (0 = blank, 255 = fully covered). A glyph with no
/// visible outline (whitespace, empty outline) has zero width or height and
/// an empty mask, but still carries the advance width that moves the cursor.
#[derive(PartialEq, Eq, Debug)]
pub struct GlyphRaster {
    pub width: u32,
    pub height: u32,
    pub advance: i32,
    pub coverage: Vec<u8>,
}

/// The mathematical image of a `GlyphRaster`.
pub ghost struct GlyphModel {
    pub width: int,
    pub height: int,
    pub advance: int,
    pub coverage: Seq<u8>,
}

impl GlyphModel {
    /// The mask holds exactly one sample per bounding-box pixel.
    pub open spec fn wf(self) -> bool {
        self.coverage.len() == self.width * self.height
    }
}

impl View for GlyphRaster {
    type V = GlyphModel;

    open spec fn view(&self) -> GlyphModel {
        GlyphModel {
            width: self.width as int,
            height: self.height as int,
            advance: self.advance as int,
            coverage: self.coverage@,
        }
    }
}

impl GlyphRaster {
    /// The mask covers the bounding box exactly: one sample per pixel.
    pub open spec fn wf(self) -> bool {
        self.coverage@.len() == self.width as int * self.height as int
    }

    /// Build a well-formed glyph raster, or `None` when the mask does not
    /// hold exactly one sample per bounding-box pixel.
    pub fn new(width: u32, height: u32, advance: i32, coverage: Vec<u8>) -> (r: Option<GlyphRaster>)
        ensures
            r is Some <==> coverage@.len() == width as int * height as int,
            r is Some ==> {
                let g = r.unwrap();
                &&& g == (GlyphRaster { width, height, advance, coverage })
                &&& g.wf()
            },
    {
        proof {
            assert((width as int) * (height as int) <= 0xffff_ffff * 0xffff_ffff)
                by (nonlinear_arith)
                requires
                    width <= 0xffff_ffffu32,
                    height <= 0xffff_ffffu32,
            ;
        }
        let expected: u64 = (width as u64) * (height as u64);
        if (coverage.len() as u64) == expected {
            Some(GlyphRaster { width, height, advance, coverage })
        } else {
            None
        }
    }
}

/// Whether a glyph has anything to draw: a bounding box of strictly
/// positive width and height. Glyphs without ink are never composited;
/// they only advance the cursor.
pub open spec fn ink(g: GlyphModel) -> bool {
    g.width > 0 && g.height > 0
}

/// The four RGBA bytes of one drawn pixel: each color channel scaled by
/// the coverage sample, and alpha fixed at 255 whatever the coverage.
pub open spec fn pixel_rgba(c: Color, cov: u8) -> Seq<u8> {
    seq![shade(c.r, cov), shade(c.g, cov), shade(c.b, cov), 255u8]
}

/// The interleaved 4-byte-per-pixel RGBA image of a coverage mask under a
/// color, pixel by pixel in mask order.
pub open spec fn image_bytes(c: Color, mask: Seq<u8>) -> Seq<u8>
    decreases mask.len(),
{
    if mask.len() == 0 {
        Seq::empty()
    } else {
        image_bytes(c, mask.drop_last()) + pixel_rgba(c, mask.last())
    }
}

/// An RGBA image holds exactly four bytes per coverage sample.
pub proof fn lemma_image_len(c: Color, mask: Seq<u8>)
    ensures
        image_bytes(c, mask).len() == 4 * mask.len(),
    decreases mask.len(),
{
    if mask.len() > 0 {
        lemma_image_len(c, mask.drop_last());
    }
}

/// At every drawn pixel the alpha byte is 255 regardless of the coverage
/// sample, and each RGB byte equals the color channel times the coverage,
/// truncated toward zero: pixel `k` of the image is `pixel_rgba(c, mask[k])`.
pub proof fn lemma_image_pixel(c: Color, mask: Seq<u8>, k: int)
    requires
        0 <= k < mask.len(),
    ensures
        image_bytes(c, mask).len() == 4 * mask.len(),
        image_bytes(c, mask)[4 * k] == shade(c.r, mask[k]),
        image_bytes(c, mask)[4 * k + 1] == shade(c.g, mask[k]),
        image_bytes(c, mask)[4 * k + 2] == shade(c.b, mask[k]),
        image_bytes(c, mask)[4 * k + 3] == 255u8,
    decreases mask.len(),
{
    lemma_image_len(c, mask);
    lemma_image_len(c, mask.drop_last());
    if k < mask.len() - 1 {
        lemma_image_pixel(c, mask.drop_last(), k);
    }
}

/// Render a coverage mask into an interleaved RGBA pixel buffer under the
/// given color, as `image_bytes` states: four bytes per sample, RGB scaled
/// by coverage, alpha fixed at 255.
pub fn fill_pixels(c: Color, mask: &Vec<u8>) -> (pixels: Vec<u8>)
    ensures
        pixels@ == image_bytes(c, mask@),
{
    let mut pixels: Vec<u8> = Vec::new();
    let mut i: usize = 0;
    while i < mask.len()
        invariant
            i <= mask@.len(),
            pixels@ == image_bytes(c, mask@.take(i as int)),
        decreases mask@.len() - i,
    {
        let cov = mask[i];
        pixels.push(crate::color::shade_channel(c.r, cov));
        pixels.push(crate::color::shade_channel(c.g, cov));
        pixels.push(crate::color::shade_channel(c.b, cov));
        pixels.push(255u8);
        proof {
            let taken = mask@.take(i + 1);
            assert(taken.drop_last() =~= mask@.take(i as int));
            assert(taken.last() == mask@[i as int]);
            assert(pixels@ =~= image_bytes(c, taken.drop_last()) + pixel_rgba(c, taken.last()));
        }
        i = i + 1;
    }
    proof {
        assert(mask@.take(i as int) =~= mask@);
    }
    pixels
}

} // verus!

use vstd::prelude::*;
use crate::color::Color;
use crate::glyph::{GlyphRaster, GlyphModel, ink, image_bytes, fill_pixels};

verus! {

/// One blit operation: copy a `width` x `height` RGBA image to the target
/// surface with its top-left corner at `(x, y)`.
///
/// `pixels` is the glyph image in interleaved 4-byte-per-pixel RGBA layout,
/// row-major. `y` is the baseline minus the glyph height, so the image sits
/// bottom-aligned to the glyph's pixel bounding box.
#[derive(PartialEq, Eq, Debug)]
pub struct DrawOp {
    pub x: i64,
    pub y: i64,
    pub width: u32,
    pub height: u32,
    pub pixels: Vec<u8>,
}

/// The mathematical image of a `DrawOp`.
pub ghost struct OpModel {
    pub x: int,
    pub y: int,
    pub width: int,
    pub height: int,
    pub pixels: Seq<u8>,
}

impl View for DrawOp {
    type V = OpModel;

    open spec fn view(&self) -> OpModel {
        OpModel {
            x: self.x as int,
            y: self.y as int,
            width: self.width as int,
            height: self.height as int,
            pixels: self.pixels@,
        }
    }
}

/// The models of a sequence of draw operations.
pub open spec fn ops_view(ops: Seq<DrawOp>) -> Seq<OpModel> {
    ops.map_values(|op: DrawOp| op@)
}

/// The models of a sequence of rasterized glyphs.
pub open spec fn glyph_views(gs: Seq<GlyphRaster>) -> Seq<GlyphModel> {
    gs.map_values(|g: GlyphRaster| g@)
}

/// The sum of the advance widths of the first `n` glyphs: how far the
/// cursor has moved from the origin when glyph `n` is placed.
pub open spec fn advance_sum(gs: Seq<GlyphModel>, n: int) -> int
    decreases n,
{
    if n <= 0 {
        0
    } else {
        advance_sum(gs, n - 1) + gs[n - 1].advance
    }
}

/// How many of the glyphs carry ink, i.e. will be composited.
pub open spec fn count_ink(gs: Seq<GlyphModel>) -> int
    decreases gs.len(),
{
    if gs.len() == 0 {
        0
    } else {
        (if ink(gs[0]) { 1int } else { 0int }) + count_ink(gs.drop_first())
    }
}

/// The blit operation for one glyph placed with its left edge at `x` on the
/// line whose baseline is `baseline`: bottom-aligned to the bounding box,
/// with the glyph's coverage mask rendered under color `c`.
pub open spec fn op_of(g: GlyphModel, x: int, baseline: int, c: Color) -> OpModel {
    OpModel {
        x: x,
        y: baseline - g.height,
        width: g.width,
        height: g.height,
        pixels: image_bytes(c, g.coverage),
    }
}

/// The full plan for a line of glyphs starting at cursor `x`: one blit per
/// glyph with ink, in glyph order, each placed at the origin plus the sum of
/// the advances of all preceding glyphs; glyphs without ink contribute no
/// blit but still advance the cursor.
pub open spec fn plan_spec(gs: Seq<GlyphModel>, x: int, baseline: int, c: Color) -> Seq<OpModel>
    decreases gs.len(),
{
    if gs.len() == 0 {
        Seq::empty()
    } else {
        let rest = plan_spec(gs.drop_first(), x + gs[0].advance, baseline, c);
        if ink(gs[0]) {
            seq![op_of(gs[0], x, baseline, c)] + rest
        } else {
            rest
        }
    }
}

/// A plan holds exactly one blit per glyph with ink: glyphs whose bounding
/// box has zero width or height contribute no draw call.
pub proof fn lemma_plan_len(gs: Seq<GlyphModel>, x: int, baseline: int, c: Color)
    ensures
        plan_spec(gs, x, baseline, c).len() == count_ink(gs),
    decreases gs.len(),
{
    if gs.len() > 0 {
        lemma_plan_len(gs.drop_first(), x + gs[0].advance, baseline, c);
    }
}

/// A line of glyphs none of which has ink (for instance, only spaces) plans
/// zero draw calls, whatever the origin, baseline and color.
pub proof fn lemma_blank_plan(gs: Seq<GlyphModel>, x: int, baseline: int, c: Color)
    requires
        forall|i: int| 0 <= i < gs.len() ==> !ink(#[trigger] gs[i]),
    ensures
        plan_spec(gs, x, baseline, c) == Seq::<OpModel>::empty(),
    decreases gs.len(),
{
    if gs.len() > 0 {
        assert(!ink(gs[0]));
        assert(forall|i: int| 0 <= i < gs.drop_first().len()
            ==> #[trigger] gs.drop_first()[i] == gs[i + 1]);
        lemma_blank_plan(gs.drop_first(), x + gs[0].advance, baseline, c);
    }
}

/// Every operation of a plan over well-formed glyphs is itself well
/// formed: its rectangle has strictly positive width and height, and its
/// pixel buffer holds exactly four bytes per rectangle pixel — what a
/// graphics backend needs to create the scratch texture and fill it.
pub proof fn lemma_plan_ops_wf(gs: Seq<GlyphModel>, x: int, baseline: int, c: Color)
    requires
        forall|i: int| 0 <= i < gs.len() ==> (#[trigger] gs[i]).wf(),
    ensures
        forall|k: int| 0 <= k < plan_spec(gs, x, baseline, c).len() ==> {
            let op = #[trigger] plan_spec(gs, x, baseline, c)[k];
            &&& op.width > 0
            &&& op.height > 0
            &&& op.pixels.len() == 4 * (op.width * op.height)
        },
    decreases gs.len(),
{
    if gs.len() > 0 {
        let rest = gs.drop_first();
        assert(forall|i: int| 0 <= i < rest.len() ==> (#[trigger] rest[i]).wf()) by {
            assert(forall|i: int| 0 <= i < rest.len() ==> #[trigger] rest[i] == gs[i + 1]);
        }
        lemma_plan_ops_wf(rest, x + gs[0].advance, baseline, c);
        if ink(gs[0]) {
            crate::glyph::lemma_image_len(c, gs[0].coverage);
            assert(plan_spec(gs, x, baseline, c)
                == seq![op_of(gs[0], x, baseline, c)]
                    + plan_spec(rest, x + gs[0].advance, baseline, c));
            assert(plan_spec(gs, x, baseline, c)[0] == op_of(gs[0], x, baseline, c));
            assert(plan_spec(gs, x, baseline, c)[0].pixels.len()
                == 4 * (gs[0].width * gs[0].height));
            assert(forall|k: int| 1 <= k < plan_spec(gs, x, baseline, c).len()
                ==> #[trigger] plan_spec(gs, x, baseline, c)[k]
                    == plan_spec(rest, x + gs[0].advance, baseline, c)[k - 1]);
        } else {
            assert(plan_spec(gs, x, baseline, c)
                == plan_spec(rest, x + gs[0].advance, baseline, c));
            assert(forall|k: int| 0 <= k < plan_spec(gs, x, baseline, c).len()
                ==> #[trigger] plan_spec(gs, x, baseline, c)[k]
                    == plan_spec(rest, x + gs[0].advance, baseline, c)[k]);
        }
    }
}

/// Planning is deterministic: the plan is a function of the glyph data,
/// the origin, the baseline and the color alone, so two renders of the
/// same line onto two fresh surfaces place pixel-identical images at
/// identical positions. Nothing else — no clock, no randomness, no state
/// from an earlier call — enters the plan.
pub proof fn lemma_plan_deterministic(
    gs1: Seq<GlyphModel>,
    gs2: Seq<GlyphModel>,
    x: int,
    baseline: int,
    c: Color,
)
    requires
        gs1 == gs2,
    ensures
        plan_spec(gs1, x, baseline, c) == plan_spec(gs2, x, baseline, c),
{
}

/// The plan for a line of text whose top-left reference point is
/// `(origin_x, origin_y)`: the baseline is `origin_y` plus the font's
/// ascent at the chosen scale, and the glyphs run left to right from
/// `origin_x`, as `plan_spec` states. Planning never fails; a line with
/// nothing visible simply yields no operations.
pub fn plan_line(glyphs: &Vec<GlyphRaster>, origin_x: i32, origin_y: i32, ascent: i32, color: Color) -> (ops: Vec<DrawOp>)
    requires
        glyphs@.len() <= 0x7fff_ffff,
        forall|i: int| 0 <= i < glyphs@.len() ==> (#[trigger] glyphs@[i]).wf(),
    ensures
        ops_view(ops@) == plan_spec(
            glyph_views(glyphs@),
            origin_x as int,
            origin_y + ascent,
            color,
        ),
{
    let baseline: i64 = (origin_y as i64) + (ascent as i64);
    plan_glyphs(glyphs, origin_x, baseline, color)
}

proof fn lemma_advance_sum_drop(gs: Seq<GlyphModel>, n: int)
    requires
        1 <= n <= gs.len(),
    ensures
        advance_sum(gs, n) == gs[0].advance + advance_sum(gs.drop_first(), n - 1),
    decreases n,
{
    if n == 1 {
        assert(advance_sum(gs, 1) == advance_sum(gs, 0) + gs[0].advance);
        assert(advance_sum(gs.drop_first(), 0) == 0);
    } else {
        lemma_advance_sum_drop(gs, n - 1);
        assert(gs.drop_first()[n - 2] == gs[n - 1]);
        assert(advance_sum(gs, n) == advance_sum(gs, n - 1) + gs[n - 1].advance);
        assert(advance_sum(gs.drop_first(), n - 1)
            == advance_sum(gs.drop_first(), n - 2) + gs.drop_first()[n - 2].advance);
    }
}

/// Cursor advancement is additive and order-preserving: when glyph `i` has
/// ink, its blit is operation number `count_ink(gs.take(i))` of the plan —
/// the operations come in glyph order — and its x-position equals the
/// origin plus the sum of the advance widths of all preceding glyphs.
pub proof fn lemma_glyph_position(gs: Seq<GlyphModel>, x: int, baseline: int, c: Color, i: int)
    requires
        0 <= i < gs.len(),
        ink(gs[i]),
    ensures
        0 <= count_ink(gs.take(i)) < plan_spec(gs, x, baseline, c).len(),
        plan_spec(gs, x, baseline, c)[count_ink(gs.take(i))]
            == op_of(gs[i], x + advance_sum(gs, i), baseline, c),
    decreases i,
{
    let rest = gs.drop_first();
    if i == 0 {
        assert(gs.take(0) =~= Seq::<GlyphModel>::empty());
        lemma_plan_len(rest, x + gs[0].advance, baseline, c);
        lemma_count_ink_nonneg(rest);
    } else {
        lemma_glyph_position(rest, x + gs[0].advance, baseline, c, i - 1);
        lemma_advance_sum_drop(gs, i);
        assert(rest[i - 1] == gs[i]);
        assert(gs.take(i).drop_first() =~= rest.take(i - 1));
        assert(count_ink(gs.take(i))
            == (if ink(gs[0]) { 1int } else { 0int }) + count_ink(rest.take(i - 1)));
        let k = count_ink(rest.take(i - 1));
        let rest_plan = plan_spec(rest, x + gs[0].advance, baseline, c);
        if ink(gs[0]) {
            assert(plan_spec(gs, x, baseline, c)[1 + k] == rest_plan[k]);
        }
    }
}

proof fn lemma_count_ink_nonneg(gs: Seq<GlyphModel>)
    ensures
        0 <= count_ink(gs),
    decreases gs.len(),
{
    if gs.len() > 0 {
        lemma_count_ink_nonneg(gs.drop_first());
    }
}

/// Compute the blit plan for a line of rasterized glyphs: the cursor starts
/// at `origin_x`, each glyph with ink yields one operation bottom-aligned to
/// `baseline_y`, and every glyph advances the cursor by its advance width.
/// The result is exactly `plan_spec` over the glyph models.
pub fn plan_glyphs(glyphs: &Vec<GlyphRaster>, origin_x: i32, baseline_y: i64, color: Color) -> (ops: Vec<DrawOp>)
    requires
        glyphs@.len() <= 0x7fff_ffff,
        -0x4000_0000_0000_0000 <= baseline_y <= 0x4000_0000_0000_0000,
        forall|i: int| 0 <= i < glyphs@.len() ==> (#[trigger] glyphs@[i]).wf(),
    ensures
        ops_view(ops@) == plan_spec(glyph_views(glyphs@), origin_x as int, baseline_y as int, color),
{
    let ghost gvs = glyph_views(glyphs@);
    let ghost goal = plan_spec(gvs, origin_x as int, baseline_y as int, color);
    let mut ops: Vec<DrawOp> = Vec::new();
    let mut cursor: i64 = origin_x as i64;
    let mut i: usize = 0;
    proof {
        assert(gvs.skip(0) =~= gvs);
        assert(ops_view(ops@) + goal =~= goal);
    }
    while i < glyphs.len()
        invariant
            i <= glyphs@.len(),
            glyphs@.len() <= 0x7fff_ffff,
            -0x4000_0000_0000_0000 <= baseline_y <= 0x4000_0000_0000_0000,
            forall|j: int| 0 <= j < glyphs@.len() ==> (#[trigger] glyphs@[j]).wf(),
            gvs == glyph_views(glyphs@),
            goal == plan_spec(gvs, origin_x as int, baseline_y as int, color),
            cursor == origin_x + advance_sum(gvs, i as int),
            -(i as int) * 0x8000_0000 <= advance_sum(gvs, i as int) <= (i as int) * 0x8000_0000,
            ops_view(ops@) + plan_spec(gvs.skip(i as int), cursor as int, baseline_y as int, color)
                == goal,
        decreases glyphs@.len() - i,
    {
        let g = &glyphs[i];
        let ghost suffix = gvs.skip(i as int);
        let ghost prev = ops@;
        proof {
            assert(gvs[i as int] == glyphs@[i as int]@);
            assert(suffix[0] == gvs[i as int]);
            assert(suffix.drop_first() =~= gvs.skip(i as int + 1));
            assert(plan_spec(suffix, cursor as int, baseline_y as int, color)
                == if ink(suffix[0]) {
                    seq![op_of(suffix[0], cursor as int, baseline_y as int, color)]
                        + plan_spec(gvs.skip(i as int + 1), cursor + suffix[0].advance, baseline_y as int, color)
                } else {
                    plan_spec(gvs.skip(i as int + 1), cursor + suffix[0].advance, baseline_y as int, color)
                });
        }
        if g.width > 0 && g.height > 0 {
            let pixels = fill_pixels(color, &g.coverage);
            let op = DrawOp {
                x: cursor,
                y: baseline_y - (g.height as i64),
                width: g.width,
                height: g.height,
                pixels,
            };
            proof {
                assert(op@ == op_of(gvs[i as int], cursor as int, baseline_y as int, color));
            }
            ops.push(op);
            proof {
                assert(ops@ == prev.push(op));
                assert(ops_view(prev.push(op)) =~= ops_view(prev).push(op@));
                assert(ops_view(prev).push(op@)
                    + plan_spec(gvs.skip(i as int + 1), cursor + gvs[i as int].advance, baseline_y as int, color)
                    =~= ops_view(prev)
                        + plan_spec(suffix, cursor as int, baseline_y as int, color));
            }
        }
        proof {
            assert(advance_sum(gvs, i as int + 1)
                == advance_sum(gvs, i as int) + gvs[i as int].advance);
            assert(-(i as int + 1) * 0x8000_0000 <= advance_sum(gvs, i as int + 1)
                <= (i as int + 1) * 0x8000_0000) by (nonlinear_arith)
                requires
                    advance_sum(gvs, i as int + 1)
                        == advance_sum(gvs, i as int) + gvs[i as int].advance,
                    -(i as int) * 0x8000_0000 <= advance_sum(gvs, i as int)
                        <= (i as int) * 0x8000_0000,
                    -0x8000_0000 <= gvs[i as int].advance < 0x8000_0000,
            ;
            assert((i as int + 1) * 0x8000_0000 <= 0x8000_0000 * 0x8000_0000) by (nonlinear_arith)
                requires
                    i as int + 1 <= 0x8000_0000,
            ;
        }
        cursor = cursor + (g.advance as i64);
        i = i + 1;
    }
    proof {
        assert(gvs.skip(i as int) =~= Seq::<GlyphModel>::empty());
        assert(ops_view(ops@) + Seq::<OpModel>::empty() =~= ops_view(ops@));
    }
    ops
}

} // verus!

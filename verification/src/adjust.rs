//! Tracking and word spacing: the adjustments made to advances once text is
//! shaped.

use vstd::prelude::*;

use crate::geom::{Em, Ratio, UNIT};
use crate::shaping::{ShapedGlyph, ShapingContext};

verus! {

/// The glyph at place `i` with tracking and spacing applied: a space has its
/// advance scaled by `spacing`, and the last glyph of a cluster that another
/// cluster follows has `tracking` added.
pub open spec fn spaced_glyph(glyphs: Seq<ShapedGlyph>, i: int, tracking: Em, spacing: Ratio) -> ShapedGlyph {
    let glyph = glyphs[i];
    let scaled = if glyph.spec_is_space() {
        glyph.x_advance.spec_scale(spacing)
    } else {
        glyph.x_advance
    };
    let spread = if i + 1 < glyphs.len() && glyph.cluster != glyphs[i + 1].cluster {
        scaled.spec_plus(tracking)
    } else {
        scaled
    };
    ShapedGlyph { x_advance: spread, ..glyph }
}

/// The glyphs with tracking and spacing applied. With no tracking and a
/// spacing of one they are the glyphs as they were.
pub open spec fn spaced(glyphs: Seq<ShapedGlyph>, tracking: Em, spacing: Ratio) -> Seq<ShapedGlyph> {
    if tracking.raw == 0 && spacing.raw == UNIT {
        glyphs
    } else {
        Seq::new(glyphs.len(), |i: int| spaced_glyph(glyphs, i, tracking, spacing))
    }
}

/// Tracking and spacing change advances and nothing else.
pub proof fn lemma_spaced_keeps(glyphs: Seq<ShapedGlyph>, tracking: Em, spacing: Ratio)
    ensures
        spaced(glyphs, tracking, spacing).len() == glyphs.len(),
        forall|i: int|
            0 <= i < glyphs.len() ==> (#[trigger] spaced(glyphs, tracking, spacing)[i]) == (ShapedGlyph {
                x_advance: spaced(glyphs, tracking, spacing)[i].x_advance,
                ..glyphs[i]
            }),
{
}

/// Applies the tracking and spacing of the style to the glyphs shaped so
/// far.
pub fn track_and_space(ctx: &mut ShapingContext)
    ensures
        final(ctx).setup == old(ctx).setup,
        final(ctx).used == old(ctx).used,
        final(ctx).glyphs@ == spaced(
            old(ctx).glyphs@,
            old(ctx).setup@.styles.tracking,
            old(ctx).setup@.styles.spacing,
        ),
        old(ctx).setup@.styles.tracking.raw == 0 && old(ctx).setup@.styles.spacing.raw == UNIT
            ==> final(ctx).glyphs@ == old(ctx).glyphs@,
{
    let tracking = ctx.setup.styles.tracking;
    let spacing = ctx.setup.styles.spacing;
    if tracking.is_zero() && spacing.is_one() {
        return ;
    }
    let ghost before = ctx.glyphs@;
    let count = ctx.glyphs.len();
    let mut i: usize = 0;
    while i < count
        invariant
            i <= count,
            count == before.len(),
            ctx.glyphs@.len() == count,
            ctx.setup == old(ctx).setup,
            ctx.used == old(ctx).used,
            forall|k: int| 0 <= k < i ==> ctx.glyphs@[k] == spaced_glyph(before, k, tracking, spacing),
            forall|k: int| i <= k < count ==> ctx.glyphs@[k] == before[k],
        decreases count - i,
    {
        let mut glyph = ctx.glyphs[i];
        if glyph.is_space() {
            glyph.x_advance = glyph.x_advance.scale(spacing);
        }
        if i + 1 < count && glyph.cluster != ctx.glyphs[i + 1].cluster {
            glyph.x_advance = glyph.x_advance.plus(tracking);
        }
        ctx.glyphs.set(i, glyph);
        i += 1;
    }
    assert(ctx.glyphs@ =~= spaced(before, tracking, spacing));
}

} // verus!

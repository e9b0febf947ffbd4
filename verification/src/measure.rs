//! The size of a run of glyphs.

use vstd::prelude::*;

use crate::font::{Face, FaceId, FontStore};
use crate::geom::{Length, Size};
use crate::shaping::{first_family, ShapedGlyph};
use crate::style::{families, names, spec_families, spec_variant, variant, TextStyle};

verus! {

/// The summed advance of the glyphs at font size `size`, added up from the
/// first glyph on.
pub open spec fn total_advance(glyphs: Seq<ShapedGlyph>, size: Length) -> Length
    decreases glyphs.len(),
{
    if glyphs.len() == 0 {
        Length { raw: 0 }
    } else {
        total_advance(glyphs.drop_last(), size).spec_plus(glyphs.last().x_advance.spec_resolve(size))
    }
}

/// The summed advance of the glyphs at font size `size` as a plain number of
/// raw steps, without regard to the range of lengths.
pub open spec fn advance_sum(glyphs: Seq<ShapedGlyph>, size: Length) -> int
    decreases glyphs.len(),
{
    if glyphs.len() == 0 {
        0
    } else {
        advance_sum(glyphs.drop_last(), size) + glyphs.last().x_advance.spec_resolve(size).raw
    }
}

/// Where the plain sum of the advances stays within the range of lengths
/// after every glyph, the summed advance is that sum.
pub proof fn lemma_total_advance_is_sum(glyphs: Seq<ShapedGlyph>, size: Length)
    requires
        forall|k: int|
            0 <= k <= glyphs.len() ==> i64::MIN <= #[trigger] advance_sum(glyphs.subrange(0, k), size)
                <= i64::MAX,
    ensures
        total_advance(glyphs, size).raw == advance_sum(glyphs, size),
    decreases glyphs.len(),
{
    if glyphs.len() > 0 {
        let head = glyphs.drop_last();
        assert forall|k: int| 0 <= k <= head.len() implies i64::MIN <= #[trigger] advance_sum(
            head.subrange(0, k),
            size,
        ) <= i64::MAX by {
            assert(head.subrange(0, k) =~= glyphs.subrange(0, k));
        }
        lemma_total_advance_is_sum(head, size);
        assert(glyphs.subrange(0, glyphs.len() as int) =~= glyphs);
    }
}

/// How far text set in the face reaches above and below the baseline under
/// the style: the height of the style's top edge, and the depth of its
/// bottom edge.
pub open spec fn face_reach(face: &Face, styles: &TextStyle) -> (Length, Length) {
    (
        face.metrics.spec_vertical(styles.top_edge, styles.size),
        face.metrics.spec_vertical(styles.bottom_edge, styles.size).spec_neg(),
    )
}

/// The larger of each of two reaches.
pub open spec fn wider(a: (Length, Length), b: (Length, Length)) -> (Length, Length) {
    (a.0.spec_max(b.0), a.1.spec_max(b.1))
}

/// The largest reach above and the largest below the baseline among the
/// faces of the glyphs; `None` where no glyph is of a face of the store.
pub open spec fn reach(fonts: &FontStore, glyphs: Seq<ShapedGlyph>, styles: &TextStyle) -> Option<
    (Length, Length),
>
    decreases glyphs.len(),
{
    if glyphs.len() == 0 {
        None
    } else {
        let rest = reach(fonts, glyphs.drop_last(), styles);
        let id = glyphs.last().face_id;
        if id.0 < fonts.faces@.len() {
            let own = face_reach(&fonts.faces@[id.0 as int], styles);
            match rest {
                Some(most) => Some(wider(most, own)),
                None => Some(own),
            }
        } else {
            rest
        }
    }
}

/// The test that any face passes.
pub open spec fn any_face() -> spec_fn(FaceId) -> bool {
    |id: FaceId| true
}

/// The reach of text without glyphs: that of the nearest face of the first
/// family of the style that has a face.
pub open spec fn empty_reach(fonts: &FontStore, styles: &TextStyle) -> Option<(Length, Length)> {
    match first_family(fonts, spec_families(styles), spec_variant(styles), 0, any_face()) {
        Some((_, id)) => Some(face_reach(&fonts.faces@[id.0 as int], styles)),
        None => None,
    }
}

/// The size and the baseline of a run of glyphs under a style. The width is
/// the summed advance of the glyphs at the style's font size. The height is
/// the largest reach above the baseline among the faces of the glyphs plus
/// the largest below, and the baseline lies the former below the top. A run
/// without glyphs takes its reach from the first family of the style that
/// has a face; where nothing gives a reach, it is zero.
pub open spec fn spec_measure(fonts: &FontStore, glyphs: Seq<ShapedGlyph>, styles: &TextStyle) -> (
    Size,
    Length,
) {
    let found = if glyphs.len() == 0 {
        empty_reach(fonts, styles)
    } else {
        reach(fonts, glyphs, styles)
    };
    let (top, bottom) = match found {
        Some(most) => most,
        None => (Length { raw: 0 }, Length { raw: 0 }),
    };
    (Size { x: total_advance(glyphs, styles.size), y: top.spec_plus(bottom) }, top)
}

fn reach_of(face: &Face, styles: &TextStyle) -> (r: (Length, Length))
    ensures
        r == face_reach(face, styles),
{
    (
        face.metrics.vertical(styles.top_edge, styles.size),
        face.metrics.vertical(styles.bottom_edge, styles.size).neg(),
    )
}

/// The reach of text without glyphs.
fn reach_of_style(fonts: &FontStore, styles: &TextStyle) -> (r: Option<(Length, Length)>)
    ensures
        r == empty_reach(fonts, styles),
{
    let wanted = variant(styles);
    let list = families(styles);
    let ghost all = spec_families(styles);
    let mut i: usize = 0;
    while i < list.len()
        invariant
            i <= list@.len(),
            names(list@) == all,
            all == spec_families(styles),
            wanted == spec_variant(styles),
            first_family(fonts, all, wanted, 0, any_face()) == first_family(
                fonts,
                all,
                wanted,
                i as int,
                any_face(),
            ),
        decreases list@.len() - i,
    {
        assert(all[i as int] == list@[i as int]@);
        match fonts.select(list[i], wanted) {
            Some(id) => {
                assert(any_face()(id));
                return Some(reach_of(fonts.get(id), styles));
            },
            None => {},
        }
        i += 1;
    }
    None
}

/// Measures the size and the baseline of a run of glyphs under a style.
pub fn measure(fonts: &FontStore, glyphs: &[ShapedGlyph], styles: &TextStyle) -> (r: (Size, Length))
    ensures
        r == spec_measure(fonts, glyphs@, styles),
{
    let mut width = Length::zero();
    let mut found: Option<(Length, Length)> = None;
    if glyphs.len() == 0 {
        found = reach_of_style(fonts, styles);
    } else {
        let mut i: usize = 0;
        while i < glyphs.len()
            invariant
                i <= glyphs@.len(),
                width == total_advance(glyphs@.subrange(0, i as int), styles.size),
                found == reach(fonts, glyphs@.subrange(0, i as int), styles),
            decreases glyphs@.len() - i,
        {
            assert(glyphs@.subrange(0, i + 1).drop_last() =~= glyphs@.subrange(0, i as int));
            let glyph = glyphs[i];
            if glyph.face_id.0 < fonts.len() {
                let own = reach_of(fonts.get(glyph.face_id), styles);
                found = match found {
                    Some((top, bottom)) => Some((top.max(own.0), bottom.max(own.1))),
                    None => Some(own),
                };
            }
            width = width.plus(glyph.x_advance.resolve(styles.size));
            i += 1;
        }
        assert(glyphs@.subrange(0, i as int) =~= glyphs@);
    }
    let (top, bottom) = match found {
        Some(most) => most,
        None => (Length::zero(), Length::zero()),
    };
    (Size::new(width, top.plus(bottom)), top)
}

} // verus!

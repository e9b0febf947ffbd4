//! Shaped runs of text: what shaping gives, and what a line breaker does
//! with it.

use core::ops::Range;
use vstd::prelude::*;
use vstd::slice::slice_to_vec;
use vstd::utf8::{decode_utf8, encode_utf8};

use crate::adjust::{lemma_spaced_keeps, spaced, track_and_space};
use crate::font::{FaceId, FontStore};
use crate::frame::{Element, Frame, Glyph, Placed, Text, glyphs_width};
use crate::geom::{Em, Length, Point, Size};
use crate::measure::{measure, spec_measure};
use crate::shaper::{answer, usable, views, RawGlyph, Request, Shaped, ShapedView};
use crate::shaping::{
    clusters_ordered, face_glyphs, first_family, lemma_segment_covered, pick, placed, segment,
    shape_segment, Outcome, Setup, ShapedGlyph, ShapingContext, ShapingSetup,
};
use crate::style::{
    families, names, spec_families, spec_tags, spec_variant, tags, variant, Decoration, Dir, TextStyle,
};
use crate::text::{byte_len, is_text_range, lemma_view_of_bytes, spec_all_blank, substr};

verus! {

/// A side to go toward.
#[derive(Clone, Copy, Debug, PartialEq, Eq, Structural)]
pub enum Side {
    Left,
    Right,
}

/// The text of a run: a part of a text that outlives the run, or text of
/// the run's own.
#[derive(Debug, Clone)]
pub enum RunText<'a> {
    Borrowed(&'a str),
    Owned(String),
}

impl<'a> View for RunText<'a> {
    type V = Seq<char>;

    open spec fn view(&self) -> Seq<char> {
        match self {
            RunText::Borrowed(text) => text@,
            RunText::Owned(text) => text@,
        }
    }
}

impl<'a> RunText<'a> {
    /// The text.
    pub fn as_str(&self) -> (text: &str)
        ensures
            text@ == self@,
    {
        match self {
            RunText::Borrowed(text) => text,
            RunText::Owned(text) => text.as_str(),
        }
    }
}

/// The glyphs of a run: a part of the glyphs of another run that outlives
/// it, or glyphs of the run's own.
#[derive(Debug, Clone)]
pub enum RunGlyphs<'a> {
    Borrowed(&'a [ShapedGlyph]),
    Owned(Vec<ShapedGlyph>),
}

impl<'a> View for RunGlyphs<'a> {
    type V = Seq<ShapedGlyph>;

    open spec fn view(&self) -> Seq<ShapedGlyph> {
        match self {
            RunGlyphs::Borrowed(glyphs) => glyphs@,
            RunGlyphs::Owned(glyphs) => glyphs@,
        }
    }
}

impl<'a> RunGlyphs<'a> {
    /// The glyphs.
    pub fn as_slice(&self) -> (glyphs: &[ShapedGlyph])
        ensures
            glyphs@ == self@,
    {
        match self {
            RunGlyphs::Borrowed(glyphs) => glyphs,
            RunGlyphs::Owned(glyphs) => glyphs.as_slice(),
        }
    }

    /// Adds a glyph at the end; glyphs that were a part of another run's
    /// become the run's own first.
    pub fn push(&mut self, glyph: ShapedGlyph)
        ensures
            final(self)@ == old(self)@.push(glyph),
            *final(self) is Owned,
    {
        match self {
            RunGlyphs::Owned(own) => {
                own.push(glyph);
            },
            RunGlyphs::Borrowed(part) => {
                let mut own = slice_to_vec(part);
                own.push(glyph);
                *self = RunGlyphs::Owned(own);
            },
        }
    }
}

/// The result of shaping text: the text, its glyphs in visual order, and
/// the size of the box around them.
#[derive(Debug, Clone)]
pub struct ShapedText<'a> {
    /// The text that was shaped.
    pub text: RunText<'a>,
    /// The direction of the text.
    pub dir: Dir,
    /// The style of the text.
    pub styles: &'a TextStyle,
    /// The size of the box around the text.
    pub size: Size,
    /// How far below the top of the box the baseline runs.
    pub baseline: Length,
    /// The shaped glyphs, in visual order.
    pub glyphs: RunGlyphs<'a>,
}

/// Whether every glyph stands for a character of the text `bytes`: its
/// cluster is where a character starts, and `c` is that character.
pub open spec fn clusters_in_text(glyphs: Seq<ShapedGlyph>, bytes: Seq<u8>) -> bool {
    forall|k: int| 0 <= k < glyphs.len() ==> placed(#[trigger] glyphs[k], 0, bytes)
}

/// Whether the cluster of every glyph is where a character of the text
/// `bytes` starts.
pub open spec fn clusters_within(glyphs: Seq<ShapedGlyph>, bytes: Seq<u8>) -> bool {
    forall|k: int|
        0 <= k < glyphs.len() ==> (#[trigger] glyphs[k]).cluster < bytes.len()
            && vstd::utf8::is_char_boundary(bytes, glyphs[k].cluster as int)
}

/// Glyphs that stand for characters of a text have their clusters in it.
pub proof fn lemma_clusters_within(glyphs: Seq<ShapedGlyph>, bytes: Seq<u8>)
    requires
        clusters_in_text(glyphs, bytes),
    ensures
        clusters_within(glyphs, bytes),
{
    assert forall|k: int| 0 <= k < glyphs.len() implies (#[trigger] glyphs[k]).cluster < bytes.len()
        && vstd::utf8::is_char_boundary(bytes, glyphs[k].cluster as int) by {
        assert(placed(glyphs[k], 0, bytes));
    }
}

/// Whether some glyph has the cluster.
pub open spec fn has_cluster(glyphs: Seq<ShapedGlyph>, cluster: int) -> bool {
    exists|i: int| 0 <= i < glyphs.len() && (#[trigger] glyphs[i]).cluster == cluster
}

/// Whether the glyph at place `i` has the cluster and no glyph further
/// toward the side has it.
pub open spec fn is_outermost(glyphs: Seq<ShapedGlyph>, cluster: int, towards: Side, i: int) -> bool {
    &&& 0 <= i < glyphs.len()
    &&& glyphs[i].cluster == cluster
    &&& forall|j: int|
        0 <= j < glyphs.len() && (#[trigger] glyphs[j]).cluster == cluster ==> match towards {
            Side::Left => i <= j,
            Side::Right => j <= i,
        }
}

/// The place of the glyph with the cluster that is furthest toward the
/// side.
pub open spec fn outermost(glyphs: Seq<ShapedGlyph>, cluster: int, towards: Side) -> int {
    choose|i: int| is_outermost(glyphs, cluster, towards, i)
}

/// Only one glyph with a cluster is furthest toward a side.
pub proof fn lemma_outermost_unique(
    glyphs: Seq<ShapedGlyph>,
    cluster: int,
    towards: Side,
    a: int,
    b: int,
)
    requires
        is_outermost(glyphs, cluster, towards, a),
        is_outermost(glyphs, cluster, towards, b),
    ensures
        a == b,
{
    assert(glyphs[a].cluster == cluster);
    assert(glyphs[b].cluster == cluster);
}

/// The setup of shaping with a store under a style in a direction, with
/// the shaper's results.
pub open spec fn spec_setup(fonts: &FontStore, styles: &TextStyle, dir: Dir, shaped: Seq<ShapedView>) -> Setup {
    Setup {
        fonts: *fonts,
        styles: *styles,
        families: spec_families(styles),
        variant: spec_variant(styles),
        tags: spec_tags(styles),
        fallback: styles.fallback,
        dir,
        shaped,
    }
}

/// The text in the letter case that the style asks for.
pub open spec fn cased(styles: &TextStyle, text: Seq<char>) -> Seq<char> {
    match styles.case {
        Some(case) => case.spec_apply(text),
        None => text,
    }
}

/// What shaping `text` with a store under a style in a direction comes to
/// before tracking and spacing: the text shaped as one segment with no face
/// in use.
pub open spec fn shaping(
    fonts: &FontStore,
    text: Seq<char>,
    styles: &TextStyle,
    dir: Dir,
    shaped: Seq<ShapedView>,
) -> Outcome {
    segment(spec_setup(fonts, styles, dir, shaped), Seq::empty(), Seq::empty(), 0, text, 0)
}

/// Where the style asks for no tracking and a spacing of one, and the first
/// face picked has a glyph for every glyph that the shaper made of the
/// text, shaping gives the glyph of that face for each of the shaper's
/// glyphs, in their order: its advance is the em length in the face of the
/// shaper's advance, and it is safe to break before unless the shaper says
/// otherwise.
pub proof fn lemma_shaped_covered(
    fonts: &FontStore,
    text: Seq<char>,
    styles: &TextStyle,
    dir: Dir,
    shaped: Seq<ShapedView>,
    infos: Seq<RawGlyph>,
)
    requires
        styles.tracking.raw == 0,
        styles.spacing.raw == crate::geom::UNIT,
        !spec_all_blank(text),
        pick(spec_setup(fonts, styles, dir, shaped), Seq::empty(), text, 0) is Some,
        answer(
            shaped,
            pick(spec_setup(fonts, styles, dir, shaped), Seq::empty(), text, 0).unwrap().0,
            text,
        ) == Some(Some(infos)),
        usable(infos, encode_utf8(text), dir),
        forall|j: int| 0 <= j < infos.len() ==> (#[trigger] infos[j]).glyph_id != 0,
    ensures
        ({
            let face_id = pick(spec_setup(fonts, styles, dir, shaped), Seq::empty(), text, 0).unwrap().0;
            let glyphs = face_glyphs(
                face_id,
                &fonts.faces@[face_id.0 as int],
                infos,
                0,
                0,
                encode_utf8(text),
            );
            &&& shaping(fonts, text, styles, dir, shaped) == Outcome::Done(glyphs)
            &&& spaced(glyphs, styles.tracking, styles.spacing) == glyphs
        }),
{
    let setup = spec_setup(fonts, styles, dir, shaped);
    let face_id = pick(setup, Seq::empty(), text, 0).unwrap().0;
    lemma_segment_covered(setup, Seq::empty(), Seq::empty(), 0, text, 0, infos);
    assert(Seq::<ShapedGlyph>::empty() + face_glyphs(
        face_id,
        &fonts.faces@[face_id.0 as int],
        infos,
        0,
        0,
        encode_utf8(text),
    ) =~= face_glyphs(face_id, &fonts.faces@[face_id.0 as int], infos, 0, 0, encode_utf8(text)));
}

/// Whether the run is what shaping `text` with the store under the style in
/// the direction gives, by the shaper's results.
pub open spec fn is_shaped(
    run: &ShapedText,
    fonts: &FontStore,
    text: Seq<char>,
    styles: &TextStyle,
    dir: Dir,
    shaped: Seq<ShapedView>,
) -> bool {
    &&& run.text@ == cased(styles, text)
    &&& run.dir == dir
    &&& run.styles == styles
    &&& shaping(fonts, run.text@, styles, dir, shaped) matches Outcome::Done(glyphs)
    &&& run.glyphs@ == spaced(glyphs, styles.tracking, styles.spacing)
    &&& (run.size, run.baseline) == spec_measure(fonts, run.glyphs@, styles)
    &&& run.wf()
    &&& clusters_in_text(run.glyphs@, encode_utf8(run.text@))
}

/// Shapes text into a run: the text is put in the letter case of the style
/// and shaped with the faces of its families, and of others where fallback
/// is on; tracking and spacing are applied and the run is measured.
///
/// The shaper's work is not done here. Where the run needs a text shaped
/// with a face and `shaped` does not hold what the shaper made of it, that
/// text and face come back; shaping is to be started again with the result
/// added to `shaped`.
pub fn shape<'a>(
    fonts: &FontStore,
    text: &'a str,
    styles: &'a TextStyle,
    dir: Dir,
    shaped: &Vec<Shaped>,
) -> (r: Result<ShapedText<'a>, Request>)
    ensures
        match r {
            Ok(run) => {
                &&& is_shaped(&run, fonts, text@, styles, dir, views(shaped@))
                &&& styles.case is None ==> run.text == RunText::Borrowed(text)
                &&& styles.case is Some ==> run.text is Owned
                &&& run.glyphs is Owned
            },
            Err(request) => shaping(fonts, cased(styles, text@), styles, dir, views(shaped@))
                == Outcome::Needs(request@),
        },
{
    let text = match styles.case {
        Some(case) => RunText::Owned(case.apply(text)),
        None => RunText::Borrowed(text),
    };
    let mut ctx = ShapingContext {
        setup: ShapingSetup {
            fonts,
            styles,
            families: families(styles),
            variant: variant(styles),
            tags: tags(styles),
            fallback: styles.fallback,
            dir,
            shaped,
        },
        glyphs: Vec::new(),
        used: Vec::new(),
    };
    let ghost setup = ctx.setup@;
    assert(setup == spec_setup(fonts, styles, dir, views(shaped@)));
    let whole = text.as_str();
    proof {
        lemma_view_of_bytes(whole);
        crate::text::lemma_empty_text(whole@);
    }
    if byte_len(whole) > 0 {
        match shape_segment(&mut ctx, 0, whole, 0) {
            Ok(_) => {},
            Err(request) => {
                return Err(request);
            },
        }
    } else {
        assert(segment(setup, Seq::empty(), Seq::empty(), 0, whole@, 0) == Outcome::Done(
            Seq::<ShapedGlyph>::empty(),
        )) by {
            reveal(segment);
        }
        assert(ctx.glyphs@ =~= Seq::<ShapedGlyph>::empty());
    }
    let ghost raw = ctx.glyphs@;
    track_and_space(&mut ctx);
    proof {
        let done = ctx.glyphs@;
        let bytes = encode_utf8(text@);
        lemma_spaced_keeps(raw, styles.tracking, styles.spacing);
        assert forall|k: int| 0 <= k < done.len() implies placed(#[trigger] done[k], 0, bytes) by {
            assert(placed(raw[k], 0, bytes));
        }
        assert forall|i: int, j: int| 0 <= i <= j < done.len() implies if dir == Dir::LTR {
            done[i].cluster <= done[j].cluster
        } else {
            done[i].cluster >= done[j].cluster
        } by {
            assert(done[i].cluster == raw[i].cluster && done[j].cluster == raw[j].cluster);
        }
    }
    let (size, baseline) = measure(fonts, ctx.glyphs.as_slice(), styles);
    Ok(ShapedText { text, dir, styles, size, baseline, glyphs: RunGlyphs::Owned(ctx.glyphs) })
}

/// How many of the glyphs are justifiable.
pub open spec fn count_justifiable(glyphs: Seq<ShapedGlyph>) -> nat
    decreases glyphs.len(),
{
    if glyphs.len() == 0 {
        0
    } else {
        count_justifiable(glyphs.drop_last()) + if glyphs.last().spec_is_justifiable() {
            1nat
        } else {
            0nat
        }
    }
}

/// The summed advance of the justifiable glyphs, added up from the first
/// on.
pub open spec fn justifiable_advance(glyphs: Seq<ShapedGlyph>) -> Em
    decreases glyphs.len(),
{
    if glyphs.len() == 0 {
        Em { raw: 0 }
    } else if glyphs.last().spec_is_justifiable() {
        justifiable_advance(glyphs.drop_last()).spec_plus(glyphs.last().x_advance)
    } else {
        justifiable_advance(glyphs.drop_last())
    }
}

/// A width with `extra` added to it `times` times.
pub open spec fn widened(width: Length, extra: Length, times: nat) -> Length
    decreases times,
{
    if times == 0 {
        width
    } else {
        widened(width, extra, (times - 1) as nat).spec_plus(extra)
    }
}

/// A width with `extra` added to it `times` times is the width plus that
/// many times `extra`, kept within the range of lengths.
pub proof fn lemma_widened(width: Length, extra: Length, times: nat)
    ensures
        widened(width, extra, times).raw == crate::geom::clamp(width.raw + times * extra.raw),
    decreases times,
{
    let w = width.raw as int;
    let e = extra.raw as int;
    if times == 0 {
        assert(times * e == 0) by (nonlinear_arith)
            requires
                times == 0,
        ;
    } else {
        lemma_widened(width, extra, (times - 1) as nat);
        let part = (times - 1) * e;
        assert(times * e == part + e) by (nonlinear_arith)
            requires
                part == (times - 1) * e,
        ;
        assert(e >= 0 ==> part >= 0) by (nonlinear_arith)
            requires
                part == (times - 1) * e,
                times >= 1,
        ;
        assert(e <= 0 ==> part <= 0) by (nonlinear_arith)
            requires
                part == (times - 1) * e,
                times >= 1,
        ;
        let before = widened(width, extra, (times - 1) as nat);
        assert(before.raw == crate::geom::clamp(w + part));
        assert(widened(width, extra, times) == before.spec_plus(extra));
    }
}

/// The glyph and the advance of the hyphen in a face of the store, if the
/// face has both.
pub open spec fn hyphen_of(fonts: &FontStore, id: FaceId) -> Option<(u16, Em)> {
    if id.0 < fonts.faces@.len() {
        let face = fonts.faces@[id.0 as int];
        match face.spec_glyph_index('-') {
            Some(glyph) => match face.spec_advance(glyph) {
                Some(advance) => Some((glyph, advance)),
                None => None,
            },
            None => None,
        }
    } else {
        None
    }
}

/// The test that a face has a glyph and an advance for the hyphen.
pub open spec fn has_hyphen(fonts: &FontStore) -> spec_fn(FaceId) -> bool {
    |id: FaceId| hyphen_of(fonts, id) is Some
}

/// The face to set a hyphen in under a style: the nearest face of the first
/// family that has one with a glyph and an advance for the hyphen.
pub open spec fn hyphen_face(fonts: &FontStore, styles: &TextStyle) -> Option<(int, FaceId)> {
    first_family(fonts, spec_families(styles), spec_variant(styles), 0, has_hyphen(fonts))
}

/// The glyph of a hyphen in the cluster `cluster`.
pub open spec fn hyphen_glyph(face_id: FaceId, glyph_id: u16, advance: Em, cluster: usize) -> ShapedGlyph {
    ShapedGlyph {
        face_id,
        glyph_id,
        x_advance: advance,
        x_offset: Em { raw: 0 },
        cluster,
        safe_to_break: true,
        c: '-',
    }
}

/// The cluster of the last glyph; zero where there is no glyph.
pub open spec fn last_cluster(glyphs: Seq<ShapedGlyph>) -> usize {
    if glyphs.len() > 0 {
        glyphs.last().cluster
    } else {
        0
    }
}

/// The glyph as it is placed in a frame: with the em length of
/// `justification` at font size `size` added to its advance if it is
/// justifiable.
pub open spec fn frame_glyph(glyph: ShapedGlyph, justification: Length, size: Length) -> Glyph {
    Glyph {
        id: glyph.glyph_id,
        x_advance: glyph.x_advance.spec_plus(
            if glyph.spec_is_justifiable() {
                Em::spec_from_length(justification, size)
            } else {
                Em { raw: 0 }
            },
        ),
        x_offset: glyph.x_offset,
    }
}

/// The glyphs as they are placed in a frame.
pub open spec fn frame_glyphs(glyphs: Seq<ShapedGlyph>, justification: Length, size: Length) -> Seq<
    Glyph,
> {
    Seq::new(glyphs.len(), |i: int| frame_glyph(glyphs[i], justification, size))
}

/// The place of the first glyph from place `i` on that is not of the face;
/// the number of glyphs where all from there on are.
pub open spec fn group_end(glyphs: Seq<ShapedGlyph>, face_id: FaceId, i: int) -> int
    decreases glyphs.len() - i,
{
    if 0 <= i < glyphs.len() && glyphs[i].face_id == face_id {
        group_end(glyphs, face_id, i + 1)
    } else {
        i
    }
}

/// The glyphs of a face that follow one another from a place on end at that
/// place or after it, among the glyphs.
pub proof fn lemma_group_end(glyphs: Seq<ShapedGlyph>, face_id: FaceId, i: int)
    requires
        0 <= i <= glyphs.len(),
    ensures
        i <= group_end(glyphs, face_id, i) <= glyphs.len(),
    decreases glyphs.len() - i,
{
    if i < glyphs.len() && glyphs[i].face_id == face_id {
        lemma_group_end(glyphs, face_id, i + 1);
    }
}

/// The lines of a style, each placed at `pos` with the width `width`.
pub open spec fn decorations(lines: Seq<Decoration>, pos: Point, width: Length) -> Seq<(Point, Placed)> {
    Seq::new(lines.len(), |k: int| (pos, Placed::Decoration { deco: lines[k], width }))
}

/// What building places in a frame for the glyphs from place `from` on with
/// the pen at `pen`: the text of the glyphs that follow one another in the
/// face of the first, the lines of the style along it, and then what
/// building places for the glyphs after them with the pen moved on by the
/// width of the text.
pub open spec fn built(
    glyphs: Seq<ShapedGlyph>,
    from: int,
    pen: Length,
    baseline: Length,
    styles: &TextStyle,
    justification: Length,
) -> Seq<(Point, Placed)>
    decreases glyphs.len() - from,
{
    if from < 0 || from >= glyphs.len() {
        Seq::empty()
    } else {
        let face_id = glyphs[from].face_id;
        let end = group_end(glyphs, face_id, from + 1);
        let group = frame_glyphs(glyphs.subrange(from, end), justification, styles.size);
        let width = glyphs_width(group, styles.size);
        let pos = Point { x: pen, y: baseline };
        proof {
            lemma_group_end(glyphs, face_id, from + 1);
        }
        seq![(pos, Placed::Text { face_id, size: styles.size, fill: styles.fill, glyphs: group })]
            + decorations(styles.deco@, pos, width) + built(
            glyphs,
            end,
            pen.spec_plus(width),
            baseline,
            styles,
            justification,
        )
    }
}

/// A glyph with the cluster, if the ordered glyphs hold one.
fn find_cluster(glyphs: &[ShapedGlyph], dir: Dir, cluster: usize) -> (found: Option<usize>)
    requires
        clusters_ordered(glyphs@, dir),
    ensures
        match found {
            Some(i) => i < glyphs@.len() && glyphs@[i as int].cluster == cluster,
            None => !has_cluster(glyphs@, cluster as int),
        },
{
    let ltr = dir.is_positive();
    let mut lo: usize = 0;
    let mut hi: usize = glyphs.len();
    while lo < hi
        invariant
            lo <= hi <= glyphs@.len(),
            ltr == (dir == Dir::LTR),
            clusters_ordered(glyphs@, dir),
            forall|k: int| 0 <= k < lo ==> (#[trigger] glyphs@[k]).cluster != cluster,
            forall|k: int| hi <= k < glyphs@.len() ==> (#[trigger] glyphs@[k]).cluster != cluster,
        decreases hi - lo,
    {
        let mid = lo + (hi - lo) / 2;
        let here = glyphs[mid].cluster;
        if here == cluster {
            return Some(mid);
        }
        let before = if ltr {
            here < cluster
        } else {
            here > cluster
        };
        if before {
            assert forall|k: int| 0 <= k < mid + 1 implies (#[trigger] glyphs@[k]).cluster != cluster by {
                assert(if dir == Dir::LTR {
                    glyphs@[k].cluster <= glyphs@[mid as int].cluster
                } else {
                    glyphs@[k].cluster >= glyphs@[mid as int].cluster
                });
            }
            lo = mid + 1;
        } else {
            assert forall|k: int| mid <= k < glyphs@.len() implies (#[trigger] glyphs@[k]).cluster
                != cluster by {
                assert(if dir == Dir::LTR {
                    glyphs@[mid as int].cluster <= glyphs@[k].cluster
                } else {
                    glyphs@[mid as int].cluster >= glyphs@[k].cluster
                });
            }
            hi = mid;
        }
    }
    None
}

impl<'a> ShapedText<'a> {
    /// Whether the run is well formed: the clusters of its glyphs run the
    /// way of its direction.
    pub open spec fn wf(&self) -> bool {
        clusters_ordered(self.glyphs@, self.dir)
    }

    /// How many bytes the text of the run has.
    pub open spec fn text_len(&self) -> int {
        encode_utf8(self.text@).len() as int
    }

    /// The place among the glyphs where the text can be cut at byte
    /// `text_index`, going toward a side among glyphs of one cluster, if it
    /// is safe to cut there.
    ///
    /// The start of the text is the left end of the glyphs from left to
    /// right and their right end from right to left; the end of the text is
    /// the other end. At another byte there must be a glyph with that
    /// cluster; the place is that of the outermost such glyph toward the
    /// side, from right to left the place after it; and there must be a
    /// glyph at the place that is safe to break before.
    pub open spec fn spec_find(&self, text_index: int, towards: Side) -> Option<int> {
        let ltr = self.dir == Dir::LTR;
        let glyphs = self.glyphs@;
        if text_index == 0 {
            Some(
                if ltr {
                    0int
                } else {
                    glyphs.len() as int
                },
            )
        } else if text_index == self.text_len() {
            Some(
                if ltr {
                    glyphs.len() as int
                } else {
                    0int
                },
            )
        } else if !has_cluster(glyphs, text_index) {
            None
        } else {
            let idx = outermost(glyphs, text_index, towards) + if ltr {
                0int
            } else {
                1int
            };
            if idx < glyphs.len() && glyphs[idx].safe_to_break {
                Some(idx)
            } else {
                None
            }
        }
    }

    /// The places among the glyphs between which the glyphs for the bytes
    /// `start..end` of the text lie, if it is safe to cut at both. From
    /// right to left the glyphs run against the text, so the left place is
    /// sought for the end and the right place for the start.
    pub open spec fn spec_slice(&self, start: int, end: int) -> Option<(int, int)> {
        let (first, second) = if self.dir == Dir::LTR {
            (start, end)
        } else {
            (end, start)
        };
        match (self.spec_find(first, Side::Left), self.spec_find(second, Side::Right)) {
            (Some(left), Some(right)) => Some((left, right)),
            _ => None,
        }
    }

    /// The whole of a text that is not empty can be cut out of its run in
    /// either direction, and what is cut out is all the glyphs.
    pub proof fn lemma_slice_whole(&self)
        requires
            self.text_len() > 0,
        ensures
            self.spec_slice(0, self.text_len()) == Some((0int, self.glyphs@.len() as int)),
    {
    }

    /// Finds the place among the glyphs where the text can be cut at byte
    /// `text_index`, going toward a side among glyphs of one cluster, if it
    /// is safe to cut there.
    pub fn find_safe_to_break(&self, text_index: usize, towards: Side) -> (found: Option<usize>)
        requires
            self.wf(),
        ensures
            match found {
                Some(idx) => self.spec_find(text_index as int, towards) == Some(idx as int),
                None => self.spec_find(text_index as int, towards) is None,
            },
            found matches Some(idx) ==> idx <= self.glyphs@.len(),
            found matches Some(idx) ==> text_index == 0 || text_index == self.text_len()
                || is_outermost(
                self.glyphs@,
                text_index as int,
                towards,
                idx - if self.dir == Dir::LTR {
                    0int
                } else {
                    1int
                },
            ),
    {
        let ltr = self.dir.is_positive();
        let glyphs = self.glyphs.as_slice();
        let len = glyphs.len();
        let whole = self.text.as_str();
        proof {
            lemma_view_of_bytes(whole);
        }
        if text_index == 0 {
            return Some(
                if ltr {
                    0
                } else {
                    len
                },
            );
        } else if text_index == byte_len(whole) {
            return Some(
                if ltr {
                    len
                } else {
                    0
                },
            );
        }
        let mut idx = match find_cluster(glyphs, self.dir, text_index) {
            Some(idx) => idx,
            None => {
                return None;
            },
        };
        match towards {
            Side::Left => {
                while idx > 0 && glyphs[idx - 1].cluster == text_index
                    invariant
                        idx < glyphs@.len(),
                        glyphs@[idx as int].cluster == text_index,
                    decreases idx,
                {
                    idx -= 1;
                }
            },
            Side::Right => {
                while idx + 1 < len && glyphs[idx + 1].cluster == text_index
                    invariant
                        idx < glyphs@.len(),
                        len == glyphs@.len(),
                        glyphs@[idx as int].cluster == text_index,
                    decreases glyphs@.len() - idx,
                {
                    idx += 1;
                }
            },
        }
        proof {
            let all = self.glyphs@;
            assert forall|j: int| 0 <= j < all.len() && (#[trigger] all[j]).cluster
                == text_index implies match towards {
                Side::Left => idx <= j,
                Side::Right => j <= idx,
            } by {
                match towards {
                    Side::Left => {
                        if j < idx {
                            assert(if self.dir == Dir::LTR {
                                all[j].cluster <= all[idx - 1].cluster
                            } else {
                                all[j].cluster >= all[idx - 1].cluster
                            });
                            assert(if self.dir == Dir::LTR {
                                all[idx - 1].cluster <= all[idx as int].cluster
                            } else {
                                all[idx - 1].cluster >= all[idx as int].cluster
                            });
                        }
                    },
                    Side::Right => {
                        if j > idx {
                            assert(if self.dir == Dir::LTR {
                                all[idx + 1].cluster <= all[j].cluster
                            } else {
                                all[idx + 1].cluster >= all[j].cluster
                            });
                            assert(if self.dir == Dir::LTR {
                                all[idx as int].cluster <= all[idx + 1].cluster
                            } else {
                                all[idx as int].cluster >= all[idx + 1].cluster
                            });
                        }
                    },
                }
            }
            assert(is_outermost(all, text_index as int, towards, idx as int));
            assert(has_cluster(all, text_index as int));
            lemma_outermost_unique(
                all,
                text_index as int,
                towards,
                idx as int,
                outermost(all, text_index as int, towards),
            );
        }
        // From right to left the text starts at the right: the place is the
        // one after the glyph.
        if !ltr {
            idx += 1;
        }
        if idx < len && glyphs[idx].safe_to_break {
            Some(idx)
        } else {
            None
        }
    }

    /// Finds the glyphs for the bytes `text_range` of the text, if it is
    /// safe to cut the text at both ends of the range.
    pub fn slice_safe_to_break(&self, text_range: Range<usize>) -> (found: Option<&[ShapedGlyph]>)
        requires
            self.wf(),
            text_range.start <= text_range.end <= self.text_len(),
        ensures
            match found {
                Some(part) => self.spec_slice(text_range.start as int, text_range.end as int) matches Some(
                    (left, right),
                ) && 0 <= left <= right <= self.glyphs@.len() && part@ == self.glyphs@.subrange(
                    left,
                    right,
                ),
                None => self.spec_slice(text_range.start as int, text_range.end as int) is None,
            },
    {
        let (first, second) = if self.dir.is_positive() {
            (text_range.start, text_range.end)
        } else {
            (text_range.end, text_range.start)
        };
        let left = match self.find_safe_to_break(first, Side::Left) {
            Some(left) => left,
            None => {
                return None;
            },
        };
        let right = match self.find_safe_to_break(second, Side::Right) {
            Some(right) => right,
            None => {
                return None;
            },
        };
        proof {
            let all = self.glyphs@;
            let ends = first == 0 || first == self.text_len() || second == 0 || second
                == self.text_len();
            if !ends {
                let shift = if self.dir == Dir::LTR {
                    0int
                } else {
                    1int
                };
                let a = left - shift;
                let b = right - shift;
                assert(is_outermost(all, first as int, Side::Left, a));
                assert(is_outermost(all, second as int, Side::Right, b));
                if first == second {
                    assert(all[b].cluster == first);
                } else if b < a {
                    assert(if self.dir == Dir::LTR {
                        all[b].cluster <= all[a].cluster
                    } else {
                        all[b].cluster >= all[a].cluster
                    });
                }
            }
        }
        let glyphs = self.glyphs.as_slice();
        Some(vstd::slice::slice_subrange(glyphs, left, right))
    }

    /// Whether the run is well formed.
    pub fn is_well_formed(&self) -> (r: bool)
        ensures
            r == self.wf(),
    {
        let glyphs = self.glyphs.as_slice();
        let mut i: usize = 1;
        while i < glyphs.len()
            invariant
                1 <= i,
                glyphs@ == self.glyphs@,
                clusters_ordered(glyphs@.subrange(0, if i <= glyphs@.len() { i as int } else { glyphs@.len() as int }), self.dir),
            decreases glyphs@.len() - i,
        {
            let runs = match self.dir {
                Dir::LTR => glyphs[i - 1].cluster <= glyphs[i].cluster,
                Dir::RTL => glyphs[i - 1].cluster >= glyphs[i].cluster,
            };
            if !runs {
                return false;
            }
            proof {
                let head = glyphs@.subrange(0, i as int);
                let next = glyphs@.subrange(0, i + 1);
                assert forall|a: int, b: int| 0 <= a <= b < next.len() implies if self.dir == Dir::LTR {
                    next[a].cluster <= next[b].cluster
                } else {
                    next[a].cluster >= next[b].cluster
                } by {
                    if b < i {
                        assert(head[a] == next[a] && head[b] == next[b]);
                    } else if a < i {
                        assert(head[a] == next[a] && head[i - 1] == next[i - 1]);
                    }
                }
            }
            i += 1;
        }
        assert(glyphs@.subrange(0, glyphs@.len() as int) =~= glyphs@);
        true
    }

    /// How many justifiable glyphs the run has.
    pub fn justifiables(&self) -> (count: usize)
        ensures
            count == count_justifiable(self.glyphs@),
    {
        let glyphs = self.glyphs.as_slice();
        let mut count: usize = 0;
        let mut i: usize = 0;
        while i < glyphs.len()
            invariant
                i <= glyphs@.len(),
                count <= i,
                count == count_justifiable(glyphs@.subrange(0, i as int)),
            decreases glyphs@.len() - i,
        {
            assert(glyphs@.subrange(0, i + 1).drop_last() =~= glyphs@.subrange(0, i as int));
            if glyphs[i].is_justifiable() {
                count += 1;
            }
            i += 1;
        }
        assert(glyphs@.subrange(0, i as int) =~= glyphs@);
        count
    }

    /// The summed advance of the justifiable glyphs at the font size of the
    /// run: what a line has to stretch.
    pub fn stretch(&self) -> (width: Length)
        ensures
            width == justifiable_advance(self.glyphs@).spec_resolve(self.styles.size),
    {
        let glyphs = self.glyphs.as_slice();
        let mut sum = Em::zero();
        let mut i: usize = 0;
        while i < glyphs.len()
            invariant
                i <= glyphs@.len(),
                sum == justifiable_advance(glyphs@.subrange(0, i as int)),
            decreases glyphs@.len() - i,
        {
            assert(glyphs@.subrange(0, i + 1).drop_last() =~= glyphs@.subrange(0, i as int));
            if glyphs[i].is_justifiable() {
                sum = sum.plus(glyphs[i].x_advance);
            }
            i += 1;
        }
        assert(glyphs@.subrange(0, i as int) =~= glyphs@);
        sum.resolve(self.styles.size)
    }

    /// Shapes the bytes `text_range` of the text of the run anew. Where it
    /// is safe to cut the text at both ends of the range, the new run shares
    /// the glyphs of this one; otherwise the part of the text is shaped from
    /// scratch, which may need a text shaped with a face first, as `shape`.
    pub fn reshape(&'a self, fonts: &FontStore, text_range: Range<usize>, shaped: &Vec<Shaped>) -> (r:
        Result<ShapedText<'a>, Request>)
        requires
            self.wf(),
            is_text_range(encode_utf8(self.text@), text_range.start as int, text_range.end as int),
        ensures
            match self.spec_slice(text_range.start as int, text_range.end as int) {
                Some((left, right)) => {
                    &&& r matches Ok(run)
                    &&& run.wf()
                    &&& run.dir == self.dir
                    &&& run.styles == self.styles
                    &&& run.text is Borrowed
                    &&& run.text@ == decode_utf8(
                        encode_utf8(self.text@).subrange(text_range.start as int, text_range.end as int),
                    )
                    &&& run.glyphs is Borrowed
                    &&& run.glyphs@ == self.glyphs@.subrange(left, right)
                    &&& (run.size, run.baseline) == spec_measure(fonts, run.glyphs@, self.styles)
                },
                None => {
                    let part = decode_utf8(
                        encode_utf8(self.text@).subrange(text_range.start as int, text_range.end as int),
                    );
                    match r {
                        Ok(run) => {
                            &&& is_shaped(&run, fonts, part, self.styles, self.dir, views(shaped@))
                            &&& run.glyphs is Owned
                            &&& self.styles.case is None ==> run.text is Borrowed
                            &&& self.styles.case is Some ==> run.text is Owned
                        },
                        Err(request) => shaping(
                            fonts,
                            cased(self.styles, part),
                            self.styles,
                            self.dir,
                            views(shaped@),
                        ) == Outcome::Needs(request@),
                    }
                },
            },
    {
        let start = text_range.start;
        let end = text_range.end;
        let whole = self.text.as_str();
        proof {
            lemma_view_of_bytes(whole);
        }
        let piece = substr(whole, start, end);
        match self.slice_safe_to_break(text_range) {
            Some(glyphs) => {
                let (size, baseline) = measure(fonts, glyphs, self.styles);
                proof {
                    let all = self.glyphs@;
                    let part = glyphs@;
                    assert forall|i: int, j: int| 0 <= i <= j < part.len() implies if self.dir
                        == Dir::LTR {
                        part[i].cluster <= part[j].cluster
                    } else {
                        part[i].cluster >= part[j].cluster
                    } by {
                        let bounds = self.spec_slice(start as int, end as int).unwrap();
                        let left = bounds.0;
                        assert(part[i] == all[left + i] && part[j] == all[left + j]);
                    }
                }
                Ok(
                    ShapedText {
                        text: RunText::Borrowed(piece),
                        dir: self.dir,
                        styles: self.styles,
                        size,
                        baseline,
                        glyphs: RunGlyphs::Borrowed(glyphs),
                    },
                )
            },
            None => shape(fonts, piece, self.styles, self.dir, shaped),
        }
    }

    /// Adds a hyphen at the end of the run, set in the nearest face of the
    /// first family of the style that has a glyph and an advance for it.
    /// The hyphen belongs to the cluster of the last glyph, so that clusters
    /// stay in order, and the run grows wider by its advance. Where no
    /// family has such a face the run stays as it is.
    pub fn push_hyphen(&mut self, fonts: &FontStore)
        requires
            old(self).wf(),
        ensures
            final(self).wf(),
            final(self).text == old(self).text,
            final(self).dir == old(self).dir,
            final(self).styles == old(self).styles,
            final(self).baseline == old(self).baseline,
            final(self).size.y == old(self).size.y,
            old(self).glyphs@.len() > 0 && clusters_within(old(self).glyphs@, encode_utf8(old(self).text@))
                ==> clusters_within(final(self).glyphs@, encode_utf8(old(self).text@)),
            match hyphen_face(fonts, old(self).styles) {
                Some((_, id)) => {
                    let hyphen = hyphen_of(fonts, id)->0;
                    &&& final(self).glyphs@ == old(self).glyphs@.push(
                        hyphen_glyph(id, hyphen.0, hyphen.1, last_cluster(old(self).glyphs@)),
                    )
                    &&& final(self).size.x == old(self).size.x.spec_plus(
                        hyphen.1.spec_resolve(old(self).styles.size),
                    )
                    &&& final(self).glyphs is Owned
                },
                None => final(self).glyphs == old(self).glyphs && final(self).size == old(self).size,
            },
    {
        let styles = self.styles;
        let wanted = variant(styles);
        let list = families(styles);
        let ghost all = spec_families(styles);
        let ghost ok = has_hyphen(fonts);
        let mut i: usize = 0;
        while i < list.len()
            invariant
                i <= list@.len(),
                names(list@) == all,
                all == spec_families(styles),
                wanted == spec_variant(styles),
                ok == has_hyphen(fonts),
                styles == old(self).styles,
                *self == *old(self),
                old(self).wf(),
                first_family(fonts, all, wanted, 0, ok) == first_family(fonts, all, wanted, i as int, ok),
            decreases list@.len() - i,
        {
            assert(all[i as int] == list@[i as int]@);
            let ghost tried = fonts.spec_select(all[i as int], wanted);
            if let Some(face_id) = fonts.select(list[i], wanted) {
                let face = fonts.get(face_id);
                if let Some(glyph_id) = face.glyph_index('-') {
                    if let Some(x_advance) = face.advance(glyph_id) {
                        assert(hyphen_of(fonts, face_id) == Some((glyph_id, x_advance)));
                        assert(ok(face_id));
                        let glyphs = self.glyphs.as_slice();
                        let cluster = if glyphs.len() > 0 {
                            glyphs[glyphs.len() - 1].cluster
                        } else {
                            0
                        };
                        let glyph = ShapedGlyph {
                            face_id,
                            glyph_id,
                            x_advance,
                            x_offset: Em::zero(),
                            cluster,
                            safe_to_break: true,
                            c: '-',
                        };
                        self.size.x = self.size.x.plus(x_advance.resolve(styles.size));
                        self.glyphs.push(glyph);
                        proof {
                            let before = old(self).glyphs@;
                            let after = self.glyphs@;
                            let bytes = encode_utf8(old(self).text@);
                            if before.len() > 0 && clusters_within(before, bytes) {
                                assert forall|k: int| 0 <= k < after.len() implies (#[trigger] after[k]).cluster
                                    < bytes.len() && vstd::utf8::is_char_boundary(
                                    bytes,
                                    after[k].cluster as int,
                                ) by {
                                    if k < before.len() {
                                        assert(after[k] == before[k]);
                                    } else {
                                        assert(after[k].cluster == before[before.len() - 1].cluster);
                                    }
                                }
                            }
                            assert forall|a: int, b: int| 0 <= a <= b < after.len() implies if self.dir
                                == Dir::LTR {
                                after[a].cluster <= after[b].cluster
                            } else {
                                after[a].cluster >= after[b].cluster
                            } by {
                                if b < before.len() {
                                    assert(after[a] == before[a] && after[b] == before[b]);
                                } else if a < before.len() {
                                    assert(after[a] == before[a]);
                                    assert(if self.dir == Dir::LTR {
                                        before[a].cluster <= before[before.len() - 1].cluster
                                    } else {
                                        before[a].cluster >= before[before.len() - 1].cluster
                                    });
                                }
                            }
                        }
                        return ;
                    }
                }
                assert(!ok(face_id));
            }
            i += 1;
        }
    }

    /// Builds the frame of the run. Glyphs that follow one another in one
    /// face make one text, placed at the pen on the baseline; each line of
    /// the style is placed after the text it runs along, with the width of
    /// that text; and the pen moves on by that width. Every justifiable
    /// glyph is given `justification` more advance, and the frame is that
    /// much wider for it. A link of the style becomes that of the frame.
    pub fn build(&self, justification: Length) -> (frame: Frame)
        ensures
            frame.size.x == widened(self.size.x, justification, count_justifiable(self.glyphs@)),
            frame.size.y == self.size.y,
            frame.baseline == Some(self.baseline),
            frame.link == self.styles.link,
            frame.placed() == built(
                self.glyphs@,
                0,
                Length { raw: 0 },
                self.baseline,
                self.styles,
                justification,
            ),
    {
        let styles = self.styles;
        let glyphs = self.glyphs.as_slice();
        let size = styles.size;
        let baseline = self.baseline;
        let extra = Em::from_length(justification, size);
        let mut frame = Frame::new(self.size);
        frame.baseline = Some(baseline);
        let ghost goal = built(glyphs@, 0, Length { raw: 0 }, baseline, styles, justification);
        let mut offset = Length::zero();
        let mut start: usize = 0;
        assert(frame.placed() =~= Seq::empty());
        assert(glyphs@.subrange(0, 0) =~= Seq::empty());
        while start < glyphs.len()
            invariant
                start <= glyphs@.len(),
                size == styles.size,
                extra == Em::spec_from_length(justification, size),
                frame.size.y == self.size.y,
                frame.baseline == Some(baseline),
                frame.link is None,
                frame.size.x == widened(
                    self.size.x,
                    justification,
                    count_justifiable(glyphs@.subrange(0, start as int)),
                ),
                goal == frame.placed() + built(
                    glyphs@,
                    start as int,
                    offset,
                    baseline,
                    styles,
                    justification,
                ),
            decreases glyphs@.len() - start,
        {
            let face_id = glyphs[start].face_id;
            let pos = Point::new(offset, baseline);
            let ghost before = frame.placed();
            let mut wide = frame.size.x;
            let mut group: Vec<Glyph> = Vec::new();
            let mut i: usize = start;
            assert(group@ =~= frame_glyphs(
                glyphs@.subrange(start as int, start as int),
                justification,
                size,
            ));
            while i < glyphs.len() && glyphs[i].face_id == face_id
                invariant
                    start <= i <= glyphs@.len(),
                    start < glyphs@.len(),
                    glyphs@[start as int].face_id == face_id,
                    extra == Em::spec_from_length(justification, size),
                    wide == widened(
                        self.size.x,
                        justification,
                        count_justifiable(glyphs@.subrange(0, i as int)),
                    ),
                    group@ == frame_glyphs(glyphs@.subrange(start as int, i as int), justification, size),
                    i > start ==> group_end(glyphs@, face_id, start + 1) == group_end(
                        glyphs@,
                        face_id,
                        i as int,
                    ),
                decreases glyphs@.len() - i,
            {
                let glyph = glyphs[i];
                let bonus = if glyph.is_justifiable() {
                    wide = wide.plus(justification);
                    extra
                } else {
                    Em::zero()
                };
                group.push(
                    Glyph {
                        id: glyph.glyph_id,
                        x_advance: glyph.x_advance.plus(bonus),
                        x_offset: glyph.x_offset,
                    },
                );
                proof {
                    assert(glyphs@.subrange(0, i + 1).drop_last() =~= glyphs@.subrange(0, i as int));
                    assert(group@ =~= frame_glyphs(
                        glyphs@.subrange(start as int, i + 1),
                        justification,
                        size,
                    ));
                }
                i += 1;
            }
            let ghost end = group_end(glyphs@, face_id, start + 1);
            assert(i == end);
            frame.size.x = wide;
            let text = Text { face_id, size, fill: styles.fill, glyphs: group };
            let width = text.width();
            let ghost first = (
                pos,
                Placed::Text { face_id, size, fill: styles.fill, glyphs: group@ },
            );
            frame.push(pos, Element::Text(text));
            let mut k: usize = 0;
            assert(decorations(styles.deco@, pos, width).subrange(0, 0) =~= Seq::empty());
            assert(frame.placed() =~= before + seq![first] + decorations(
                styles.deco@,
                pos,
                width,
            ).subrange(0, 0));
            while k < styles.deco.len()
                invariant
                    k <= styles.deco@.len(),
                    frame.size.y == self.size.y,
                    frame.size.x == wide,
                    frame.baseline == Some(baseline),
                    frame.link is None,
                    frame.placed() == before + seq![first] + decorations(
                        styles.deco@,
                        pos,
                        width,
                    ).subrange(0, k as int),
                decreases styles.deco@.len() - k,
            {
                frame.push(pos, Element::Decoration { deco: styles.deco[k], width });
                assert(frame.placed() =~= before + seq![first] + decorations(
                    styles.deco@,
                    pos,
                    width,
                ).subrange(0, k + 1));
                k += 1;
            }
            proof {
                let lines = decorations(styles.deco@, pos, width);
                assert(lines.subrange(0, k as int) =~= lines);
                let rest = built(glyphs@, end, offset.spec_plus(width), baseline, styles, justification);
                assert(built(glyphs@, start as int, offset, baseline, styles, justification) == seq![first]
                    + lines + rest);
                assert(before + (seq![first] + lines + rest) =~= before + seq![first] + lines + rest);
            }
            offset = offset.plus(width);
            start = i;
        }
        assert(glyphs@.subrange(0, start as int) =~= glyphs@);
        assert(frame.placed() + Seq::<(Point, Placed)>::empty() =~= frame.placed());
        match &styles.link {
            Some(url) => {
                frame.link(url.clone());
            },
            None => {},
        }
        frame
    }
}

} // verus!

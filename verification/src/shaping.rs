//! Shaping text into runs of positioned glyphs.

use vstd::prelude::*;
use vstd::string::StringSliceAdditionalSpecFns;
use vstd::utf8::{decode_utf8, encode_utf8, is_char_boundary, valid_utf8};

use crate::font::{Face, FaceId, FontStore, FontVariant};
use crate::geom::Em;
use crate::shaper::{
    answer, find_answer, is_usable, usable, views, RawGlyph, Request, Shaped, ShapedView, Wanted,
};
use crate::style::{names, Dir, Feature, TextStyle};
use crate::text::{
    all_blank, byte_len, char_at, char_at_byte, char_end, char_width, is_text_range,
    lemma_boundary_in_range, lemma_char_in_range, lemma_char_step, lemma_empty_text,
    lemma_view_of_bytes, spec_all_blank, substr,
};

verus! {

/// A single glyph resulting from shaping.
#[derive(Clone, Copy, Debug, PartialEq, Eq, Structural)]
pub struct ShapedGlyph {
    /// The face that the glyph is of.
    pub face_id: FaceId,
    /// The number of the glyph in its face; zero for the placeholder that
    /// stands where no face has a glyph.
    pub glyph_id: u16,
    /// The advance width of the glyph.
    pub x_advance: Em,
    /// The horizontal offset of the glyph.
    pub x_offset: Em,
    /// The byte offset in the text of the cluster that the glyph belongs to.
    pub cluster: usize,
    /// Whether the text can be shaped in two parts cut before this glyph's
    /// cluster with the same result.
    pub safe_to_break: bool,
    /// The first character of the glyph's cluster.
    pub c: char,
}

impl ShapedGlyph {
    pub open spec fn spec_is_space(&self) -> bool {
        self.c == ' '
    }

    pub open spec fn spec_is_justifiable(&self) -> bool {
        self.c == ' ' || self.c == '\u{ff0c}' || self.c == '\u{3000}' || self.c == '\u{3002}'
            || self.c == '\u{3001}'
    }

    /// Whether the glyph is a space.
    pub fn is_space(&self) -> (r: bool)
        ensures
            r == self.spec_is_space(),
    {
        self.c == ' '
    }

    /// Whether the glyph may be widened to justify a line: a space, or one
    /// of the fullwidth comma, ideographic space, ideographic full stop and
    /// ideographic comma.
    pub fn is_justifiable(&self) -> (r: bool)
        ensures
            r == self.spec_is_justifiable(),
    {
        self.c == ' ' || self.c == '\u{ff0c}' || self.c == '\u{3000}' || self.c == '\u{3002}'
            || self.c == '\u{3001}'
    }
}

/// Whether the clusters of the glyphs run the way of the direction: never
/// down from left to right, never up from right to left.
pub open spec fn clusters_ordered(glyphs: Seq<ShapedGlyph>, dir: Dir) -> bool {
    forall|i: int, j: int|
        0 <= i <= j < glyphs.len() ==> if dir == Dir::LTR {
            glyphs[i].cluster <= glyphs[j].cluster
        } else {
            glyphs[i].cluster >= glyphs[j].cluster
        }
}

/// What one call of the shaping engine works with and does not change.
pub struct ShapingSetup<'a> {
    pub fonts: &'a FontStore,
    pub styles: &'a TextStyle,
    /// The families to try, the most wanted first.
    pub families: Vec<&'a str>,
    pub variant: FontVariant,
    pub tags: Vec<Feature>,
    /// Whether faces beyond those of the families may be used.
    pub fallback: bool,
    pub dir: Dir,
    /// What the shaper made of the texts asked for so far.
    pub shaped: &'a Vec<Shaped>,
}

/// What shaping depends on, as plain values: the store, the style, the
/// families by name, the variant, the feature settings, whether fallback is
/// on, the direction, and the shaper's results.
pub struct Setup {
    pub fonts: FontStore,
    pub styles: TextStyle,
    pub families: Seq<Seq<char>>,
    pub variant: FontVariant,
    pub tags: Seq<Feature>,
    pub fallback: bool,
    pub dir: Dir,
    pub shaped: Seq<ShapedView>,
}

/// What shaping comes to: the glyphs, or the text that must be shaped with
/// a face first.
pub enum Outcome {
    Done(Seq<ShapedGlyph>),
    Needs(Wanted),
}

impl<'a> View for ShapingSetup<'a> {
    type V = Setup;

    open spec fn view(&self) -> Setup {
        Setup {
            fonts: *self.fonts,
            styles: *self.styles,
            families: names(self.families@),
            variant: self.variant,
            tags: self.tags@,
            fallback: self.fallback,
            dir: self.dir,
            shaped: views(self.shaped@),
        }
    }
}

/// The state of one call of the shaping engine.
pub struct ShapingContext<'a> {
    pub setup: ShapingSetup<'a>,
    /// The glyphs shaped so far, in visual order.
    pub glyphs: Vec<ShapedGlyph>,
    /// The faces that the segments being shaped are set in, the outermost
    /// first.
    pub used: Vec<FaceId>,
}

/// Whether the faces in use are faces of the store, no face twice.
pub open spec fn used_ok(fonts: &FontStore, used: Seq<FaceId>) -> bool {
    &&& used.no_duplicates()
    &&& forall|i: int| 0 <= i < used.len() ==> (#[trigger] used[i]).0 < fonts.faces@.len()
}

/// The first family from place `from` on whose nearest face satisfies `ok`,
/// as the place of the family and the face.
pub open spec fn first_family(
    fonts: &FontStore,
    families: Seq<Seq<char>>,
    variant: FontVariant,
    from: int,
    ok: spec_fn(FaceId) -> bool,
) -> Option<(int, FaceId)>
    decreases families.len() - from,
{
    if from < 0 || from >= families.len() {
        None
    } else {
        match fonts.spec_select(families[from], variant) {
            Some(id) if ok(id) => Some((from, id)),
            _ => first_family(fonts, families, variant, from + 1, ok),
        }
    }
}

/// The test that a face is not in use.
pub open spec fn not_in(used: Seq<FaceId>) -> spec_fn(FaceId) -> bool {
    |id: FaceId| !used.contains(id)
}

/// The face to set a segment in, and the place of the first family not yet
/// tried: the nearest face of the first family from `from` on that has one
/// which is not in use; failing that, where fallback is on, the face that
/// the store offers for the text, unless it is in use.
pub open spec fn pick(setup: Setup, used: Seq<FaceId>, text: Seq<char>, from: int) -> Option<
    (FaceId, int),
> {
    match first_family(&setup.fonts, setup.families, setup.variant, from, not_in(used)) {
        Some((place, id)) => Some((id, place + 1)),
        None => if setup.fallback {
            let like = if used.len() > 0 {
                Some(used[0])
            } else {
                None
            };
            match setup.fonts.spec_select_fallback(like, setup.variant, text) {
                Some(id) if !used.contains(id) => Some((id, setup.families.len() as int)),
                _ => None,
            }
        } else {
            None
        },
    }
}

/// The placeholder glyph for the character `c` at byte `cluster`.
pub open spec fn tofu(face_id: FaceId, advance: Em, cluster: int, c: char) -> ShapedGlyph {
    ShapedGlyph {
        face_id,
        glyph_id: 0,
        x_advance: advance,
        x_offset: Em { raw: 0 },
        cluster: cluster as usize,
        safe_to_break: true,
        c,
    }
}

/// The advance of the placeholder glyph of a face: that of its glyph zero,
/// or nothing where the face records none.
pub open spec fn tofu_advance(face: &Face) -> Em {
    match face.spec_advance(0) {
        Some(advance) => advance,
        None => Em { raw: 0 },
    }
}

/// One placeholder glyph for each character of `bytes` from byte `at` on,
/// with its cluster at the character's byte offset past `base`.
pub open spec fn tofus(face_id: FaceId, advance: Em, base: int, bytes: Seq<u8>, at: int) -> Seq<
    ShapedGlyph,
>
    recommends
        valid_utf8(bytes),
        is_char_boundary(bytes, at),
    decreases bytes.len() - at,
    when valid_utf8(bytes) && is_char_boundary(bytes, at)
{
    if at < 0 || at >= bytes.len() {
        Seq::empty()
    } else {
        proof {
            lemma_char_step(bytes, at);
        }
        seq![tofu(face_id, advance, base + at, char_at(bytes, at))] + tofus(
            face_id,
            advance,
            base,
            bytes,
            at + char_width(bytes, at),
        )
    }
}

/// One placeholder glyph for each character of `bytes`, in visual order:
/// in the order of the text from left to right, against it from right to
/// left.
pub open spec fn visual_tofus(face_id: FaceId, advance: Em, base: int, bytes: Seq<u8>, dir: Dir) -> Seq<
    ShapedGlyph,
> {
    if dir == Dir::LTR {
        tofus(face_id, advance, base, bytes, 0)
    } else {
        tofus(face_id, advance, base, bytes, 0).reverse()
    }
}

/// The glyph that a face's shaped glyph becomes in a run whose text starts
/// `base` bytes into the whole text.
pub open spec fn shaped_glyph(face_id: FaceId, face: &Face, raw: RawGlyph, base: int, bytes: Seq<u8>) -> ShapedGlyph {
    ShapedGlyph {
        face_id,
        glyph_id: raw.glyph_id as u16,
        x_advance: face.spec_to_em(raw.x_advance as int),
        x_offset: face.spec_to_em(raw.x_offset as int),
        cluster: (base + raw.cluster) as usize,
        safe_to_break: !raw.unsafe_to_break,
        c: char_at(bytes, raw.cluster as int),
    }
}

/// The place of the last of the glyphs without a face glyph that follow one
/// another from place `i` on.
pub open spec fn tofu_end(infos: Seq<RawGlyph>, i: int) -> int
    decreases infos.len() - i,
{
    if 0 <= i && i + 1 < infos.len() && infos[i + 1].glyph_id == 0 {
        tofu_end(infos, i + 1)
    } else {
        i
    }
}

/// The bytes of the text that the glyphs at places `k` to `i` stand for, as
/// start and end. Clusters follow the text while glyphs follow the eye: left
/// to right the bytes start at the cluster of the first glyph and end at
/// that of the glyph after the last; right to left they start at the
/// cluster of the last glyph and end at that of the glyph before the first.
/// Where there is no such neighbour they end with the text.
pub open spec fn tofu_range(infos: Seq<RawGlyph>, k: int, i: int, dir: Dir, len: int) -> (int, int) {
    if dir == Dir::LTR {
        (
            infos[k].cluster as int,
            if i + 1 < infos.len() {
                infos[i + 1].cluster as int
            } else {
                len
            },
        )
    } else {
        (
            infos[i].cluster as int,
            if k > 0 {
                infos[k - 1].cluster as int
            } else {
                len
            },
        )
    }
}

/// The glyphs without those at the end whose cluster lies in `lo..hi`.
pub open spec fn trimmed(glyphs: Seq<ShapedGlyph>, lo: int, hi: int) -> Seq<ShapedGlyph>
    decreases glyphs.len(),
{
    if glyphs.len() > 0 && lo <= glyphs.last().cluster < hi {
        trimmed(glyphs.drop_last(), lo, hi)
    } else {
        glyphs
    }
}

/// The glyphs without a face glyph that follow one another from a place on
/// end at that place or after it, among the glyphs.
pub proof fn lemma_tofu_end(infos: Seq<RawGlyph>, i: int)
    requires
        0 <= i < infos.len(),
    ensures
        i <= tofu_end(infos, i) < infos.len(),
    decreases infos.len() - i,
{
    if i + 1 < infos.len() && infos[i + 1].glyph_id == 0 {
        lemma_tofu_end(infos, i + 1);
    }
}

/// The glyphs with the segment `text` set in placeholders of the outermost
/// face in use, in visual order; the glyphs as they are where no face is in
/// use.
pub open spec fn with_tofus(
    setup: Setup,
    used: Seq<FaceId>,
    glyphs: Seq<ShapedGlyph>,
    base: int,
    text: Seq<char>,
) -> Seq<ShapedGlyph> {
    if used.len() > 0 && used[0].0 < setup.fonts.faces@.len() {
        glyphs + visual_tofus(
            used[0],
            tofu_advance(&setup.fonts.faces@[used[0].0 as int]),
            base,
            encode_utf8(text),
            setup.dir,
        )
    } else {
        glyphs
    }
}

/// What shaping the segment `text`, which starts `base` bytes into the
/// whole text, comes to: the glyphs with what the segment gives added to
/// `glyphs`, or the text that must be shaped first.
///
/// A segment of nothing but line feeds and tabs gives no glyphs. Otherwise a
/// face is picked. Where there is none, the segment is set in placeholders
/// of the outermost face in use, in visual order, or gives nothing where no
/// face is in use. Where there is one, what the shaper made of the segment
/// with it is looked up among the shaper's results. If it is not there, the
/// segment must be shaped with the face first. If it is there, the shaper's
/// glyphs are gone through in order; but if the shaper could not read the
/// font, or its glyphs do not describe the segment, the segment is set in
/// placeholders as if no face had been picked.
///
/// A face is only ever picked while fewer faces are in use than the store
/// holds. That holds of itself whenever the faces in use are different faces
/// of the store, as they are throughout shaping; it is stated so that the
/// definition is well founded.
#[verifier::opaque]
pub open spec fn segment(
    setup: Setup,
    used: Seq<FaceId>,
    glyphs: Seq<ShapedGlyph>,
    base: int,
    text: Seq<char>,
    from: int,
) -> Outcome
    decreases setup.fonts.faces@.len() - used.len(), 0int, 0int,
{
    if spec_all_blank(text) {
        Outcome::Done(glyphs)
    } else {
        match pick(setup, used, text, from) {
            None => Outcome::Done(with_tofus(setup, used, glyphs, base, text)),
            Some((face_id, next)) => if used.len() < setup.fonts.faces@.len() && face_id.0
                < setup.fonts.faces@.len() {
                match answer(setup.shaped, face_id, text) {
                    None => Outcome::Needs(Wanted { face_id, text }),
                    Some(Some(infos)) => if usable(infos, encode_utf8(text), setup.dir) {
                        collected(setup, used.push(face_id), glyphs, base, text, next, face_id, infos, 0)
                    } else {
                        Outcome::Done(with_tofus(setup, used, glyphs, base, text))
                    },
                    Some(None) => Outcome::Done(with_tofus(setup, used, glyphs, base, text)),
                }
            } else {
                Outcome::Done(glyphs)
            },
        }
    }
}

/// What going through the shaper's glyphs `infos` from place `i` on comes
/// to, for the segment `text` set in the face `face_id`.
///
/// A glyph of the face is added as it is. Glyphs without a face glyph are
/// taken together as far as they follow one another; the glyphs already
/// added for the bytes they stand for are taken back, and those bytes are
/// shaped as a segment of their own with the families not yet tried. Where
/// that segment must be shaped first, so must it here.
#[verifier::opaque]
pub open spec fn collected(
    setup: Setup,
    used: Seq<FaceId>,
    glyphs: Seq<ShapedGlyph>,
    base: int,
    text: Seq<char>,
    next: int,
    face_id: FaceId,
    infos: Seq<RawGlyph>,
    i: int,
) -> Outcome
    decreases setup.fonts.faces@.len() - used.len(), 1int, infos.len() - i,
{
    let bytes = encode_utf8(text);
    if i < 0 || i >= infos.len() {
        Outcome::Done(glyphs)
    } else if infos[i].glyph_id != 0 {
        let face = setup.fonts.faces@[face_id.0 as int];
        collected(
            setup,
            used,
            glyphs.push(shaped_glyph(face_id, &face, infos[i], base, bytes)),
            base,
            text,
            next,
            face_id,
            infos,
            i + 1,
        )
    } else {
        let last = tofu_end(infos, i);
        let range = tofu_range(infos, i, last, setup.dir, bytes.len() as int);
        let kept = trimmed(glyphs, base + range.0, base + range.1);
        proof {
            lemma_tofu_end(infos, i);
        }
        match segment(
            setup,
            used,
            kept,
            base + range.0,
            decode_utf8(bytes.subrange(range.0, range.1)),
            next,
        ) {
            Outcome::Done(after) => collected(
                setup,
                used,
                after,
                base,
                text,
                next,
                face_id,
                infos,
                last + 1,
            ),
            Outcome::Needs(wanted) => Outcome::Needs(wanted),
        }
    }
}

/// Whether the glyph stands for a character of the segment `bytes`, which
/// starts `base` bytes into the whole text: its cluster is where a character
/// of the segment starts, and `c` is that character.
pub open spec fn placed(glyph: ShapedGlyph, base: int, bytes: Seq<u8>) -> bool {
    &&& base <= glyph.cluster < base + bytes.len()
    &&& is_char_boundary(bytes, glyph.cluster - base)
    &&& glyph.c == char_at(bytes, glyph.cluster - base)
}

/// Whether the glyph is of a face that was not in use, or is a placeholder
/// of the outermost face in use.
pub open spec fn fresh(glyph: ShapedGlyph, used: Seq<FaceId>) -> bool {
    ||| !used.contains(glyph.face_id)
    ||| (glyph.glyph_id == 0 && used.len() > 0 && glyph.face_id == used[0])
}

/// Whether `after` is `before` with glyphs added that stand for characters
/// of the segment and are fresh.
pub open spec fn extended(
    before: Seq<ShapedGlyph>,
    after: Seq<ShapedGlyph>,
    base: int,
    bytes: Seq<u8>,
    used: Seq<FaceId>,
) -> bool {
    &&& before.len() <= after.len()
    &&& after.subrange(0, before.len() as int) == before
    &&& forall|k: int|
        before.len() <= k < after.len() ==> placed(#[trigger] after[k], base, bytes) && fresh(
            after[k],
            used,
        )
}

/// Whether all the glyphs lie before the bytes `lo..hi` in visual order:
/// below them from left to right, above them from right to left.
pub open spec fn set_before(glyphs: Seq<ShapedGlyph>, dir: Dir, lo: int, hi: int) -> bool {
    forall|k: int|
        0 <= k < glyphs.len() ==> if dir == Dir::LTR {
            (#[trigger] glyphs[k]).cluster < lo
        } else {
            glyphs[k].cluster >= hi
        }
}

/// Different faces of a store are no more than the store holds.
pub proof fn lemma_used_bounded(used: Seq<FaceId>, n: nat)
    requires
        used.no_duplicates(),
        forall|i: int| 0 <= i < used.len() ==> (#[trigger] used[i]).0 < n,
    ensures
        used.len() <= n,
    decreases n,
{
    if n == 0 {
        if used.len() > 0 {
            assert(used[0].0 < n);
        }
    } else {
        let top = FaceId((n - 1) as usize);
        if used.contains(top) {
            let k = choose|k: int| 0 <= k < used.len() && used[k] == top;
            let rest = used.remove(k);
            assert forall|i: int| 0 <= i < rest.len() implies (#[trigger] rest[i]).0 < n - 1 by {
                if i < k {
                    assert(rest[i] == used[i]);
                    assert(used[i] != used[k]);
                } else {
                    assert(rest[i] == used[i + 1]);
                    assert(used[i + 1] != used[k]);
                }
                assert(rest[i].0 < n);
            }
            assert(rest.no_duplicates()) by {
                assert forall|a: int, b: int| 0 <= a < rest.len() && 0 <= b < rest.len() && a != b implies rest[a]
                    != rest[b] by {
                    let a2 = if a < k { a } else { a + 1 };
                    let b2 = if b < k { b } else { b + 1 };
                    assert(rest[a] == used[a2] && rest[b] == used[b2]);
                }
            }
            lemma_used_bounded(rest, (n - 1) as nat);
        } else {
            assert forall|i: int| 0 <= i < used.len() implies (#[trigger] used[i]).0 < n - 1 by {
                assert(used[i].0 < n);
                if used[i].0 == n - 1 {
                    assert(used[i] == top);
                }
            }
            lemma_used_bounded(used, (n - 1) as nat);
        }
    }
}

/// The first family found lies at or after the place the search starts
/// from, its nearest face is a face of the store, and the face passes the
/// test.
pub proof fn lemma_first_family(
    fonts: &FontStore,
    families: Seq<Seq<char>>,
    variant: FontVariant,
    from: int,
    ok: spec_fn(FaceId) -> bool,
)
    requires
        0 <= from,
    ensures
        first_family(fonts, families, variant, from, ok) matches Some((place, id)) ==> {
            &&& from <= place < families.len()
            &&& fonts.spec_select(families[place], variant) == Some(id)
            &&& id.0 < fonts.faces@.len()
            &&& ok(id)
        },
    decreases families.len() - from,
{
    if from < families.len() {
        let request = crate::font::Request {
            family: Some(families[from]),
            covering: None,
            like: None,
            variant,
        };
        match fonts.spec_select(families[from], variant) {
            Some(id) => {
                let chosen = choose|c: int| fonts.is_best(request, c);
                assert(fonts.is_best(request, chosen));
                vstd::std_specs::vec::axiom_spec_len(&fonts.faces);
                assert(id.0 == chosen);
                if !ok(id) {
                    lemma_first_family(fonts, families, variant, from + 1, ok);
                }
            },
            None => {
                lemma_first_family(fonts, families, variant, from + 1, ok);
            },
        }
    }
}

/// A face that is picked while the faces in use are different faces of the
/// store is a face of the store that is not in use, and fewer faces are in
/// use than the store holds: what the definition of shaping a segment asks
/// of a picked face holds of itself.
pub proof fn lemma_pick(setup: Setup, used: Seq<FaceId>, text: Seq<char>, from: int)
    requires
        used_ok(&setup.fonts, used),
        0 <= from <= setup.families.len(),
    ensures
        pick(setup, used, text, from) matches Some((id, next)) ==> {
            &&& id.0 < setup.fonts.faces@.len()
            &&& !used.contains(id)
            &&& used.len() < setup.fonts.faces@.len()
            &&& from <= next <= setup.families.len()
        },
{
    lemma_first_family(&setup.fonts, setup.families, setup.variant, from, not_in(used));
    match pick(setup, used, text, from) {
        Some((id, next)) => {
            if first_family(&setup.fonts, setup.families, setup.variant, from, not_in(used)) is None {
                let like = if used.len() > 0 {
                    Some(used[0])
                } else {
                    None
                };
                let request = crate::font::Request {
                    family: None,
                    covering: Some(text[0]),
                    like: match like {
                        Some(l) if l.0 < setup.fonts.faces@.len() => Some(
                            setup.fonts.faces@[l.0 as int].family@,
                        ),
                        _ => None,
                    },
                    variant: setup.variant,
                };
                let chosen = choose|c: int| setup.fonts.is_best(request, c);
                assert(setup.fonts.is_best(request, chosen));
                vstd::std_specs::vec::axiom_spec_len(&setup.fonts.faces);
                assert(id.0 == chosen);
            }
            lemma_use_face(&setup.fonts, used, id);
        },
        None => {},
    }
}

/// Whether the face is among those in use.
fn is_used(used: &Vec<FaceId>, id: FaceId) -> (r: bool)
    ensures
        r == used@.contains(id),
{
    let mut i: usize = 0;
    while i < used.len()
        invariant
            i <= used@.len(),
            forall|k: int| 0 <= k < i ==> used@[k] != id,
        decreases used@.len() - i,
    {
        if used[i] == id {
            return true;
        }
        i += 1;
    }
    false
}

/// The face to set a segment in, and the place of the first family not yet
/// tried.
fn pick_face(ctx: &ShapingContext, text: &str, from: usize) -> (r: Option<(FaceId, usize)>)
    requires
        from <= ctx.setup.families@.len(),
    ensures
        match r {
            Some((id, next)) => {
                &&& pick(ctx.setup@, ctx.used@, text@, from as int) == Some((id, next as int))
                &&& id.0 < ctx.setup.fonts.faces@.len()
                &&& !ctx.used@.contains(id)
                &&& from <= next <= ctx.setup.families@.len()
            },
            None => pick(ctx.setup@, ctx.used@, text@, from as int) is None,
        },
{
    let fonts = ctx.setup.fonts;
    let ghost list = names(ctx.setup.families@);
    let ghost ok = not_in(ctx.used@);
    let mut j: usize = from;
    while j < ctx.setup.families.len()
        invariant
            from <= j <= ctx.setup.families@.len(),
            fonts == ctx.setup.fonts,
            list == names(ctx.setup.families@),
            ok == not_in(ctx.used@),
            first_family(fonts, list, ctx.setup.variant, from as int, ok) == first_family(
                fonts,
                list,
                ctx.setup.variant,
                j as int,
                ok,
            ),
        decreases ctx.setup.families@.len() - j,
    {
        let found = fonts.select(ctx.setup.families[j], ctx.setup.variant);
        assert(list[j as int] == ctx.setup.families@[j as int]@);
        match found {
            Some(id) => {
                if !is_used(&ctx.used, id) {
                    assert(ok(id));
                    return Some((id, j + 1));
                }
                assert(!ok(id));
            },
            None => {},
        }
        j += 1;
    }
    if ctx.setup.fallback {
        let like = if ctx.used.len() > 0 {
            Some(ctx.used[0])
        } else {
            None
        };
        match fonts.select_fallback(like, ctx.setup.variant, text) {
            Some(id) => {
                if !is_used(&ctx.used, id) {
                    return Some((id, ctx.setup.families.len()));
                }
                None
            },
            None => None,
        }
    } else {
        None
    }
}

/// What holds of the placeholder glyphs of a segment: each stands for a
/// character of the segment from byte `at` on, is a placeholder of the face,
/// and the clusters go up.
pub proof fn lemma_tofus(face_id: FaceId, advance: Em, base: int, bytes: Seq<u8>, at: int)
    requires
        valid_utf8(bytes),
        is_char_boundary(bytes, at),
        0 <= at <= bytes.len(),
        0 <= base,
        base + bytes.len() <= usize::MAX,
    ensures
        forall|k: int|
            0 <= k < tofus(face_id, advance, base, bytes, at).len() ==> {
                let g = #[trigger] tofus(face_id, advance, base, bytes, at)[k];
                &&& placed(g, base, bytes)
                &&& g.cluster >= base + at
                &&& g.glyph_id == 0
                &&& g.face_id == face_id
            },
        forall|i: int, j: int|
            0 <= i < j < tofus(face_id, advance, base, bytes, at).len() ==> tofus(
                face_id,
                advance,
                base,
                bytes,
                at,
            )[i].cluster < tofus(face_id, advance, base, bytes, at)[j].cluster,
    decreases bytes.len() - at,
{
    if at < bytes.len() {
        lemma_char_step(bytes, at);
        let next = at + char_width(bytes, at);
        lemma_tofus(face_id, advance, base, bytes, next);
        let head = tofu(face_id, advance, base + at, char_at(bytes, at));
        let rest = tofus(face_id, advance, base, bytes, next);
        let all = tofus(face_id, advance, base, bytes, at);
        assert(all == seq![head] + rest);
        assert(all[0] == head);
        assert forall|k: int| 0 <= k < all.len() implies {
            let g = #[trigger] all[k];
            &&& placed(g, base, bytes)
            &&& g.cluster >= base + at
            &&& g.glyph_id == 0
            &&& g.face_id == face_id
        } by {
            if k > 0 {
                assert(all[k] == rest[k - 1]);
            }
        }
        assert forall|i: int, j: int| 0 <= i < j < all.len() implies all[i].cluster < all[j].cluster by {
            assert(all[j] == rest[j - 1]);
            if i > 0 {
                assert(all[i] == rest[i - 1]);
            }
        }
    }
}

/// There is one placeholder glyph for each character of the text from byte
/// `at` on, in the order of the text: it has the character, the advance
/// given, no offset, and is safe to break before.
pub proof fn lemma_tofus_chars(face_id: FaceId, advance: Em, base: int, bytes: Seq<u8>, at: int)
    requires
        valid_utf8(bytes),
        is_char_boundary(bytes, at),
        0 <= at <= bytes.len(),
    ensures
        tofus(face_id, advance, base, bytes, at).len() == decode_utf8(
            bytes.subrange(at, bytes.len() as int),
        ).len(),
        forall|k: int|
            0 <= k < tofus(face_id, advance, base, bytes, at).len() ==> (#[trigger] tofus(
                face_id,
                advance,
                base,
                bytes,
                at,
            )[k]) == (ShapedGlyph {
                cluster: tofus(face_id, advance, base, bytes, at)[k].cluster,
                ..tofu(
                    face_id,
                    advance,
                    0,
                    decode_utf8(bytes.subrange(at, bytes.len() as int))[k],
                )
            }),
    decreases bytes.len() - at,
{
    let tail = bytes.subrange(at, bytes.len() as int);
    vstd::utf8::valid_utf8_split(bytes, at);
    if at < bytes.len() {
        lemma_char_step(bytes, at);
        let next = at + char_width(bytes, at);
        lemma_tofus_chars(face_id, advance, base, bytes, next);
        let rest = bytes.subrange(next, bytes.len() as int);
        assert(vstd::utf8::pop_first_scalar(tail) =~= rest);
        let all = tofus(face_id, advance, base, bytes, at);
        let more = tofus(face_id, advance, base, bytes, next);
        let chars = decode_utf8(tail);
        assert(chars == seq![char_at(bytes, at)] + decode_utf8(rest));
        assert(all == seq![tofu(face_id, advance, base + at, char_at(bytes, at))] + more);
        assert forall|k: int| 0 <= k < all.len() implies (#[trigger] all[k]) == (ShapedGlyph {
            cluster: all[k].cluster,
            ..tofu(face_id, advance, 0, chars[k])
        }) by {
            if k > 0 {
                assert(all[k] == more[k - 1]);
                assert(chars[k] == decode_utf8(rest)[k - 1]);
            }
        }
    } else {
        assert(tail =~= Seq::<u8>::empty());
    }
}

/// Sets the segment in placeholder glyphs of the face, in visual order: one
/// for each character, with the advance of the face's glyph zero, or none
/// where the face records none. The glyphs from before stay as they are.
pub fn shape_tofus(ctx: &mut ShapingContext, base: usize, text: &str, face_id: FaceId)
    requires
        face_id.0 < old(ctx).setup.fonts.faces@.len(),
        base + text.spec_bytes().len() <= usize::MAX,
    ensures
        final(ctx).setup == old(ctx).setup,
        final(ctx).used == old(ctx).used,
        final(ctx).glyphs@ == old(ctx).glyphs@ + visual_tofus(
            face_id,
            tofu_advance(&old(ctx).setup.fonts.faces@[face_id.0 as int]),
            base as int,
            text.spec_bytes(),
            old(ctx).setup.dir,
        ),
{
    let fonts = ctx.setup.fonts;
    let face = fonts.get(face_id);
    let x_advance = match face.advance(0) {
        Some(advance) => advance,
        None => Em::zero(),
    };
    let ghost bytes = text.spec_bytes();
    let ghost all = tofus(face_id, x_advance, base as int, bytes, 0);
    proof {
        lemma_view_of_bytes(text);
        vstd::utf8::is_char_boundary_start_end_of_seq(bytes);
    }
    let len = byte_len(text);
    let mut line: Vec<ShapedGlyph> = Vec::new();
    let mut at: usize = 0;
    while at < len
        invariant
            at <= len,
            len == bytes.len(),
            bytes == text.spec_bytes(),
            valid_utf8(bytes),
            is_char_boundary(bytes, at as int),
            base + len <= usize::MAX,
            all == line@ + tofus(face_id, x_advance, base as int, bytes, at as int),
        decreases len - at,
    {
        let c = char_at_byte(text, at);
        let next = char_end(text, at);
        let ghost rest = tofus(face_id, x_advance, base as int, bytes, next as int);
        let glyph = ShapedGlyph {
            face_id,
            glyph_id: 0,
            x_advance,
            x_offset: Em::zero(),
            cluster: base + at,
            safe_to_break: true,
            c,
        };
        assert(tofus(face_id, x_advance, base as int, bytes, at as int) == seq![glyph] + rest);
        line.push(glyph);
        assert(all =~= line@ + rest);
        at = next;
    }
    assert(all =~= line@);
    match ctx.setup.dir {
        Dir::LTR => {
            let ghost start = ctx.glyphs@;
            let mut i: usize = 0;
            while i < line.len()
                invariant
                    i <= line@.len(),
                    ctx.setup == old(ctx).setup,
                    ctx.used == old(ctx).used,
                    ctx.glyphs@ == start + line@.subrange(0, i as int),
                decreases line@.len() - i,
            {
                ctx.glyphs.push(line[i]);
                assert(ctx.glyphs@ =~= start + line@.subrange(0, i + 1));
                i += 1;
            }
            assert(line@.subrange(0, i as int) =~= line@);
        },
        Dir::RTL => {
            let ghost start = ctx.glyphs@;
            let mut i: usize = line.len();
            while i > 0
                invariant
                    i <= line@.len(),
                    ctx.setup == old(ctx).setup,
                    ctx.used == old(ctx).used,
                    ctx.glyphs@ == start + line@.reverse().subrange(0, line@.len() - i),
                decreases i,
            {
                i -= 1;
                ctx.glyphs.push(line[i]);
                assert(ctx.glyphs@ =~= start + line@.reverse().subrange(0, line@.len() - i));
            }
            assert(line@.reverse().subrange(0, line@.len() as int) =~= line@.reverse());
        },
    }
}

/// Takes back the glyphs at the end whose cluster lies in `lo..hi`.
fn trim(glyphs: &mut Vec<ShapedGlyph>, lo: usize, hi: usize)
    ensures
        final(glyphs)@ == trimmed(old(glyphs)@, lo as int, hi as int),
        final(glyphs)@.len() <= old(glyphs)@.len(),
        final(glyphs)@ == old(glyphs)@.subrange(0, final(glyphs)@.len() as int),
        final(glyphs)@.len() > 0 ==> !(lo <= final(glyphs)@.last().cluster < hi),
        forall|k: int|
            final(glyphs)@.len() <= k < old(glyphs)@.len() ==> lo <= (#[trigger] old(glyphs)@[k]).cluster
                < hi,
{
    while glyphs.len() > 0 && lo <= glyphs[glyphs.len() - 1].cluster && glyphs[glyphs.len()
        - 1].cluster < hi
        invariant
            glyphs@.len() <= old(glyphs)@.len(),
            glyphs@ == old(glyphs)@.subrange(0, glyphs@.len() as int),
            trimmed(glyphs@, lo as int, hi as int) == trimmed(old(glyphs)@, lo as int, hi as int),
            forall|k: int|
                glyphs@.len() <= k < old(glyphs)@.len() ==> lo <= (#[trigger] old(glyphs)@[k]).cluster
                    < hi,
        decreases glyphs@.len(),
    {
        let ghost before = glyphs@;
        glyphs.pop();
        assert(glyphs@ =~= before.drop_last());
        assert(glyphs@ =~= old(glyphs)@.subrange(0, glyphs@.len() as int));
    }
}

/// How far the glyphs may reach while the shaper's glyphs are gone through
/// and place `i` is next: from left to right no glyph lies past the cluster
/// of the next one; from right to left none lies short of the cluster of
/// the one before, or of the end of the segment at the start.
pub open spec fn within_reach(
    glyphs: Seq<ShapedGlyph>,
    dir: Dir,
    base: int,
    infos: Seq<RawGlyph>,
    i: int,
    len: int,
) -> bool {
    if dir == Dir::LTR {
        i < infos.len() ==> forall|k: int|
            0 <= k < glyphs.len() ==> (#[trigger] glyphs[k]).cluster <= base + infos[i].cluster
    } else {
        forall|k: int|
            0 <= k < glyphs.len() ==> (#[trigger] glyphs[k]).cluster >= base + if i > 0 {
                infos[i - 1].cluster as int
            } else {
                len
            }
    }
}

/// A glyph added at the far end of ordered glyphs keeps them ordered, and
/// keeps them an extension of what they extend.
proof fn lemma_push_glyph(
    before: Seq<ShapedGlyph>,
    cur: Seq<ShapedGlyph>,
    glyph: ShapedGlyph,
    base: int,
    bytes: Seq<u8>,
    used: Seq<FaceId>,
    dir: Dir,
)
    requires
        extended(before, cur, base, bytes, used),
        clusters_ordered(cur, dir),
        placed(glyph, base, bytes),
        fresh(glyph, used),
        forall|k: int|
            0 <= k < cur.len() ==> if dir == Dir::LTR {
                (#[trigger] cur[k]).cluster <= glyph.cluster
            } else {
                cur[k].cluster >= glyph.cluster
            },
    ensures
        extended(before, cur.push(glyph), base, bytes, used),
        clusters_ordered(cur.push(glyph), dir),
{
    let after = cur.push(glyph);
    assert(after.subrange(0, before.len() as int) =~= cur.subrange(0, before.len() as int));
    assert forall|k: int| before.len() <= k < after.len() implies placed(
        #[trigger] after[k],
        base,
        bytes,
    ) && fresh(after[k], used) by {
        if k < cur.len() {
            assert(after[k] == cur[k]);
        }
    }
    assert forall|i: int, j: int| 0 <= i <= j < after.len() implies if dir == Dir::LTR {
        after[i].cluster <= after[j].cluster
    } else {
        after[i].cluster >= after[j].cluster
    } by {
        if j < cur.len() {
            assert(after[i] == cur[i] && after[j] == cur[j]);
        } else if i < cur.len() {
            assert(after[i] == cur[i]);
        }
    }
}

/// Ordered glyphs for the bytes `lo..hi`, added to ordered glyphs that lie
/// before those bytes, are ordered.
proof fn lemma_append_ordered(
    head: Seq<ShapedGlyph>,
    all: Seq<ShapedGlyph>,
    dir: Dir,
    lo: int,
    hi: int,
)
    requires
        head.len() <= all.len(),
        all.subrange(0, head.len() as int) == head,
        clusters_ordered(head, dir),
        set_before(head, dir, lo, hi),
        forall|k: int| head.len() <= k < all.len() ==> lo <= (#[trigger] all[k]).cluster < hi,
        forall|i: int, j: int|
            head.len() <= i <= j < all.len() ==> if dir == Dir::LTR {
                all[i].cluster <= all[j].cluster
            } else {
                all[i].cluster >= all[j].cluster
            },
    ensures
        clusters_ordered(all, dir),
{
    assert forall|i: int, j: int| 0 <= i <= j < all.len() implies if dir == Dir::LTR {
        all[i].cluster <= all[j].cluster
    } else {
        all[i].cluster >= all[j].cluster
    } by {
        if i < head.len() {
            assert(all[i] == head[i]);
            if j < head.len() {
                assert(all[j] == head[j]);
            }
        }
    }
}

/// What was kept of ordered glyphs after taking back those for `lo..hi`
/// lies before `lo..hi`, if all of them lay no further than `lo` from left
/// to right, or no nearer than `hi` from right to left.
proof fn lemma_kept_before(
    cur: Seq<ShapedGlyph>,
    kept: Seq<ShapedGlyph>,
    dir: Dir,
    lo: int,
    hi: int,
)
    requires
        lo < hi,
        kept.len() <= cur.len(),
        kept == cur.subrange(0, kept.len() as int),
        clusters_ordered(cur, dir),
        kept.len() > 0 ==> !(lo <= kept.last().cluster < hi),
        forall|k: int|
            0 <= k < cur.len() ==> if dir == Dir::LTR {
                (#[trigger] cur[k]).cluster <= lo
            } else {
                cur[k].cluster >= hi
            },
    ensures
        set_before(kept, dir, lo, hi),
        clusters_ordered(kept, dir),
{
    assert forall|k: int| 0 <= k < kept.len() implies if dir == Dir::LTR {
        (#[trigger] kept[k]).cluster < lo
    } else {
        kept[k].cluster >= hi
    } by {
        let last = kept.len() - 1;
        assert(kept[k] == cur[k]);
        assert(kept[last] == cur[last]);
    }
    assert forall|i: int, j: int| 0 <= i <= j < kept.len() implies if dir == Dir::LTR {
        kept[i].cluster <= kept[j].cluster
    } else {
        kept[i].cluster >= kept[j].cluster
    } by {
        assert(kept[i] == cur[i] && kept[j] == cur[j]);
    }
}

/// Glyphs that a part of a segment was extended by extend the segment's
/// own glyphs: a character of the part is a character of the segment, and a
/// glyph that is fresh with one more face in use is fresh without it.
proof fn lemma_lift(
    before: Seq<ShapedGlyph>,
    kept: Seq<ShapedGlyph>,
    after: Seq<ShapedGlyph>,
    base: int,
    bytes: Seq<u8>,
    start: int,
    end: int,
    used: Seq<FaceId>,
    face_id: FaceId,
)
    requires
        valid_utf8(bytes),
        is_text_range(bytes, start, end),
        before.len() <= kept.len(),
        kept.subrange(0, before.len() as int) == before,
        forall|k: int|
            before.len() <= k < kept.len() ==> placed(#[trigger] kept[k], base, bytes) && fresh(
                kept[k],
                used,
            ),
        extended(kept, after, base + start, bytes.subrange(start, end), used.push(face_id)),
        !used.contains(face_id),
    ensures
        extended(before, after, base, bytes, used),
        forall|k: int|
            kept.len() <= k < after.len() ==> base + start <= (#[trigger] after[k]).cluster < base
                + end,
{
    let piece = bytes.subrange(start, end);
    let more = used.push(face_id);
    assert(after.subrange(0, before.len() as int) =~= before) by {
        assert forall|k: int| 0 <= k < before.len() implies after[k] == before[k] by {
            assert(after.subrange(0, kept.len() as int)[k] == kept[k]);
            assert(kept.subrange(0, before.len() as int)[k] == kept[k]);
        }
    }
    assert forall|k: int| before.len() <= k < after.len() implies placed(
        #[trigger] after[k],
        base,
        bytes,
    ) && fresh(after[k], used) by {
        if k < kept.len() {
            assert(after.subrange(0, kept.len() as int)[k] == after[k]);
        } else {
            let g = after[k];
            assert(placed(g, base + start, piece) && fresh(g, more));
            let off = g.cluster - (base + start);
            lemma_boundary_in_range(bytes, start, end, off);
            lemma_char_in_range(bytes, start, end, off);
            if more.contains(g.face_id) {
                assert(more[0] == if used.len() > 0 { used[0] } else { face_id });
                if used.len() == 0 {
                    assert(!used.contains(g.face_id));
                }
            } else {
                if used.contains(g.face_id) {
                    let w = choose|w: int| 0 <= w < used.len() && used[w] == g.face_id;
                    assert(more[w] == g.face_id);
                }
            }
        }
    }
}

/// What was kept of a segment's glyphs after taking back those for the
/// bytes `start..end` of the segment still extends the glyphs from before
/// the segment, is ordered, and lies before those bytes.
proof fn lemma_after_trim(
    before: Seq<ShapedGlyph>,
    cur: Seq<ShapedGlyph>,
    kept: Seq<ShapedGlyph>,
    dir: Dir,
    base: int,
    bytes: Seq<u8>,
    used: Seq<FaceId>,
    start: int,
    end: int,
)
    requires
        0 <= start <= end <= bytes.len(),
        bytes.len() > 0,
        extended(before, cur, base, bytes, used),
        clusters_ordered(cur, dir),
        set_before(before, dir, base, base + bytes.len()),
        kept.len() <= cur.len(),
        kept == cur.subrange(0, kept.len() as int),
        kept.len() > 0 ==> !(base + start <= kept.last().cluster < base + end),
        forall|k: int|
            kept.len() <= k < cur.len() ==> base + start <= (#[trigger] cur[k]).cluster < base + end,
        forall|k: int|
            0 <= k < cur.len() ==> if dir == Dir::LTR {
                (#[trigger] cur[k]).cluster <= base + start
            } else {
                cur[k].cluster >= base + end
            },
    ensures
        before.len() <= kept.len(),
        kept.subrange(0, before.len() as int) == before,
        forall|k: int|
            before.len() <= k < kept.len() ==> placed(#[trigger] kept[k], base, bytes) && fresh(
                kept[k],
                used,
            ),
        clusters_ordered(kept, dir),
        start < end ==> set_before(kept, dir, base + start, base + end),
        forall|k: int|
            0 <= k < kept.len() ==> if dir == Dir::LTR {
                (#[trigger] kept[k]).cluster <= base + start
            } else {
                kept[k].cluster >= base + end
            },
{
    if kept.len() < before.len() {
        let lost = kept.len() as int;
        assert(cur.subrange(0, before.len() as int)[lost] == cur[lost]);
        assert(base + start <= cur[lost].cluster < base + end);
        assert(before[lost] == cur[lost]);
    }
    assert(kept.subrange(0, before.len() as int) =~= before) by {
        assert forall|m: int| 0 <= m < before.len() implies kept[m] == before[m] by {
            assert(cur.subrange(0, before.len() as int)[m] == cur[m]);
        }
    }
    assert forall|m: int| before.len() <= m < kept.len() implies placed(#[trigger] kept[m], base, bytes)
        && fresh(kept[m], used) by {
        assert(kept[m] == cur[m]);
    }
    assert forall|k: int| 0 <= k < kept.len() implies if dir == Dir::LTR {
        (#[trigger] kept[k]).cluster <= base + start
    } else {
        kept[k].cluster >= base + end
    } by {
        assert(kept[k] == cur[k]);
    }
    if start < end {
        lemma_kept_before(cur, kept, dir, base + start, base + end);
    } else {
        assert forall|a: int, b: int| 0 <= a <= b < kept.len() implies if dir == Dir::LTR {
            kept[a].cluster <= kept[b].cluster
        } else {
            kept[a].cluster >= kept[b].cluster
        } by {
            assert(kept[a] == cur[a] && kept[b] == cur[b]);
        }
    }
}

/// After a part of a segment was shaped, no glyph lies past the end of the
/// part from left to right, or short of its start from right to left.
proof fn lemma_reach_after(
    kept: Seq<ShapedGlyph>,
    after: Seq<ShapedGlyph>,
    dir: Dir,
    lo: int,
    hi: int,
)
    requires
        lo <= hi,
        kept.len() <= after.len(),
        after.subrange(0, kept.len() as int) == kept,
        forall|k: int| kept.len() <= k < after.len() ==> lo <= (#[trigger] after[k]).cluster < hi,
        forall|k: int|
            0 <= k < kept.len() ==> if dir == Dir::LTR {
                (#[trigger] kept[k]).cluster <= lo
            } else {
                kept[k].cluster >= hi
            },
    ensures
        forall|k: int|
            0 <= k < after.len() ==> if dir == Dir::LTR {
                (#[trigger] after[k]).cluster <= hi
            } else {
                after[k].cluster >= lo
            },
{
    assert forall|k: int| 0 <= k < after.len() implies if dir == Dir::LTR {
        (#[trigger] after[k]).cluster <= hi
    } else {
        after[k].cluster >= lo
    } by {
        if k < kept.len() {
            assert(after.subrange(0, kept.len() as int)[k] == after[k]);
        }
    }
}

/// Going through the shaper's glyphs, a glyph of the face is added as it is.
proof fn lemma_collected_glyph(
    setup: Setup,
    used: Seq<FaceId>,
    glyphs: Seq<ShapedGlyph>,
    base: int,
    text: Seq<char>,
    next: int,
    face_id: FaceId,
    infos: Seq<RawGlyph>,
    i: int,
)
    requires
        0 <= i < infos.len(),
        infos[i].glyph_id != 0,
    ensures
        collected(setup, used, glyphs, base, text, next, face_id, infos, i) == collected(
            setup,
            used,
            glyphs.push(
                shaped_glyph(
                    face_id,
                    &setup.fonts.faces@[face_id.0 as int],
                    infos[i],
                    base,
                    encode_utf8(text),
                ),
            ),
            base,
            text,
            next,
            face_id,
            infos,
            i + 1,
        ),
{
    reveal(collected);
}

/// Going through the shaper's glyphs, glyphs without a face glyph have their
/// bytes shaped as a segment of their own.
proof fn lemma_collected_tofu(
    setup: Setup,
    used: Seq<FaceId>,
    glyphs: Seq<ShapedGlyph>,
    base: int,
    text: Seq<char>,
    next: int,
    face_id: FaceId,
    infos: Seq<RawGlyph>,
    i: int,
)
    requires
        0 <= i < infos.len(),
        infos[i].glyph_id == 0,
        i <= tofu_end(infos, i) < infos.len(),
    ensures
        ({
            let bytes = encode_utf8(text);
            let last = tofu_end(infos, i);
            let range = tofu_range(infos, i, last, setup.dir, bytes.len() as int);
            collected(setup, used, glyphs, base, text, next, face_id, infos, i) == match segment(
                setup,
                used,
                trimmed(glyphs, base + range.0, base + range.1),
                base + range.0,
                decode_utf8(bytes.subrange(range.0, range.1)),
                next,
            ) {
                Outcome::Done(after) => collected(
                    setup,
                    used,
                    after,
                    base,
                    text,
                    next,
                    face_id,
                    infos,
                    last + 1,
                ),
                Outcome::Needs(wanted) => Outcome::Needs(wanted),
            }
        }),
{
    reveal(collected);
    reveal(segment);
}

/// Past the last of the shaper's glyphs nothing is added.
proof fn lemma_collected_done(
    setup: Setup,
    used: Seq<FaceId>,
    glyphs: Seq<ShapedGlyph>,
    base: int,
    text: Seq<char>,
    next: int,
    face_id: FaceId,
    infos: Seq<RawGlyph>,
    i: int,
)
    requires
        i >= infos.len(),
    ensures
        collected(setup, used, glyphs, base, text, next, face_id, infos, i) == Outcome::Done(glyphs),
{
    reveal(collected);
}

/// The placeholder glyphs of a segment, added in visual order to ordered
/// glyphs that lie before the segment, extend them and keep them ordered.
proof fn lemma_tofus_extend(
    before: Seq<ShapedGlyph>,
    first: FaceId,
    advance: Em,
    base: int,
    bytes: Seq<u8>,
    dir: Dir,
    used: Seq<FaceId>,
)
    requires
        valid_utf8(bytes),
        0 <= base,
        base + bytes.len() <= usize::MAX,
        used.len() > 0,
        used[0] == first,
        clusters_ordered(before, dir),
        set_before(before, dir, base, base + bytes.len()),
    ensures
        extended(before, before + visual_tofus(first, advance, base, bytes, dir), base, bytes, used),
        clusters_ordered(before + visual_tofus(first, advance, base, bytes, dir), dir),
{
    let line = tofus(first, advance, base, bytes, 0);
    let seen = visual_tofus(first, advance, base, bytes, dir);
    let after = before + seen;
    vstd::utf8::is_char_boundary_start_end_of_seq(bytes);
    lemma_tofus(first, advance, base, bytes, 0);
    assert(seen.len() == line.len());
    assert forall|k: int| 0 <= k < seen.len() implies {
        &&& placed(#[trigger] seen[k], base, bytes)
        &&& seen[k].glyph_id == 0
        &&& seen[k].face_id == first
    } by {
        if dir == Dir::LTR {
            assert(seen[k] == line[k]);
        } else {
            assert(seen[k] == line[line.len() - 1 - k]);
        }
    }
    assert forall|i: int, j: int| 0 <= i <= j < seen.len() implies if dir == Dir::LTR {
        seen[i].cluster <= seen[j].cluster
    } else {
        seen[i].cluster >= seen[j].cluster
    } by {
        if dir == Dir::LTR {
            assert(seen[i] == line[i] && seen[j] == line[j]);
        } else {
            assert(seen[i] == line[line.len() - 1 - i]);
            assert(seen[j] == line[line.len() - 1 - j]);
        }
    }
    assert(after.subrange(0, before.len() as int) =~= before);
    assert forall|k: int| before.len() <= k < after.len() implies placed(#[trigger] after[k], base, bytes)
        && fresh(after[k], used) by {
        assert(after[k] == seen[k - before.len()]);
    }
    assert forall|i: int, j: int| before.len() <= i <= j < after.len() implies if dir == Dir::LTR {
        after[i].cluster <= after[j].cluster
    } else {
        after[i].cluster >= after[j].cluster
    } by {
        assert(after[i] == seen[i - before.len()]);
        assert(after[j] == seen[j - before.len()]);
    }
    assert forall|k: int| before.len() <= k < after.len() implies base <= (#[trigger] after[k]).cluster
        < base + bytes.len() by {
        assert(after[k] == seen[k - before.len()]);
    }
    lemma_append_ordered(before, after, dir, base, base + bytes.len());
}

/// One more face, not in use and of the store, leaves the faces in use
/// different faces of the store, fewer than the store holds before it came.
pub proof fn lemma_use_face(fonts: &FontStore, used: Seq<FaceId>, face_id: FaceId)
    requires
        used_ok(fonts, used),
        !used.contains(face_id),
        face_id.0 < fonts.faces@.len(),
    ensures
        used_ok(fonts, used.push(face_id)),
        used.len() < fonts.faces@.len(),
{
    let more = used.push(face_id);
    assert(more.no_duplicates()) by {
        assert forall|a: int, b: int| 0 <= a < more.len() && 0 <= b < more.len() && a != b implies more[a]
            != more[b] by {
            if a < used.len() && b < used.len() {
                assert(more[a] == used[a] && more[b] == used[b]);
            } else if a < used.len() {
                assert(more[a] == used[a]);
                assert(used.contains(used[a]));
            } else {
                assert(more[b] == used[b]);
                assert(used.contains(used[b]));
            }
        }
    }
    assert forall|k: int| 0 <= k < more.len() implies (#[trigger] more[k]).0 < fonts.faces@.len() by {
        if k < used.len() {
            assert(more[k] == used[k]);
        }
    }
    lemma_used_bounded(more, fonts.faces@.len());
}

/// The glyphs of a face for the shaper's glyphs from place `i` on.
pub open spec fn face_glyphs(
    face_id: FaceId,
    face: &Face,
    infos: Seq<RawGlyph>,
    i: int,
    base: int,
    bytes: Seq<u8>,
) -> Seq<ShapedGlyph> {
    Seq::new(
        (infos.len() - i) as nat,
        |k: int| shaped_glyph(face_id, face, infos[i + k], base, bytes),
    )
}

/// Where the face has a glyph for all that is left of the shaper's glyphs,
/// going through them adds the glyph of the face for each, in their order.
pub proof fn lemma_collected_covered(
    setup: Setup,
    used: Seq<FaceId>,
    glyphs: Seq<ShapedGlyph>,
    base: int,
    text: Seq<char>,
    next: int,
    face_id: FaceId,
    infos: Seq<RawGlyph>,
    i: int,
)
    requires
        0 <= i <= infos.len(),
        forall|j: int| i <= j < infos.len() ==> (#[trigger] infos[j]).glyph_id != 0,
    ensures
        collected(setup, used, glyphs, base, text, next, face_id, infos, i) == Outcome::Done(
            glyphs + face_glyphs(
                face_id,
                &setup.fonts.faces@[face_id.0 as int],
                infos,
                i,
                base,
                encode_utf8(text),
            ),
        ),
    decreases infos.len() - i,
{
    let face = &setup.fonts.faces@[face_id.0 as int];
    let bytes = encode_utf8(text);
    if i == infos.len() {
        lemma_collected_done(setup, used, glyphs, base, text, next, face_id, infos, i);
        assert(glyphs + face_glyphs(face_id, face, infos, i, base, bytes) =~= glyphs);
    } else {
        let glyph = shaped_glyph(face_id, face, infos[i], base, bytes);
        lemma_collected_glyph(setup, used, glyphs, base, text, next, face_id, infos, i);
        lemma_collected_covered(setup, used, glyphs.push(glyph), base, text, next, face_id, infos, i + 1);
        assert(glyphs.push(glyph) + face_glyphs(face_id, face, infos, i + 1, base, bytes) =~= glyphs
            + face_glyphs(face_id, face, infos, i, base, bytes));
    }
}

/// Where the face picked for a segment has a glyph for every glyph that the
/// shaper made of it, the segment gives the glyph of the face for each, in
/// their order: with the em length of the shaper's advance and offset, the
/// cluster moved by where the segment starts, and safe to break before
/// unless the shaper says otherwise.
pub proof fn lemma_segment_covered(
    setup: Setup,
    used: Seq<FaceId>,
    glyphs: Seq<ShapedGlyph>,
    base: int,
    text: Seq<char>,
    from: int,
    infos: Seq<RawGlyph>,
)
    requires
        used_ok(&setup.fonts, used),
        0 <= from <= setup.families.len(),
        !spec_all_blank(text),
        pick(setup, used, text, from) is Some,
        answer(setup.shaped, pick(setup, used, text, from).unwrap().0, text) == Some(Some(infos)),
        usable(infos, encode_utf8(text), setup.dir),
        forall|j: int| 0 <= j < infos.len() ==> (#[trigger] infos[j]).glyph_id != 0,
    ensures
        ({
            let face_id = pick(setup, used, text, from).unwrap().0;
            segment(setup, used, glyphs, base, text, from) == Outcome::Done(
                glyphs + face_glyphs(
                    face_id,
                    &setup.fonts.faces@[face_id.0 as int],
                    infos,
                    0,
                    base,
                    encode_utf8(text),
                ),
            )
        }),
{
    let picked = pick(setup, used, text, from).unwrap();
    lemma_pick(setup, used, text, from);
    lemma_collected_covered(setup, used.push(picked.0), glyphs, base, text, picked.1, picked.0, infos, 0);
    reveal(segment);
    reveal(collected);
    assert(pick(setup, used, text, from) == Some(picked));
}

/// Whether `after` is the first `m` glyphs of `before` with fresh glyphs
/// after them.
pub open spec fn grown_from(
    before: Seq<ShapedGlyph>,
    after: Seq<ShapedGlyph>,
    used: Seq<FaceId>,
    m: int,
) -> bool {
    &&& 0 <= m <= before.len()
    &&& m <= after.len()
    &&& forall|k: int| 0 <= k < m ==> #[trigger] after[k] == before[k]
    &&& forall|k: int| m <= k < after.len() ==> fresh(#[trigger] after[k], used)
}

/// Whether `after` is `before`, or its first glyphs, with none but fresh
/// glyphs after them: whatever was added is of a face that was not in use,
/// or is a placeholder of the outermost face in use.
pub open spec fn grown(before: Seq<ShapedGlyph>, after: Seq<ShapedGlyph>, used: Seq<FaceId>) -> bool {
    exists|m: int| #[trigger] grown_from(before, after, used, m)
}

/// Every glyph past the place where the glyphs from before ended is fresh.
pub proof fn lemma_grown(before: Seq<ShapedGlyph>, after: Seq<ShapedGlyph>, used: Seq<FaceId>)
    requires
        grown(before, after, used),
    ensures
        forall|k: int| before.len() <= k < after.len() ==> fresh(#[trigger] after[k], used),
{
    let m = choose|m: int| #[trigger] grown_from(before, after, used, m);
    assert(grown_from(before, after, used, m));
}

proof fn lemma_grown_same(before: Seq<ShapedGlyph>, used: Seq<FaceId>)
    ensures
        grown(before, before, used),
{
    assert(grown_from(before, before, used, before.len() as int));
}

proof fn lemma_grown_more(
    before: Seq<ShapedGlyph>,
    cur: Seq<ShapedGlyph>,
    more: Seq<ShapedGlyph>,
    used: Seq<FaceId>,
)
    requires
        grown(before, cur, used),
        forall|k: int| 0 <= k < more.len() ==> fresh(#[trigger] more[k], used),
    ensures
        grown(before, cur + more, used),
{
    let m = choose|m: int| #[trigger] grown_from(before, cur, used, m);
    assert(grown_from(before, cur, used, m));
    let after = cur + more;
    assert forall|k: int| 0 <= k < m implies #[trigger] after[k] == before[k] by {
        assert(after[k] == cur[k]);
    }
    assert forall|k: int| m <= k < after.len() implies fresh(#[trigger] after[k], used) by {
        if k < cur.len() {
            assert(after[k] == cur[k]);
        } else {
            assert(after[k] == more[k - cur.len()]);
        }
    }
    assert(grown_from(before, after, used, m));
}

/// Glyphs grown from a part of grown glyphs, with one more face in use that
/// was not in use, are grown from the glyphs that those were grown from.
proof fn lemma_grown_part(
    before: Seq<ShapedGlyph>,
    cur: Seq<ShapedGlyph>,
    kept: Seq<ShapedGlyph>,
    after: Seq<ShapedGlyph>,
    used: Seq<FaceId>,
    face_id: FaceId,
)
    requires
        grown(before, cur, used),
        kept.len() <= cur.len(),
        kept == cur.subrange(0, kept.len() as int),
        grown(kept, after, used.push(face_id)),
        !used.contains(face_id),
    ensures
        grown(before, after, used),
{
    let more = used.push(face_id);
    let m1 = choose|m: int| #[trigger] grown_from(before, cur, used, m);
    assert(grown_from(before, cur, used, m1));
    let m2 = choose|m: int| #[trigger] grown_from(kept, after, more, m);
    assert(grown_from(kept, after, more, m2));
    let m = if m1 <= m2 {
        m1
    } else {
        m2
    };
    assert forall|k: int| 0 <= k < m implies #[trigger] after[k] == before[k] by {
        assert(after[k] == kept[k]);
        assert(kept[k] == cur[k]);
        assert(cur[k] == before[k]);
    }
    assert forall|k: int| m <= k < after.len() implies fresh(#[trigger] after[k], used) by {
        let g = after[k];
        if k >= m2 {
            assert(fresh(g, more));
            if more.contains(g.face_id) {
                assert(more[0] == if used.len() > 0 {
                    used[0]
                } else {
                    face_id
                });
                if used.len() == 0 {
                    assert(!used.contains(g.face_id));
                }
            } else {
                if used.contains(g.face_id) {
                    let w = choose|w: int| 0 <= w < used.len() && used[w] == g.face_id;
                    assert(more[w] == g.face_id);
                }
            }
        } else {
            assert(after[k] == kept[k]);
            assert(kept[k] == cur[k]);
            assert(fresh(cur[k], used));
        }
    }
    assert(grown_from(before, after, used, m));
}

/// The placeholder glyphs of a segment are placeholders of the face.
proof fn lemma_tofus_fresh(
    first: FaceId,
    advance: Em,
    base: int,
    bytes: Seq<u8>,
    dir: Dir,
    used: Seq<FaceId>,
)
    requires
        valid_utf8(bytes),
        0 <= base,
        base + bytes.len() <= usize::MAX,
        used.len() > 0,
        used[0] == first,
    ensures
        forall|k: int|
            0 <= k < visual_tofus(first, advance, base, bytes, dir).len() ==> fresh(
                #[trigger] visual_tofus(first, advance, base, bytes, dir)[k],
                used,
            ),
{
    let line = tofus(first, advance, base, bytes, 0);
    let seen = visual_tofus(first, advance, base, bytes, dir);
    vstd::utf8::is_char_boundary_start_end_of_seq(bytes);
    lemma_tofus(first, advance, base, bytes, 0);
    assert(seen.len() == line.len());
    assert forall|k: int| 0 <= k < seen.len() implies fresh(#[trigger] seen[k], used) by {
        if dir == Dir::LTR {
            assert(seen[k] == line[k]);
        } else {
            assert(seen[k] == line[line.len() - 1 - k]);
        }
    }
}

/// Whether the glyphs are ready for a segment of `len` bytes that starts
/// `base` bytes into the whole text: they are in order, and lie before the
/// bytes of the segment if it has any.
pub open spec fn well_set(glyphs: Seq<ShapedGlyph>, dir: Dir, base: int, len: int) -> bool {
    &&& clusters_ordered(glyphs, dir)
    &&& len > 0 ==> set_before(glyphs, dir, base, base + len)
}

/// What holds of the glyphs `cur` while the shaper's glyphs `infos` for a
/// segment are gone through and place `i` is next: they extend the glyphs
/// from before the segment, are in order, and reach no further than they
/// may.
pub open spec fn in_progress(
    before: Seq<ShapedGlyph>,
    cur: Seq<ShapedGlyph>,
    dir: Dir,
    base: int,
    bytes: Seq<u8>,
    used: Seq<FaceId>,
    infos: Seq<RawGlyph>,
    i: int,
) -> bool {
    &&& extended(before, cur, base, bytes, used)
    &&& clusters_ordered(cur, dir)
    &&& within_reach(cur, dir, base, infos, i, bytes.len() as int)
}

/// Sets the segment in placeholders of the outermost face in use, in
/// visual order; does nothing where no face is in use.
fn set_in_tofus(ctx: &mut ShapingContext, base: usize, text: &str)
    requires
        used_ok(old(ctx).setup.fonts, old(ctx).used@),
        base + text.spec_bytes().len() <= usize::MAX,
        text.spec_bytes().len() > 0,
    ensures
        final(ctx).setup == old(ctx).setup,
        final(ctx).used == old(ctx).used,
        final(ctx).glyphs@ == with_tofus(
            old(ctx).setup@,
            old(ctx).used@,
            old(ctx).glyphs@,
            base as int,
            text@,
        ),
        grown(old(ctx).glyphs@, final(ctx).glyphs@, old(ctx).used@),
        well_set(old(ctx).glyphs@, old(ctx).setup.dir, base as int, text.spec_bytes().len() as int) ==> {
            &&& extended(
                old(ctx).glyphs@,
                final(ctx).glyphs@,
                base as int,
                text.spec_bytes(),
                old(ctx).used@,
            )
            &&& clusters_ordered(final(ctx).glyphs@, old(ctx).setup.dir)
        },
{
    let ghost before = ctx.glyphs@;
    let ghost used = ctx.used@;
    let ghost bytes = text.spec_bytes();
    let fonts = ctx.setup.fonts;
    let dir = ctx.setup.dir;
    proof {
        lemma_view_of_bytes(text);
        assert(before.subrange(0, before.len() as int) =~= before);
        lemma_grown_same(before, used);
    }
    if ctx.used.len() > 0 {
        let first = ctx.used[0];
        shape_tofus(ctx, base, text, first);
        proof {
            let face = &fonts.faces@[first.0 as int];
            assert(used[0].0 < fonts.faces@.len());
            lemma_tofus_fresh(first, tofu_advance(face), base as int, bytes, dir, used);
            lemma_grown_more(
                before,
                before,
                visual_tofus(first, tofu_advance(face), base as int, bytes, dir),
                used,
            );
            if well_set(before, dir, base as int, bytes.len() as int) {
                lemma_tofus_extend(before, first, tofu_advance(face), base as int, bytes, dir, used);
            }
        }
    }
}

/// Shapes the segment `text`, which starts `base` bytes into the whole
/// text, with the first face that the families from place `from` on or the
/// store's fallback give, and its parts that the face has no glyphs for
/// with the families that follow. Stops with the text that must be shaped
/// first where the shaper's results do not hold what it made of a text.
///
/// Where the glyphs shaped so far are ready for the segment, the glyphs
/// added stand for characters of the segment, none is of a face that was in
/// use unless it is a placeholder of the outermost, and all glyphs are in
/// order afterwards.
pub fn shape_segment(ctx: &mut ShapingContext, base: usize, text: &str, from: usize) -> (r: Result<
    (),
    Request,
>)
    requires
        used_ok(old(ctx).setup.fonts, old(ctx).used@),
        from <= old(ctx).setup.families@.len(),
        base + text.spec_bytes().len() <= usize::MAX,
    ensures
        final(ctx).setup == old(ctx).setup,
        match r {
            Ok(_) => {
                &&& final(ctx).used@ == old(ctx).used@
                &&& segment(
                    old(ctx).setup@,
                    old(ctx).used@,
                    old(ctx).glyphs@,
                    base as int,
                    text@,
                    from as int,
                ) == Outcome::Done(final(ctx).glyphs@)
                &&& grown(old(ctx).glyphs@, final(ctx).glyphs@, old(ctx).used@)
                &&& well_set(
                    old(ctx).glyphs@,
                    old(ctx).setup.dir,
                    base as int,
                    text.spec_bytes().len() as int,
                ) ==> {
                    &&& extended(
                        old(ctx).glyphs@,
                        final(ctx).glyphs@,
                        base as int,
                        text.spec_bytes(),
                        old(ctx).used@,
                    )
                    &&& clusters_ordered(final(ctx).glyphs@, old(ctx).setup.dir)
                }
            },
            Err(request) => segment(
                old(ctx).setup@,
                old(ctx).used@,
                old(ctx).glyphs@,
                base as int,
                text@,
                from as int,
            ) == Outcome::Needs(request@),
        },
    decreases old(ctx).setup.fonts.faces@.len() - old(ctx).used@.len(), 0int,
{
    let ghost before = ctx.glyphs@;
    let ghost used = ctx.used@;
    let ghost bytes = text.spec_bytes();
    let fonts = ctx.setup.fonts;
    let dir = ctx.setup.dir;
    let table = ctx.setup.shaped;
    let ghost result = segment(ctx.setup@, used, before, base as int, text@, from as int);
    proof {
        lemma_view_of_bytes(text);
        lemma_empty_text(text@);
        assert(before.subrange(0, before.len() as int) =~= before);
        lemma_grown_same(before, used);
    }
    if all_blank(text) {
        assert(result == Outcome::Done(before)) by {
            reveal(segment);
        }
        return Ok(());
    }
    let picked = pick_face(ctx, text, from);
    let (face_id, next) = match picked {
        Some(found) => found,
        None => {
            set_in_tofus(ctx, base, text);
            assert(result == Outcome::Done(ctx.glyphs@)) by {
                reveal(segment);
            }
            return Ok(());
        },
    };
    proof {
        lemma_use_face(fonts, used, face_id);
    }
    let infos = match find_answer(table, face_id, text) {
        None => {
            let request = Request { face_id, text: text.to_owned() };
            assert(result == Outcome::Needs(request@)) by {
                reveal(segment);
            }
            return Err(request);
        },
        Some(None) => {
            set_in_tofus(ctx, base, text);
            assert(result == Outcome::Done(ctx.glyphs@)) by {
                reveal(segment);
            }
            return Ok(());
        },
        Some(Some(infos)) => infos,
    };
    if !is_usable(infos, text, dir) {
        set_in_tofus(ctx, base, text);
        assert(result == Outcome::Done(ctx.glyphs@)) by {
            reveal(segment);
        }
        return Ok(());
    }
    let ghost more = used.push(face_id);
    assert(result == collected(
        ctx.setup@,
        more,
        before,
        base as int,
        text@,
        next as int,
        face_id,
        infos@,
        0,
    )) by {
        reveal(segment);
        reveal(collected);
        assert(pick(ctx.setup@, used, text@, from as int) == Some((face_id, next as int)));
        assert(!spec_all_blank(text@));
        assert(used.len() < ctx.setup.fonts.faces@.len());
        assert(answer(ctx.setup@.shaped, face_id, text@) == Some(Some(infos@)));
        assert(usable(infos@, encode_utf8(text@), ctx.setup.dir));
    }
    ctx.used.push(face_id);
    assert(more.drop_last() =~= used);
    match collect_glyphs(ctx, base, text, next, face_id, infos) {
        Ok(_) => {},
        Err(request) => {
            return Err(request);
        },
    }
    ctx.used.pop();
    assert(ctx.used@ =~= used);
    Ok(())
}

/// Shapes anew what the face `face_id` has no glyphs for from place `k` of
/// the shaper's glyphs on: the glyphs without a face glyph are taken
/// together as far as they follow one another, the glyphs already added for
/// the bytes they stand for are taken back, and those bytes are shaped as a
/// segment of their own with the families from place `next` on. Gives the
/// place of the first glyph after them, or the text that must be shaped
/// first.
fn shape_missing(
    ctx: &mut ShapingContext,
    base: usize,
    text: &str,
    next: usize,
    face_id: FaceId,
    infos: &Vec<RawGlyph>,
    k: usize,
    Ghost(before): Ghost<Seq<ShapedGlyph>>,
) -> (r: Result<usize, Request>)
    requires
        used_ok(old(ctx).setup.fonts, old(ctx).used@),
        old(ctx).used@.len() > 0,
        old(ctx).used@.last() == face_id,
        next <= old(ctx).setup.families@.len(),
        base + text.spec_bytes().len() <= usize::MAX,
        usable(infos@, text.spec_bytes(), old(ctx).setup.dir),
        k < infos@.len(),
        infos@[k as int].glyph_id == 0,
        grown(before, old(ctx).glyphs@, old(ctx).used@.drop_last()),
        well_set(before, old(ctx).setup.dir, base as int, text.spec_bytes().len() as int) ==> in_progress(
            before,
            old(ctx).glyphs@,
            old(ctx).setup.dir,
            base as int,
            text.spec_bytes(),
            old(ctx).used@.drop_last(),
            infos@,
            k as int,
        ),
    ensures
        final(ctx).setup == old(ctx).setup,
        match r {
            Ok(after) => {
                &&& final(ctx).used@ == old(ctx).used@
                &&& k < after <= infos@.len()
                &&& collected(
                    old(ctx).setup@,
                    old(ctx).used@,
                    old(ctx).glyphs@,
                    base as int,
                    text@,
                    next as int,
                    face_id,
                    infos@,
                    k as int,
                ) == collected(
                    old(ctx).setup@,
                    old(ctx).used@,
                    final(ctx).glyphs@,
                    base as int,
                    text@,
                    next as int,
                    face_id,
                    infos@,
                    after as int,
                )
                &&& grown(before, final(ctx).glyphs@, old(ctx).used@.drop_last())
                &&& well_set(
                    before,
                    old(ctx).setup.dir,
                    base as int,
                    text.spec_bytes().len() as int,
                ) ==> in_progress(
                    before,
                    final(ctx).glyphs@,
                    old(ctx).setup.dir,
                    base as int,
                    text.spec_bytes(),
                    old(ctx).used@.drop_last(),
                    infos@,
                    after as int,
                )
            },
            Err(request) => collected(
                old(ctx).setup@,
                old(ctx).used@,
                old(ctx).glyphs@,
                base as int,
                text@,
                next as int,
                face_id,
                infos@,
                k as int,
            ) == Outcome::Needs(request@),
        },
    decreases old(ctx).setup.fonts.faces@.len() - old(ctx).used@.len(), 1int,
{
    let ghost cur = ctx.glyphs@;
    let ghost more = ctx.used@;
    let ghost used = more.drop_last();
    let ghost bytes = text.spec_bytes();
    let fonts = ctx.setup.fonts;
    let dir = ctx.setup.dir;
    let len = byte_len(text);
    let count = infos.len();
    let ghost ok = well_set(before, dir, base as int, len as int);
    proof {
        lemma_view_of_bytes(text);
        assert(more =~= used.push(face_id));
        assert(!used.contains(face_id)) by {
            if used.contains(face_id) {
                let w = choose|w: int| 0 <= w < used.len() && used[w] == face_id;
                assert(more[w] == more[more.len() - 1]);
            }
        }
        lemma_used_bounded(more, fonts.faces@.len());
    }
    let mut j: usize = k;
    while j + 1 < count && infos[j + 1].glyph_id == 0
        invariant
            k <= j < infos@.len(),
            count == infos@.len(),
            tofu_end(infos@, j as int) == tofu_end(infos@, k as int),
        decreases infos@.len() - j,
    {
        j += 1;
    }
    let (start, end) = match dir {
        Dir::LTR => (
            infos[k].cluster as usize,
            if j + 1 < count {
                infos[j + 1].cluster as usize
            } else {
                len
            },
        ),
        Dir::RTL => (
            infos[j].cluster as usize,
            if k > 0 {
                infos[k - 1].cluster as usize
            } else {
                len
            },
        ),
    };
    proof {
        assert(j == tofu_end(infos@, k as int));
        assert((start as int, end as int) == tofu_range(infos@, k as int, j as int, dir, len as int));
        assert(crate::shaper::glyph_fits(infos@[k as int], bytes));
        assert(crate::shaper::glyph_fits(infos@[j as int], bytes));
        if j + 1 < infos@.len() {
            assert(crate::shaper::glyph_fits(infos@[j + 1], bytes));
        }
        if k > 0 {
            assert(crate::shaper::glyph_fits(infos@[k - 1], bytes));
        }
        vstd::utf8::is_char_boundary_start_end_of_seq(bytes);
        assert(is_text_range(bytes, start as int, end as int));
        lemma_collected_tofu(
            ctx.setup@,
            more,
            cur,
            base as int,
            text@,
            next as int,
            face_id,
            infos@,
            k as int,
        );
    }
    trim(&mut ctx.glyphs, base + start, base + end);
    let ghost kept = ctx.glyphs@;
    let piece = substr(text, start, end);
    proof {
        if ok {
            lemma_after_trim(before, cur, kept, dir, base as int, bytes, used, start as int, end as int);
        }
    }
    match shape_segment(ctx, base + start, piece, next) {
        Ok(_) => {},
        Err(request) => {
            return Err(request);
        },
    }
    proof {
        let after = ctx.glyphs@;
        lemma_grown_part(before, cur, kept, after, used, face_id);
        if ok {
            lemma_lift(before, kept, after, base as int, bytes, start as int, end as int, used, face_id);
            lemma_reach_after(kept, after, dir, base + start, base + end);
        }
    }
    Ok(j + 1)
}

/// Goes through the glyphs `infos` that the shaper made of the segment
/// `text` with the face `face_id`, the innermost of the faces in use. A
/// glyph of the face is added as it is. Glyphs without a face glyph are
/// taken together as far as they follow one another; the glyphs already
/// added for the bytes they stand for are taken back, and those bytes are
/// shaped as a segment of their own with the families from place `next` on.
/// Stops with the text that must be shaped first where the shaper's results
/// do not hold what it made of such a segment.
///
/// Where the glyphs shaped so far are ready for the segment, the glyphs
/// added stand for characters of the segment, none is of a face that was in
/// use before `face_id` unless it is a placeholder of the outermost, and
/// all glyphs are in order afterwards.
pub fn collect_glyphs(
    ctx: &mut ShapingContext,
    base: usize,
    text: &str,
    next: usize,
    face_id: FaceId,
    infos: &Vec<RawGlyph>,
) -> (r: Result<(), Request>)
    requires
        used_ok(old(ctx).setup.fonts, old(ctx).used@),
        old(ctx).used@.len() > 0,
        old(ctx).used@.last() == face_id,
        next <= old(ctx).setup.families@.len(),
        base + text.spec_bytes().len() <= usize::MAX,
        usable(infos@, text.spec_bytes(), old(ctx).setup.dir),
    ensures
        final(ctx).setup == old(ctx).setup,
        match r {
            Ok(_) => {
                &&& final(ctx).used@ == old(ctx).used@
                &&& collected(
                    old(ctx).setup@,
                    old(ctx).used@,
                    old(ctx).glyphs@,
                    base as int,
                    text@,
                    next as int,
                    face_id,
                    infos@,
                    0,
                ) == Outcome::Done(final(ctx).glyphs@)
                &&& grown(old(ctx).glyphs@, final(ctx).glyphs@, old(ctx).used@.drop_last())
                &&& well_set(
                    old(ctx).glyphs@,
                    old(ctx).setup.dir,
                    base as int,
                    text.spec_bytes().len() as int,
                ) ==> {
                    &&& extended(
                        old(ctx).glyphs@,
                        final(ctx).glyphs@,
                        base as int,
                        text.spec_bytes(),
                        old(ctx).used@.drop_last(),
                    )
                    &&& clusters_ordered(final(ctx).glyphs@, old(ctx).setup.dir)
                }
            },
            Err(request) => collected(
                old(ctx).setup@,
                old(ctx).used@,
                old(ctx).glyphs@,
                base as int,
                text@,
                next as int,
                face_id,
                infos@,
                0,
            ) == Outcome::Needs(request@),
        },
    decreases old(ctx).setup.fonts.faces@.len() - old(ctx).used@.len(), 2int,
{
    let ghost before = ctx.glyphs@;
    let ghost more = ctx.used@;
    let ghost used = more.drop_last();
    let ghost bytes = text.spec_bytes();
    let fonts = ctx.setup.fonts;
    let dir = ctx.setup.dir;
    let face = fonts.get(face_id);
    let len = byte_len(text);
    let ghost ok = len > 0 && well_set(before, dir, base as int, len as int);
    proof {
        lemma_view_of_bytes(text);
        assert(before.subrange(0, before.len() as int) =~= before);
        lemma_grown_same(before, used);
    }
    let ghost goal = collected(
        ctx.setup@,
        more,
        before,
        base as int,
        text@,
        next as int,
        face_id,
        infos@,
        0,
    );
    let count = infos.len();
    let mut i: usize = 0;
    while i < count
        invariant
            i <= infos@.len(),
            count == infos@.len(),
            ctx.setup == old(ctx).setup,
            more == old(ctx).used@,
            ctx.used@ == more,
            used == more.drop_last(),
            more.len() > 0,
            more.last() == face_id,
            used_ok(fonts, more),
            fonts == ctx.setup.fonts,
            dir == ctx.setup.dir,
            face_id.0 < fonts.faces@.len(),
            *face == fonts.faces@[face_id.0 as int],
            next <= ctx.setup.families@.len(),
            bytes == text.spec_bytes(),
            bytes == encode_utf8(text@),
            valid_utf8(bytes),
            len == bytes.len(),
            base + len <= usize::MAX,
            usable(infos@, bytes, dir),
            ok == (len > 0 && well_set(before, dir, base as int, len as int)),
            len == 0 ==> ctx.glyphs@ == before,
            before == old(ctx).glyphs@,
            goal == collected(
                ctx.setup@,
                more,
                before,
                base as int,
                text@,
                next as int,
                face_id,
                infos@,
                0,
            ),
            goal == collected(
                ctx.setup@,
                more,
                ctx.glyphs@,
                base as int,
                text@,
                next as int,
                face_id,
                infos@,
                i as int,
            ),
            ok ==> in_progress(before, ctx.glyphs@, dir, base as int, bytes, used, infos@, i as int),
            grown(before, ctx.glyphs@, used),
        decreases infos@.len() - i,
    {
        let info = infos[i];
        let cluster = info.cluster as usize;
        let ghost cur = ctx.glyphs@;
        assert(crate::shaper::glyph_fits(infos@[i as int], bytes));
        if info.glyph_id != 0 {
            let c = char_at_byte(text, cluster);
            let glyph = ShapedGlyph {
                face_id,
                glyph_id: info.glyph_id as u16,
                x_advance: face.to_em(info.x_advance),
                x_offset: face.to_em(info.x_offset),
                cluster: base + cluster,
                safe_to_break: !info.unsafe_to_break,
                c,
            };
            proof {
                assert(glyph == shaped_glyph(face_id, face, infos@[i as int], base as int, bytes));
                lemma_collected_glyph(
                    ctx.setup@,
                    more,
                    cur,
                    base as int,
                    text@,
                    next as int,
                    face_id,
                    infos@,
                    i as int,
                );
                assert(!used.contains(face_id)) by {
                    if used.contains(face_id) {
                        let w = choose|w: int| 0 <= w < used.len() && used[w] == face_id;
                        assert(more[w] == more[more.len() - 1]);
                    }
                }
                lemma_grown_more(before, cur, seq![glyph], used);
                assert(cur + seq![glyph] =~= cur.push(glyph));
                if ok {
                    if i > 0 {
                        assert(infos@[i - 1].cluster >= 0);
                    }
                    lemma_push_glyph(before, cur, glyph, base as int, bytes, used, dir);
                }
            }
            ctx.glyphs.push(glyph);
            i += 1;
            proof {
                if ok {
                    let after = ctx.glyphs@;
                    assert(after == cur.push(glyph));
                    if dir == Dir::LTR {
                        if i < infos@.len() {
                            assert forall|m: int| 0 <= m < after.len() implies (#[trigger] after[m]).cluster
                                <= base + infos@[i as int].cluster by {
                                if m < cur.len() {
                                    assert(after[m] == cur[m]);
                                }
                            }
                        }
                    } else {
                        assert forall|m: int| 0 <= m < after.len() implies (#[trigger] after[m]).cluster
                            >= base + infos@[i - 1].cluster by {
                            if m < cur.len() {
                                assert(after[m] == cur[m]);
                            }
                        }
                    }
                }
            }
        } else {
            match shape_missing(ctx, base, text, next, face_id, infos, i, Ghost(before)) {
                Ok(after) => {
                    i = after;
                },
                Err(request) => {
                    return Err(request);
                },
            }
        }
    }
    proof {
        lemma_collected_done(
            ctx.setup@,
            more,
            ctx.glyphs@,
            base as int,
            text@,
            next as int,
            face_id,
            infos@,
            i as int,
        );
    }
    Ok(())
}

} // verus!

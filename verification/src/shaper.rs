//! What the engine has from the OpenType shaper.
//!
//! Shaping proper, from characters to glyphs of one face, is not done here.
//! The engine asks for it: where it needs a text shaped with a face it stops
//! with a [`Request`], and it is started again with what the shaper made of
//! that text among the results it is given. This module holds those
//! results as plain values, finds the one for a face and a text, and
//! decides whether glyphs that came back can be used.

use vstd::prelude::*;
use vstd::string::StringSliceAdditionalSpecFns;
use vstd::utf8::is_char_boundary;

use crate::font::FaceId;
use crate::style::Dir;
use crate::text::{byte_len, str_eq};

verus! {

/// One glyph as the shaper gives it.
#[derive(Clone, Copy, Debug, PartialEq, Eq, Structural)]
pub struct RawGlyph {
    /// The number of the glyph in the face; zero where the face has no glyph
    /// for the text.
    pub glyph_id: u32,
    /// The byte offset in the shaped text of the cluster that the glyph
    /// belongs to.
    pub cluster: u32,
    /// Whether the text must not be shaped in two parts cut before this
    /// glyph's cluster.
    pub unsafe_to_break: bool,
    /// The advance in font design units.
    pub x_advance: i32,
    /// The horizontal offset in font design units.
    pub x_offset: i32,
}

impl RawGlyph {
    /// The glyph of the given fields.
    pub fn new(glyph_id: u32, cluster: u32, unsafe_to_break: bool, x_advance: i32, x_offset: i32) -> (glyph:
        RawGlyph)
        ensures
            glyph == (RawGlyph { glyph_id, cluster, unsafe_to_break, x_advance, x_offset }),
    {
        RawGlyph { glyph_id, cluster, unsafe_to_break, x_advance, x_offset }
    }
}

/// What the shaper made of a text with a face of the store, under the
/// feature settings and in the direction of the run that asked for it: the
/// glyphs in visual order, or `None` where the shaper could not read the
/// face's font.
#[derive(Clone, Debug)]
pub struct Shaped {
    pub face_id: FaceId,
    pub text: String,
    pub glyphs: Option<Vec<RawGlyph>>,
}

/// What the shaper made of a text with a face, as plain values.
pub struct ShapedView {
    pub face_id: FaceId,
    pub text: Seq<char>,
    pub glyphs: Option<Seq<RawGlyph>>,
}

impl View for Shaped {
    type V = ShapedView;

    open spec fn view(&self) -> ShapedView {
        ShapedView {
            face_id: self.face_id,
            text: self.text@,
            glyphs: match self.glyphs {
                Some(glyphs) => Some(glyphs@),
                None => None,
            },
        }
    }
}

/// A text that the engine needs shaped with a face of the store before it
/// can go on.
#[derive(Clone, Debug)]
pub struct Request {
    pub face_id: FaceId,
    pub text: String,
}

/// A text to shape with a face, as plain values.
pub struct Wanted {
    pub face_id: FaceId,
    pub text: Seq<char>,
}

impl View for Request {
    type V = Wanted;

    open spec fn view(&self) -> Wanted {
        Wanted { face_id: self.face_id, text: self.text@ }
    }
}

impl Request {
    /// What the shaper made of the text asked for, to hand to the engine.
    pub fn answer(self, glyphs: Option<Vec<RawGlyph>>) -> (shaped: Shaped)
        ensures
            shaped.face_id == self.face_id,
            shaped.text == self.text,
            shaped.glyphs == glyphs,
    {
        Shaped { face_id: self.face_id, text: self.text, glyphs }
    }
}

/// Each of the shaper's results as plain values.
pub open spec fn views(shaped: Seq<Shaped>) -> Seq<ShapedView> {
    Seq::new(shaped.len(), |i: int| shaped[i]@)
}

/// What the shaper made of `text` with the face, by the first of the
/// results from place `i` on that is for that face and text; `None` where
/// none is.
pub open spec fn answer_from(shaped: Seq<ShapedView>, face_id: FaceId, text: Seq<char>, i: int) -> Option<
    Option<Seq<RawGlyph>>,
>
    decreases shaped.len() - i,
{
    if i < 0 || i >= shaped.len() {
        None
    } else if shaped[i].face_id == face_id && shaped[i].text == text {
        Some(shaped[i].glyphs)
    } else {
        answer_from(shaped, face_id, text, i + 1)
    }
}

/// What the shaper made of `text` with the face, by the first of the
/// results that is for that face and text; `None` where none is.
pub open spec fn answer(shaped: Seq<ShapedView>, face_id: FaceId, text: Seq<char>) -> Option<
    Option<Seq<RawGlyph>>,
> {
    answer_from(shaped, face_id, text, 0)
}

/// A result added after the others answers for its face and text unless
/// one of the others did, and changes no answer that the others gave: each
/// text asked for needs shaping once.
pub proof fn lemma_answer_added(
    shaped: Seq<ShapedView>,
    entry: ShapedView,
    face_id: FaceId,
    text: Seq<char>,
    i: int,
)
    requires
        0 <= i <= shaped.len(),
    ensures
        answer_from(shaped.push(entry), face_id, text, i) == match answer_from(
            shaped,
            face_id,
            text,
            i,
        ) {
            Some(glyphs) => Some(glyphs),
            None => if entry.face_id == face_id && entry.text == text {
                Some(entry.glyphs)
            } else {
                None
            },
        },
    decreases shaped.len() - i,
{
    let more = shaped.push(entry);
    if i < shaped.len() {
        assert(more[i] == shaped[i]);
        if !(shaped[i].face_id == face_id && shaped[i].text == text) {
            lemma_answer_added(shaped, entry, face_id, text, i + 1);
        }
    } else {
        assert(more[i] == entry);
        assert(answer_from(more, face_id, text, i + 1) is None);
    }
}

/// Finds what the shaper made of `text` with the face among the results.
pub fn find_answer<'a>(shaped: &'a Vec<Shaped>, face_id: FaceId, text: &str) -> (found: Option<
    &'a Option<Vec<RawGlyph>>,
>)
    ensures
        match found {
            Some(Some(glyphs)) => answer(views(shaped@), face_id, text@) == Some(Some(glyphs@)),
            Some(None) => answer(views(shaped@), face_id, text@) == Some(None::<Seq<RawGlyph>>),
            None => answer(views(shaped@), face_id, text@) is None,
        },
{
    let mut i: usize = 0;
    while i < shaped.len()
        invariant
            i <= shaped@.len(),
            answer(views(shaped@), face_id, text@) == answer_from(
                views(shaped@),
                face_id,
                text@,
                i as int,
            ),
        decreases shaped@.len() - i,
    {
        assert(views(shaped@)[i as int] == shaped@[i as int]@);
        if shaped[i].face_id == face_id && str_eq(shaped[i].text.as_str(), text) {
            return Some(&shaped[i].glyphs);
        }
        i += 1;
    }
    None
}

/// Whether the clusters of the glyphs run the way of the direction: never
/// down from left to right, never up from right to left.
pub open spec fn clusters_run(glyphs: Seq<RawGlyph>, dir: Dir) -> bool {
    forall|i: int, j: int|
        0 <= i <= j < glyphs.len() ==> if dir == Dir::LTR {
            glyphs[i].cluster <= glyphs[j].cluster
        } else {
            glyphs[i].cluster >= glyphs[j].cluster
        }
}

/// Whether the glyph names a character of the text and a glyph of a face:
/// its cluster is where a character of `bytes` starts, and its glyph number
/// fits sixteen bits.
pub open spec fn glyph_fits(glyph: RawGlyph, bytes: Seq<u8>) -> bool {
    &&& glyph.cluster < bytes.len()
    &&& is_char_boundary(bytes, glyph.cluster as int)
    &&& glyph.glyph_id <= u16::MAX
}

/// Whether shaped glyphs describe the text they were shaped from: each fits
/// the text, and the clusters run the way of the direction.
pub open spec fn usable(glyphs: Seq<RawGlyph>, bytes: Seq<u8>, dir: Dir) -> bool {
    &&& forall|i: int| 0 <= i < glyphs.len() ==> glyph_fits(#[trigger] glyphs[i], bytes)
    &&& clusters_run(glyphs, dir)
}

/// Whether shaped glyphs describe the text they were shaped from.
pub fn is_usable(glyphs: &Vec<RawGlyph>, text: &str, dir: Dir) -> (r: bool)
    ensures
        r == usable(glyphs@, text.spec_bytes(), dir),
{
    let len = byte_len(text);
    let mut i: usize = 0;
    while i < glyphs.len()
        invariant
            i <= glyphs@.len(),
            len == text.spec_bytes().len(),
            forall|k: int| 0 <= k < i ==> glyph_fits(#[trigger] glyphs@[k], text.spec_bytes()),
            clusters_run(glyphs@.subrange(0, i as int), dir),
        decreases glyphs@.len() - i,
    {
        let glyph = glyphs[i];
        let cluster = glyph.cluster as usize;
        if cluster >= len || !text.is_char_boundary(cluster) || glyph.glyph_id > 0xffff {
            assert(!glyph_fits(glyphs@[i as int], text.spec_bytes()));
            return false;
        }
        if i > 0 {
            let before = glyphs[i - 1].cluster;
            let runs = match dir {
                Dir::LTR => before <= glyph.cluster,
                Dir::RTL => before >= glyph.cluster,
            };
            if !runs {
                return false;
            }
        }
        proof {
            let head = glyphs@.subrange(0, i as int);
            let next = glyphs@.subrange(0, i + 1);
            assert forall|a: int, b: int| 0 <= a <= b < next.len() implies if dir == Dir::LTR {
                next[a].cluster <= next[b].cluster
            } else {
                next[a].cluster >= next[b].cluster
            } by {
                if b < i {
                    assert(head[a] == next[a] && head[b] == next[b]);
                } else if a < i {
                    assert(head[a] == next[a] && head[i - 1] == next[i - 1]);
                }
            }
        }
        i += 1;
    }
    assert(glyphs@.subrange(0, i as int) =~= glyphs@);
    true
}

} // verus!

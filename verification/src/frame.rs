//! What a built run of text is handed on as: positioned groups of glyphs and
//! the lines to draw along them.

use vstd::prelude::*;

use crate::font::FaceId;
use crate::geom::{Em, Length, Point, Size};
use crate::style::{Decoration, Paint};

verus! {

/// A glyph placed in a frame.
#[derive(Clone, Copy, Debug, PartialEq, Eq, Structural)]
pub struct Glyph {
    /// The number of the glyph in its face.
    pub id: u16,
    pub x_advance: Em,
    pub x_offset: Em,
}

/// The summed advance of glyphs at font size `size`, added up from the
/// first glyph on.
pub open spec fn glyphs_width(glyphs: Seq<Glyph>, size: Length) -> Length
    decreases glyphs.len(),
{
    if glyphs.len() == 0 {
        Length { raw: 0 }
    } else {
        glyphs_width(glyphs.drop_last(), size).spec_plus(glyphs.last().x_advance.spec_resolve(size))
    }
}

/// Glyphs of one face, set in one size and colour.
#[derive(Clone, Debug)]
pub struct Text {
    pub face_id: FaceId,
    pub size: Length,
    pub fill: Paint,
    pub glyphs: Vec<Glyph>,
}

impl Text {
    pub open spec fn spec_width(&self) -> Length {
        glyphs_width(self.glyphs@, self.size)
    }

    /// The summed advance of the glyphs.
    pub fn width(&self) -> (w: Length)
        ensures
            w == self.spec_width(),
    {
        let mut w = Length::zero();
        let mut i: usize = 0;
        while i < self.glyphs.len()
            invariant
                i <= self.glyphs@.len(),
                w == glyphs_width(self.glyphs@.subrange(0, i as int), self.size),
            decreases self.glyphs@.len() - i,
        {
            assert(self.glyphs@.subrange(0, i + 1).drop_last() =~= self.glyphs@.subrange(0, i as int));
            w = w.plus(self.glyphs[i].x_advance.resolve(self.size));
            i += 1;
        }
        assert(self.glyphs@.subrange(0, i as int) =~= self.glyphs@);
        w
    }
}

/// What a frame holds at a position.
#[derive(Clone, Debug)]
pub enum Element {
    /// A group of glyphs.
    Text(Text),
    /// A line to draw along the group of glyphs placed before it at the same
    /// position, over the given width.
    Decoration { deco: Decoration, width: Length },
}

/// What an element is, with the glyphs of a text as a sequence.
pub enum Placed {
    Text { face_id: FaceId, size: Length, fill: Paint, glyphs: Seq<Glyph> },
    Decoration { deco: Decoration, width: Length },
}

impl View for Element {
    type V = Placed;

    open spec fn view(&self) -> Placed {
        match self {
            Element::Text(text) => Placed::Text {
                face_id: text.face_id,
                size: text.size,
                fill: text.fill,
                glyphs: text.glyphs@,
            },
            Element::Decoration { deco, width } => Placed::Decoration { deco: *deco, width: *width },
        }
    }
}

/// A box and what is placed in it, in the order in which it is drawn.
#[derive(Clone, Debug)]
pub struct Frame {
    pub size: Size,
    /// How far below the top the baseline runs, where there is one.
    pub baseline: Option<Length>,
    pub elements: Vec<(Point, Element)>,
    /// Where the whole frame links to.
    pub link: Option<String>,
}

impl Frame {
    /// The elements of the frame with their positions, each as what it is.
    pub open spec fn placed(&self) -> Seq<(Point, Placed)> {
        Seq::new(self.elements@.len(), |i: int| (self.elements@[i].0, self.elements@[i].1@))
    }

    /// An empty frame of the given size.
    pub fn new(size: Size) -> (frame: Frame)
        ensures
            frame.size == size,
            frame.baseline is None,
            frame.elements@.len() == 0,
            frame.link is None,
    {
        Frame { size, baseline: None, elements: Vec::new(), link: None }
    }

    /// Places an element above those already in the frame.
    pub fn push(&mut self, pos: Point, element: Element)
        ensures
            final(self).elements@ == old(self).elements@.push((pos, element)),
            final(self).placed() == old(self).placed().push((pos, element@)),
            final(self).size == old(self).size,
            final(self).baseline == old(self).baseline,
            final(self).link == old(self).link,
    {
        self.elements.push((pos, element));
        assert(self.placed() =~= old(self).placed().push((pos, element@)));
    }

    /// Makes the whole frame link to `url`.
    pub fn link(&mut self, url: String)
        ensures
            final(self).link == Some(url),
            final(self).elements@ == old(self).elements@,
            final(self).placed() == old(self).placed(),
            final(self).size == old(self).size,
            final(self).baseline == old(self).baseline,
    {
        self.link = Some(url);
    }
}

} // verus!

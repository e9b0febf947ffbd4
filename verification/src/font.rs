//! Font faces and the store that shaping selects them from.
//!
//! A face is the bytes of a font file with the family name, the variant and
//! the vertical metrics that selection and measurement read. The store is a
//! list of faces; a face is known by its place in that list.

use vstd::prelude::*;
use vstd::string::StringSliceAdditionalSpecFns;

use crate::geom::{Em, Length};
use crate::text::{byte_len, char_at_byte, str_eq};

verus! {

/// The place of a face in a font store.
#[derive(Clone, Copy, Debug, PartialEq, Eq, Structural)]
pub struct FaceId(pub usize);

/// The slant of a face.
#[derive(Clone, Copy, Debug, PartialEq, Eq, Structural)]
pub enum FontStyle {
    Normal,
    Italic,
    Oblique,
}

impl FontStyle {
    /// How far apart two styles are: slanted styles are nearer to each other
    /// than either is to the upright one.
    pub open spec fn spec_distance(self, other: FontStyle) -> int {
        if self == other {
            0
        } else if self == FontStyle::Normal || other == FontStyle::Normal {
            2
        } else {
            1
        }
    }

    /// How far apart two styles are.
    pub fn distance(self, other: FontStyle) -> (d: u16)
        ensures
            d == self.spec_distance(other),
    {
        if self == other {
            0
        } else if self == FontStyle::Normal || other == FontStyle::Normal {
            2
        } else {
            1
        }
    }
}

/// The thickness of a face, from 100 (thin) to 900 (black).
#[derive(Clone, Copy, Debug, PartialEq, Eq, Structural)]
pub struct FontWeight(pub u16);

impl FontWeight {
    pub open spec fn spec_thicken(self, delta: int) -> FontWeight {
        let sum = self.0 + delta;
        FontWeight(
            if sum < 100 {
                100u16
            } else if sum > 900 {
                900u16
            } else {
                sum as u16
            },
        )
    }

    pub open spec fn spec_distance(self, other: FontWeight) -> int {
        if self.0 >= other.0 {
            self.0 - other.0
        } else {
            other.0 - self.0
        }
    }

    /// This weight made heavier by `delta`, kept within 100 to 900.
    pub fn thicken(self, delta: i16) -> (r: FontWeight)
        ensures
            r == self.spec_thicken(delta as int),
    {
        let sum: i32 = self.0 as i32 + delta as i32;
        if sum < 100 {
            FontWeight(100)
        } else if sum > 900 {
            FontWeight(900)
        } else {
            FontWeight(sum as u16)
        }
    }

    /// The absolute difference of two weights.
    pub fn distance(self, other: FontWeight) -> (d: u16)
        ensures
            d == self.spec_distance(other),
    {
        if self.0 >= other.0 {
            self.0 - other.0
        } else {
            other.0 - self.0
        }
    }
}

/// The width of a face in thousandths of the normal width.
#[derive(Clone, Copy, Debug, PartialEq, Eq, Structural)]
pub struct FontStretch(pub u16);

impl FontStretch {
    pub open spec fn spec_distance(self, other: FontStretch) -> int {
        if self.0 >= other.0 {
            self.0 - other.0
        } else {
            other.0 - self.0
        }
    }

    /// The absolute difference of two widths.
    pub fn distance(self, other: FontStretch) -> (d: u16)
        ensures
            d == self.spec_distance(other),
    {
        if self.0 >= other.0 {
            self.0 - other.0
        } else {
            other.0 - self.0
        }
    }
}

/// Style, weight and stretch: what tells the faces of one family apart.
#[derive(Clone, Copy, Debug, PartialEq, Eq, Structural)]
pub struct FontVariant {
    pub style: FontStyle,
    pub weight: FontWeight,
    pub stretch: FontStretch,
}

impl FontVariant {
    /// The variant of the given style, weight and stretch.
    pub fn new(style: FontStyle, weight: FontWeight, stretch: FontStretch) -> (v: FontVariant)
        ensures
            v == (FontVariant { style, weight, stretch }),
    {
        FontVariant { style, weight, stretch }
    }
}

/// A vertical metric of a face.
#[derive(Clone, Copy, Debug, PartialEq, Eq, Structural)]
pub enum VerticalFontMetric {
    /// The typographic ascender.
    Ascender,
    /// The height of capital letters.
    CapHeight,
    /// The height of lowercase letters without ascenders.
    XHeight,
    /// The line that letters sit on.
    Baseline,
    /// The typographic descender.
    Descender,
}

/// Where the box around text ends at its top or bottom: at a metric of the
/// face, or at a fixed distance from the baseline.
#[derive(Clone, Copy, Debug, PartialEq, Eq, Structural)]
pub enum TextEdge {
    Metric(VerticalFontMetric),
    Length(Length),
}

/// The metrics of a face, measured upward from the baseline.
#[derive(Clone, Copy, Debug, PartialEq, Eq, Structural)]
pub struct FaceMetrics {
    /// How many font design units make one em.
    pub units_per_em: u16,
    pub ascender: Em,
    pub cap_height: Em,
    pub x_height: Em,
    pub descender: Em,
}

impl FaceMetrics {
    pub open spec fn spec_by_metric(self, metric: VerticalFontMetric) -> Em {
        match metric {
            VerticalFontMetric::Ascender => self.ascender,
            VerticalFontMetric::CapHeight => self.cap_height,
            VerticalFontMetric::XHeight => self.x_height,
            VerticalFontMetric::Baseline => Em { raw: 0 },
            VerticalFontMetric::Descender => self.descender,
        }
    }

    pub open spec fn spec_vertical(self, edge: TextEdge, size: Length) -> Length {
        match edge {
            TextEdge::Metric(metric) => self.spec_by_metric(metric).spec_resolve(size),
            TextEdge::Length(length) => length,
        }
    }

    /// The height of an edge above the baseline at font size `size`.
    pub fn vertical(&self, edge: TextEdge, size: Length) -> (r: Length)
        ensures
            r == self.spec_vertical(edge, size),
    {
        match edge {
            TextEdge::Metric(metric) => {
                let em = match metric {
                    VerticalFontMetric::Ascender => self.ascender,
                    VerticalFontMetric::CapHeight => self.cap_height,
                    VerticalFontMetric::XHeight => self.x_height,
                    VerticalFontMetric::Baseline => Em::zero(),
                    VerticalFontMetric::Descender => self.descender,
                };
                em.resolve(size)
            },
            TextEdge::Length(length) => length,
        }
    }
}

/// The glyph that the font file `font`, read as its face number `index`,
/// maps the character to.
pub uninterp spec fn glyph_of_char(font: Seq<u8>, index: u32, c: char) -> Option<u16>;

/// The horizontal advance, in font design units, that the font file `font`,
/// read as its face number `index`, gives the glyph.
pub uninterp spec fn advance_of_glyph(font: Seq<u8>, index: u32, glyph: u16) -> Option<u16>;

/// `ttf_parser::Face::glyph_index` on the face that `ttf_parser::Face::parse`
/// reads from the font bytes. The result is taken as given: it is `None`
/// where the bytes do not parse or the face maps the character to no glyph.
#[verifier::external_body]
fn lookup_glyph(font: &[u8], index: u32, c: char) -> (glyph: Option<u16>)
    ensures
        glyph == glyph_of_char(font@, index, c),
{
    let face = rustybuzz::ttf_parser::Face::parse(font, index).ok()?;
    face.glyph_index(c).map(|id| id.0)
}

/// `ttf_parser::Face::glyph_hor_advance` on the face that
/// `ttf_parser::Face::parse` reads from the font bytes. The result is taken
/// as given: it is `None` where the bytes do not parse or the face records no
/// advance for the glyph.
#[verifier::external_body]
fn lookup_advance(font: &[u8], index: u32, glyph: u16) -> (advance: Option<u16>)
    ensures
        advance == advance_of_glyph(font@, index, glyph),
{
    let face = rustybuzz::ttf_parser::Face::parse(font, index).ok()?;
    face.glyph_hor_advance(rustybuzz::ttf_parser::GlyphId(glyph))
}

/// One face of a font family.
#[derive(Clone, Debug)]
pub struct Face {
    /// The name of the family, as styles name it.
    pub family: String,
    pub variant: FontVariant,
    /// The bytes of the font file.
    pub data: Vec<u8>,
    /// Which face of the font file this is; zero unless the file is a
    /// collection.
    pub index: u32,
    pub metrics: FaceMetrics,
}

impl Face {
    pub open spec fn spec_to_em(&self, units: int) -> Em {
        Em::spec_from_units(units, self.metrics.units_per_em as int)
    }

    pub open spec fn spec_glyph_index(&self, c: char) -> Option<u16> {
        glyph_of_char(self.data@, self.index, c)
    }

    pub open spec fn spec_advance(&self, glyph: u16) -> Option<Em> {
        match advance_of_glyph(self.data@, self.index, glyph) {
            Some(units) => Some(self.spec_to_em(units as int)),
            None => None,
        }
    }

    /// The em length of `units` font design units; zero in a face that
    /// claims zero units to the em.
    pub fn to_em(&self, units: i32) -> (em: Em)
        ensures
            em == self.spec_to_em(units as int),
    {
        Em::from_units(units, self.metrics.units_per_em)
    }

    /// The glyph that this face maps the character to, if any.
    pub fn glyph_index(&self, c: char) -> (glyph: Option<u16>)
        ensures
            glyph == self.spec_glyph_index(c),
    {
        lookup_glyph(self.data.as_slice(), self.index, c)
    }

    /// The horizontal advance of a glyph of this face, if it records one.
    pub fn advance(&self, glyph: u16) -> (advance: Option<Em>)
        ensures
            advance == self.spec_advance(glyph),
    {
        match lookup_advance(self.data.as_slice(), self.index, glyph) {
            Some(units) => Some(self.to_em(units as i32)),
            None => None,
        }
    }
}

/// How well a face answers a request: by unlikeness to a preferred family
/// first, then by the distance of style, stretch and weight in that order.
pub struct MatchKey {
    pub unlike: bool,
    pub style: u16,
    pub stretch: u16,
    pub weight: u16,
}

impl MatchKey {
    /// Whether `self` answers a request strictly better than `other`.
    pub open spec fn spec_better(self, other: MatchKey) -> bool {
        if self.unlike != other.unlike {
            !self.unlike
        } else if self.style != other.style {
            self.style < other.style
        } else if self.stretch != other.stretch {
            self.stretch < other.stretch
        } else {
            self.weight < other.weight
        }
    }

    fn better(&self, other: &MatchKey) -> (r: bool)
        ensures
            r == self.spec_better(*other),
    {
        if self.unlike != other.unlike {
            !self.unlike
        } else if self.style != other.style {
            self.style < other.style
        } else if self.stretch != other.stretch {
            self.stretch < other.stretch
        } else {
            self.weight < other.weight
        }
    }
}

/// The faces that shaping can select, in the order they were added.
#[derive(Clone, Debug)]
pub struct FontStore {
    pub faces: Vec<Face>,
}

/// What a face must be to answer a request: of a given family, or able to
/// show a given character; and the family that an answer should be like.
pub struct Request {
    pub family: Option<Seq<char>>,
    pub covering: Option<char>,
    pub like: Option<Seq<char>>,
    pub variant: FontVariant,
}

impl FontStore {
    /// Whether the face at `id` may answer the request.
    pub open spec fn eligible(&self, request: Request, id: int) -> bool {
        &&& 0 <= id < self.faces@.len()
        &&& request.family matches Some(family) ==> self.faces@[id].family@ == family
        &&& request.covering matches Some(c) ==> self.faces@[id].spec_glyph_index(c) is Some
    }

    /// How well the face at `id` answers the request.
    pub open spec fn key(&self, request: Request, id: int) -> MatchKey {
        let face = self.faces@[id];
        MatchKey {
            unlike: request.like matches Some(family) && face.family@ != family,
            style: face.variant.style.spec_distance(request.variant.style) as u16,
            stretch: face.variant.stretch.spec_distance(request.variant.stretch) as u16,
            weight: face.variant.weight.spec_distance(request.variant.weight) as u16,
        }
    }

    /// Whether the face at `id` is the answer to the request: it is eligible,
    /// better than every eligible face before it, and no eligible face after
    /// it is better.
    pub open spec fn is_best(&self, request: Request, id: int) -> bool {
        &&& self.eligible(request, id)
        &&& forall|j: int|
            0 <= j < id && #[trigger] self.eligible(request, j) ==> self.key(request, id).spec_better(
                self.key(request, j),
            )
        &&& forall|j: int|
            id < j && #[trigger] self.eligible(request, j) ==> !self.key(request, j).spec_better(
                self.key(request, id),
            )
    }

    /// The answer to a request: the best eligible face, the first of them
    /// where several are equally good; `None` where no face is eligible.
    pub open spec fn best(&self, request: Request) -> Option<FaceId> {
        if exists|id: int| self.is_best(request, id) {
            Some(FaceId((choose|id: int| self.is_best(request, id)) as usize))
        } else {
            None
        }
    }

    /// The face of `family` nearest to `variant`.
    pub open spec fn spec_select(&self, family: Seq<char>, variant: FontVariant) -> Option<FaceId> {
        self.best(Request { family: Some(family), covering: None, like: None, variant })
    }

    /// The face nearest to `variant`, of any family, that can show the first
    /// character of `text`; a face of the family of `like` is taken before
    /// any other.
    pub open spec fn spec_select_fallback(
        &self,
        like: Option<FaceId>,
        variant: FontVariant,
        text: Seq<char>,
    ) -> Option<FaceId> {
        if text.len() == 0 {
            None
        } else {
            self.best(
                Request {
                    family: None,
                    covering: Some(text[0]),
                    like: match like {
                        Some(id) if id.0 < self.faces@.len() => Some(self.faces@[id.0 as int].family@),
                        _ => None,
                    },
                    variant,
                },
            )
        }
    }

    /// Only one face can be the answer to a request.
    pub proof fn lemma_best_unique(&self, request: Request, a: int, b: int)
        requires
            self.is_best(request, a),
            self.is_best(request, b),
        ensures
            a == b,
    {
        if a < b {
            assert(self.eligible(request, a));
            assert(self.eligible(request, b));
        } else if b < a {
            assert(self.eligible(request, a));
            assert(self.eligible(request, b));
        }
    }

    /// A store without faces.
    pub fn new() -> (store: FontStore)
        ensures
            store.faces@.len() == 0,
    {
        FontStore { faces: Vec::new() }
    }

    /// Adds a face after those already in the store and returns its place.
    pub fn push(&mut self, face: Face) -> (id: FaceId)
        ensures
            final(self).faces@ == old(self).faces@.push(face),
            id.0 == old(self).faces@.len(),
    {
        let id = FaceId(self.faces.len());
        self.faces.push(face);
        id
    }

    /// How many faces the store holds.
    pub fn len(&self) -> (n: usize)
        ensures
            n == self.faces@.len(),
    {
        self.faces.len()
    }

    /// The face at `id`.
    pub fn get(&self, id: FaceId) -> (face: &Face)
        requires
            id.0 < self.faces@.len(),
        ensures
            *face == self.faces@[id.0 as int],
    {
        &self.faces[id.0]
    }

    fn key_of(&self, id: usize, like: &Option<FaceId>, variant: FontVariant, Ghost(request): Ghost<
        Request,
    >) -> (key: MatchKey)
        requires
            id < self.faces@.len(),
            request.variant == variant,
            request.like == match *like {
                Some(l) if l.0 < self.faces@.len() => Some(self.faces@[l.0 as int].family@),
                _ => None::<Seq<char>>,
            },
        ensures
            key == self.key(request, id as int),
    {
        let face = &self.faces[id];
        let unlike = match like {
            Some(l) => l.0 < self.faces.len() && !str_eq(
                face.family.as_str(),
                self.faces[l.0].family.as_str(),
            ),
            None => false,
        };
        MatchKey {
            unlike,
            style: face.variant.style.distance(variant.style),
            stretch: face.variant.stretch.distance(variant.stretch),
            weight: face.variant.weight.distance(variant.weight),
        }
    }

    /// The best face among those that `family` and `covering` admit.
    fn find_best(
        &self,
        family: Option<&str>,
        covering: Option<char>,
        like: Option<FaceId>,
        variant: FontVariant,
    ) -> (found: Option<FaceId>)
        ensures
            found == self.best(
                Request {
                    family: match family {
                        Some(f) => Some(f@),
                        None => None,
                    },
                    covering,
                    like: match like {
                        Some(l) if l.0 < self.faces@.len() => Some(self.faces@[l.0 as int].family@),
                        _ => None,
                    },
                    variant,
                },
            ),
    {
        let ghost request = Request {
            family: match family {
                Some(f) => Some(f@),
                None => None,
            },
            covering,
            like: match like {
                Some(l) if l.0 < self.faces@.len() => Some(self.faces@[l.0 as int].family@),
                _ => None,
            },
            variant,
        };
        let mut found: Option<(usize, MatchKey)> = None;
        let mut i: usize = 0;
        while i < self.faces.len()
            invariant
                i <= self.faces@.len(),
                request.variant == variant,
                request.covering == covering,
                request.family == match family {
                    Some(f) => Some(f@),
                    None => None::<Seq<char>>,
                },
                request.like == match like {
                    Some(l) if l.0 < self.faces@.len() => Some(self.faces@[l.0 as int].family@),
                    _ => None::<Seq<char>>,
                },
                match found {
                    Some((id, key)) => {
                        &&& id < i
                        &&& key == self.key(request, id as int)
                        &&& self.eligible(request, id as int)
                        &&& forall|j: int|
                            0 <= j < id && #[trigger] self.eligible(request, j) ==> key.spec_better(
                                self.key(request, j),
                            )
                        &&& forall|j: int|
                            id < j < i && #[trigger] self.eligible(request, j) ==> !self.key(
                                request,
                                j,
                            ).spec_better(key)
                    },
                    None => forall|j: int| 0 <= j < i ==> !#[trigger] self.eligible(request, j),
                },
            decreases self.faces@.len() - i,
        {
            let face = &self.faces[i];
            let in_family = match family {
                Some(f) => str_eq(face.family.as_str(), f),
                None => true,
            };
            let covers = match covering {
                Some(c) => face.glyph_index(c).is_some(),
                None => true,
            };
            if in_family && covers {
                let key = self.key_of(i, &like, variant, Ghost(request));
                let take = match &found {
                    Some((_, best)) => key.better(best),
                    None => true,
                };
                if take {
                    found = Some((i, key));
                }
            }
            i += 1;
        }
        match found {
            Some((id, _)) => {
                proof {
                    assert(self.is_best(request, id as int));
                    let chosen = choose|c: int| self.is_best(request, c);
                    self.lemma_best_unique(request, id as int, chosen);
                }
                Some(FaceId(id))
            },
            None => {
                assert(forall|id: int| !self.is_best(request, id));
                None
            },
        }
    }

    /// The face of `family` nearest to `variant`.
    pub fn select(&self, family: &str, variant: FontVariant) -> (found: Option<FaceId>)
        ensures
            found == self.spec_select(family@, variant),
            found matches Some(id) ==> id.0 < self.faces@.len(),
    {
        let found = self.find_best(Some(family), None, None, variant);
        proof {
            let request = Request { family: Some(family@), covering: None, like: None, variant };
            if found is Some {
                assert(self.is_best(request, choose|c: int| self.is_best(request, c)));
            }
        }
        found
    }

    /// The face nearest to `variant`, of any family, that can show the first
    /// character of `text`; a face of the family of `like` is taken before
    /// any other. `None` for empty text.
    pub fn select_fallback(&self, like: Option<FaceId>, variant: FontVariant, text: &str) -> (found:
        Option<FaceId>)
        ensures
            found == self.spec_select_fallback(like, variant, text@),
            found matches Some(id) ==> id.0 < self.faces@.len(),
    {
        if byte_len(text) == 0 {
            proof {
                crate::text::lemma_empty_text(text@);
            }
            return None;
        }
        proof {
            crate::text::lemma_view_of_bytes(text);
            crate::text::lemma_empty_text(text@);
            vstd::utf8::is_char_boundary_start_end_of_seq(text.spec_bytes());
            vstd::utf8::encode_utf8_first_scalar(text@);
            vstd::utf8::char_u32_cast(text@[0], vstd::utf8::decode_first_scalar(text.spec_bytes()));
            assert(text.spec_bytes().subrange(0, text.spec_bytes().len() as int) =~= text.spec_bytes());
        }
        let first = char_at_byte(text, 0);
        let found = self.find_best(None, Some(first), like, variant);
        proof {
            let request = Request {
                family: None,
                covering: Some(first),
                like: match like {
                    Some(l) if l.0 < self.faces@.len() => Some(self.faces@[l.0 as int].family@),
                    _ => None,
                },
                variant,
            };
            if found is Some {
                assert(self.is_best(request, choose|c: int| self.is_best(request, c)));
            }
        }
        found
    }
}

} // verus!

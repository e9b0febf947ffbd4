//! The style of a run of text: what shaping, measuring and building read.

use vstd::prelude::*;

use crate::font::{FontStretch, FontStyle, FontVariant, FontWeight, TextEdge};
use crate::geom::{Em, Length, Ratio};

verus! {

/// The direction of a run of text. Only horizontal text is shaped, so only
/// the two horizontal directions exist.
#[derive(Clone, Copy, Debug, PartialEq, Eq, Structural)]
pub enum Dir {
    /// Left to right.
    LTR,
    /// Right to left.
    RTL,
}

impl Dir {
    /// Whether glyphs in this direction follow the order of the text.
    pub open spec fn spec_is_positive(self) -> bool {
        self == Dir::LTR
    }

    /// Whether glyphs in this direction follow the order of the text.
    pub fn is_positive(self) -> (r: bool)
        ensures
            r == self.spec_is_positive(),
    {
        self == Dir::LTR
    }
}

/// A change of letter case.
#[derive(Clone, Copy, Debug, PartialEq, Eq, Structural)]
pub enum Case {
    Upper,
    Lower,
}

/// The upper case form of a text.
pub uninterp spec fn uppercase_of(text: Seq<char>) -> Seq<char>;

/// The lower case form of a text.
pub uninterp spec fn lowercase_of(text: Seq<char>) -> Seq<char>;

/// `str::to_uppercase`: the text with each character replaced by its upper
/// case form, which is taken as given.
#[verifier::external_body]
fn to_upper(text: &str) -> (r: String)
    ensures
        r@ == uppercase_of(text@),
{
    text.to_uppercase()
}

/// `str::to_lowercase`: the text with each character replaced by its lower
/// case form, which is taken as given.
#[verifier::external_body]
fn to_lower(text: &str) -> (r: String)
    ensures
        r@ == lowercase_of(text@),
{
    text.to_lowercase()
}

impl Case {
    pub open spec fn spec_apply(self, text: Seq<char>) -> Seq<char> {
        match self {
            Case::Upper => uppercase_of(text),
            Case::Lower => lowercase_of(text),
        }
    }

    /// The text in this case.
    pub fn apply(self, text: &str) -> (r: String)
        ensures
            r@ == self.spec_apply(text@),
    {
        match self {
            Case::Upper => to_upper(text),
            Case::Lower => to_lower(text),
        }
    }
}

/// The four-byte name of an OpenType feature, read as one number with the
/// first byte highest.
#[derive(Clone, Copy, Debug, PartialEq, Eq, Structural)]
pub struct Tag(pub u32);

impl Tag {
    pub open spec fn spec_from_bytes(a: u8, b: u8, c: u8, d: u8) -> Tag {
        Tag((a * 0x100_0000 + b * 0x1_0000 + c * 0x100 + d) as u32)
    }

    /// The tag named by four bytes.
    pub fn from_bytes(bytes: &[u8; 4]) -> (tag: Tag)
        ensures
            tag == Tag::spec_from_bytes(bytes@[0], bytes@[1], bytes@[2], bytes@[3]),
    {
        Tag(
            (bytes[0] as u32) * 0x100_0000 + (bytes[1] as u32) * 0x1_0000 + (bytes[2] as u32)
                * 0x100 + (bytes[3] as u32),
        )
    }
}

/// A setting of an OpenType feature for the whole of a text.
#[derive(Clone, Copy, Debug, PartialEq, Eq, Structural)]
pub struct Feature {
    pub tag: Tag,
    pub value: u32,
}

/// Which figures a font should use.
#[derive(Clone, Copy, Debug, PartialEq, Eq, Structural)]
pub enum NumberType {
    /// Figures of the height of capitals.
    Lining,
    /// Figures with ascenders and descenders.
    OldStyle,
}

/// How wide figures should be.
#[derive(Clone, Copy, Debug, PartialEq, Eq, Structural)]
pub enum NumberWidth {
    /// Each figure as wide as its shape.
    Proportional,
    /// All figures equally wide.
    Tabular,
}

/// Where figures should stand.
#[derive(Clone, Copy, Debug, PartialEq, Eq, Structural)]
pub enum NumberPosition {
    Normal,
    Subscript,
    Superscript,
}

/// A colour, as red, green, blue and alpha from the highest byte down.
#[derive(Clone, Copy, Debug, PartialEq, Eq, Structural)]
pub struct Paint(pub u32);

/// Where a decorating line runs.
#[derive(Clone, Copy, Debug, PartialEq, Eq, Structural)]
pub enum DecoLine {
    Underline,
    Strikethrough,
    Overline,
}

/// A line drawn along text.
#[derive(Clone, Copy, Debug, PartialEq, Eq, Structural)]
pub struct Decoration {
    pub line: DecoLine,
    /// The colour of the line; that of the text where `None`.
    pub stroke: Option<Paint>,
    /// The thickness of the line; that which the face suggests where `None`.
    pub thickness: Option<Length>,
    /// The height of the line; that which the face suggests where `None`.
    pub offset: Option<Length>,
    /// How far the line runs past the text on both sides.
    pub extent: Length,
}

/// The style of a run of text.
#[derive(Clone, Debug)]
pub struct TextStyle {
    /// The font families to try, the most wanted first.
    pub family: Vec<String>,
    /// Whether faces beyond those of `family` may be used.
    pub fallback: bool,
    pub style: FontStyle,
    pub weight: FontWeight,
    pub stretch: FontStretch,
    /// The colour of the glyphs.
    pub fill: Paint,
    /// The font size.
    pub size: Length,
    /// Space added after each cluster but the last.
    pub tracking: Em,
    /// The factor by which spaces are made wider.
    pub spacing: Ratio,
    /// Where the box around the text ends at the top.
    pub top_edge: TextEdge,
    /// Where the box around the text ends at the bottom.
    pub bottom_edge: TextEdge,
    /// Whether the text is strongly emphasized: set heavier.
    pub strong: bool,
    /// Whether the text is emphasized: set slanted, or upright if it was
    /// slanted.
    pub emph: bool,
    /// The letter case to set the text in.
    pub case: Option<Case>,
    pub kerning: bool,
    pub smallcaps: bool,
    pub alternates: bool,
    /// The stylistic set to apply, by number.
    pub stylistic_set: Option<u8>,
    pub ligatures: bool,
    pub discretionary_ligatures: bool,
    pub historical_ligatures: bool,
    pub number_type: Option<NumberType>,
    pub number_width: Option<NumberWidth>,
    pub number_position: NumberPosition,
    pub slashed_zero: bool,
    pub fractions: bool,
    /// Further features, applied as given.
    pub features: Vec<Feature>,
    /// The lines to draw along the text.
    pub deco: Vec<Decoration>,
    /// Where the text links to.
    pub link: Option<String>,
}

/// The weight added to strongly emphasized text.
pub const STRONG_DELTA: i16 = 300;

/// The variant that a style asks for, strong and plain emphasis applied.
pub open spec fn spec_variant(styles: &TextStyle) -> FontVariant {
    FontVariant {
        style: if styles.emph {
            match styles.style {
                FontStyle::Normal => FontStyle::Italic,
                FontStyle::Italic => FontStyle::Normal,
                FontStyle::Oblique => FontStyle::Normal,
            }
        } else {
            styles.style
        },
        weight: if styles.strong {
            styles.weight.spec_thicken(STRONG_DELTA as int)
        } else {
            styles.weight
        },
        stretch: styles.stretch,
    }
}

/// The variant that a style asks for, strong and plain emphasis applied.
pub fn variant(styles: &TextStyle) -> (v: FontVariant)
    ensures
        v == spec_variant(styles),
{
    let mut variant = FontVariant::new(styles.style, styles.weight, styles.stretch);
    if styles.strong {
        variant.weight = variant.weight.thicken(STRONG_DELTA);
    }
    if styles.emph {
        variant.style = match variant.style {
            FontStyle::Normal => FontStyle::Italic,
            FontStyle::Italic => FontStyle::Normal,
            FontStyle::Oblique => FontStyle::Normal,
        }
    }
    variant
}

/// The families tried after those that a style names, where fallback is on:
/// a sans-serif family, then four families of colour emoji.
pub open spec fn fallback_families() -> Seq<Seq<char>> {
    seq![
        "ibm plex sans"@,
        "twitter color emoji"@,
        "noto color emoji"@,
        "apple color emoji"@,
        "segoe ui emoji"@,
    ]
}

/// The families to try for a style, the most wanted first.
pub open spec fn spec_families(styles: &TextStyle) -> Seq<Seq<char>> {
    Seq::new(styles.family@.len(), |i: int| styles.family@[i]@) + if styles.fallback {
        fallback_families()
    } else {
        Seq::empty()
    }
}

/// The names in `families`, each as its sequence of characters.
pub open spec fn names(families: Seq<&str>) -> Seq<Seq<char>> {
    Seq::new(families.len(), |i: int| families[i]@)
}

/// The families to try for a style, the most wanted first.
pub fn families<'a>(styles: &'a TextStyle) -> (list: Vec<&'a str>)
    ensures
        names(list@) == spec_families(styles),
{
    let mut list: Vec<&'a str> = Vec::new();
    let mut i: usize = 0;
    while i < styles.family.len()
        invariant
            i <= styles.family@.len(),
            list@.len() == i,
            forall|j: int| 0 <= j < i ==> (#[trigger] list@[j])@ == styles.family@[j]@,
        decreases styles.family@.len() - i,
    {
        list.push(styles.family[i].as_str());
        i += 1;
    }
    if styles.fallback {
        list.push("ibm plex sans");
        list.push("twitter color emoji");
        list.push("noto color emoji");
        list.push("apple color emoji");
        list.push("segoe ui emoji");
    }
    assert(names(list@) =~= spec_families(styles));
    list
}

/// The setting of the feature named by four characters.
pub open spec fn setting(a: char, b: char, c: char, d: char, value: u32) -> Feature {
    Feature { tag: Tag::spec_from_bytes(a as u8, b as u8, c as u8, d as u8), value }
}

/// The setting alone where `cond` holds, nothing otherwise.
#[verifier::opaque]
pub open spec fn when(cond: bool, setting: Feature) -> Seq<Feature> {
    if cond {
        seq![setting]
    } else {
        Seq::empty()
    }
}

/// The tag of the stylistic set numbered `set`: `ss` and the number in two
/// decimal digits.
pub open spec fn stylistic_set_tag(set: u8) -> Tag {
    Tag::spec_from_bytes(
        's' as u8,
        's' as u8,
        ('0' as u8 + set / 10) as u8,
        ('0' as u8 + set % 10) as u8,
    )
}

/// The settings of the style's switches for kerning, small capitals,
/// alternates and the stylistic set.
pub open spec fn letter_tags(styles: &TextStyle) -> Seq<Feature> {
    when(!styles.kerning, setting('k', 'e', 'r', 'n', 0))
        + when(styles.smallcaps, setting('s', 'm', 'c', 'p', 1))
        + when(styles.alternates, setting('s', 'a', 'l', 't', 1))
        + when(
            styles.stylistic_set is Some,
            Feature { tag: stylistic_set_tag(styles.stylistic_set->0), value: 1 },
        )
}

/// The settings of the style's switches for ligatures.
pub open spec fn ligature_tags(styles: &TextStyle) -> Seq<Feature> {
    when(!styles.ligatures, setting('l', 'i', 'g', 'a', 0))
        + when(!styles.ligatures, setting('c', 'l', 'i', 'g', 0))
        + when(styles.discretionary_ligatures, setting('d', 'l', 'i', 'g', 1))
        + when(styles.historical_ligatures, setting('h', 'i', 'l', 'g', 1))
}

/// The settings of the style's choices for the kind and width of figures.
pub open spec fn number_tags(styles: &TextStyle) -> Seq<Feature> {
    when(styles.number_type == Some(NumberType::Lining), setting('l', 'n', 'u', 'm', 1))
        + when(styles.number_type == Some(NumberType::OldStyle), setting('o', 'n', 'u', 'm', 1))
        + when(styles.number_width == Some(NumberWidth::Proportional), setting('p', 'n', 'u', 'm', 1))
        + when(styles.number_width == Some(NumberWidth::Tabular), setting('t', 'n', 'u', 'm', 1))
}

/// The settings of the style's choices for the position of figures, the
/// slashed zero and fractions.
pub open spec fn figure_tags(styles: &TextStyle) -> Seq<Feature> {
    when(styles.number_position == NumberPosition::Subscript, setting('s', 'u', 'b', 's', 1))
        + when(styles.number_position == NumberPosition::Superscript, setting('s', 'u', 'p', 's', 1))
        + when(styles.slashed_zero, setting('z', 'e', 'r', 'o', 1))
        + when(styles.fractions, setting('f', 'r', 'a', 'c', 1))
}

/// The feature settings that a style asks for. What a shaper does unasked
/// (kerning, common ligatures) is set only to switch it off, with value 0;
/// what it does not do unasked only to switch it on, with value 1. The
/// settings that the style gives in full follow, unchanged.
pub open spec fn spec_tags(styles: &TextStyle) -> Seq<Feature> {
    letter_tags(styles) + ligature_tags(styles) + number_tags(styles) + figure_tags(styles)
        + styles.features@
}

/// Appends the setting where `cond` holds.
fn push_when(tags: &mut Vec<Feature>, cond: bool, tag: Tag, value: u32)
    ensures
        final(tags)@ == old(tags)@ + when(cond, Feature { tag, value }),
{
    if cond {
        tags.push(Feature { tag, value });
    }
    assert(tags@ =~= old(tags)@ + when(cond, Feature { tag, value })) by {
        reveal(when);
    }
}

/// Appends the setting of the feature named by four characters where `cond`
/// holds.
fn feat(tags: &mut Vec<Feature>, cond: bool, a: char, b: char, c: char, d: char, value: u32)
    requires
        a as u32 <= 0x7f,
        b as u32 <= 0x7f,
        c as u32 <= 0x7f,
        d as u32 <= 0x7f,
    ensures
        final(tags)@ == old(tags)@ + when(cond, setting(a, b, c, d, value)),
{
    let tag = Tag::from_bytes(&[a as u8, b as u8, c as u8, d as u8]);
    push_when(tags, cond, tag, value);
}

fn push_letter_tags(tags: &mut Vec<Feature>, styles: &TextStyle)
    ensures
        final(tags)@ == old(tags)@ + letter_tags(styles),
{
    let ghost before = tags@;
    let ghost a = when(!styles.kerning, setting('k', 'e', 'r', 'n', 0));
    let ghost b = when(styles.smallcaps, setting('s', 'm', 'c', 'p', 1));
    let ghost c = when(styles.alternates, setting('s', 'a', 'l', 't', 1));
    let ghost d = when(
        styles.stylistic_set is Some,
        Feature { tag: stylistic_set_tag(styles.stylistic_set->0), value: 1 },
    );
    feat(tags, !styles.kerning, 'k', 'e', 'r', 'n', 0);
    feat(tags, styles.smallcaps, 's', 'm', 'c', 'p', 1);
    feat(tags, styles.alternates, 's', 'a', 'l', 't', 1);
    match styles.stylistic_set {
        Some(set) => {
            let tag = Tag::from_bytes(
                &['s' as u8, 's' as u8, '0' as u8 + set / 10, '0' as u8 + set % 10],
            );
            push_when(tags, true, tag, 1);
        },
        None => {
            assert(d =~= Seq::<Feature>::empty()) by {
                reveal(when);
            }
        },
    }
    assert(tags@ == before + a + b + c + d);
    assert(before + a + b + c + d =~= before + (a + b + c + d));
}

fn push_ligature_tags(tags: &mut Vec<Feature>, styles: &TextStyle)
    ensures
        final(tags)@ == old(tags)@ + ligature_tags(styles),
{
    let ghost before = tags@;
    let ghost a = when(!styles.ligatures, setting('l', 'i', 'g', 'a', 0));
    let ghost b = when(!styles.ligatures, setting('c', 'l', 'i', 'g', 0));
    let ghost c = when(styles.discretionary_ligatures, setting('d', 'l', 'i', 'g', 1));
    let ghost d = when(styles.historical_ligatures, setting('h', 'i', 'l', 'g', 1));
    feat(tags, !styles.ligatures, 'l', 'i', 'g', 'a', 0);
    feat(tags, !styles.ligatures, 'c', 'l', 'i', 'g', 0);
    feat(tags, styles.discretionary_ligatures, 'd', 'l', 'i', 'g', 1);
    feat(tags, styles.historical_ligatures, 'h', 'i', 'l', 'g', 1);
    assert(tags@ == before + a + b + c + d);
    assert(before + a + b + c + d =~= before + (a + b + c + d));
}

fn push_number_tags(tags: &mut Vec<Feature>, styles: &TextStyle)
    ensures
        final(tags)@ == old(tags)@ + number_tags(styles),
{
    let ghost before = tags@;
    let ghost a = when(styles.number_type == Some(NumberType::Lining), setting('l', 'n', 'u', 'm', 1));
    let ghost b = when(
        styles.number_type == Some(NumberType::OldStyle),
        setting('o', 'n', 'u', 'm', 1),
    );
    let ghost c = when(
        styles.number_width == Some(NumberWidth::Proportional),
        setting('p', 'n', 'u', 'm', 1),
    );
    let ghost d = when(
        styles.number_width == Some(NumberWidth::Tabular),
        setting('t', 'n', 'u', 'm', 1),
    );
    let lining = match styles.number_type {
        Some(NumberType::Lining) => true,
        _ => false,
    };
    let old_style = match styles.number_type {
        Some(NumberType::OldStyle) => true,
        _ => false,
    };
    let proportional = match styles.number_width {
        Some(NumberWidth::Proportional) => true,
        _ => false,
    };
    let tabular = match styles.number_width {
        Some(NumberWidth::Tabular) => true,
        _ => false,
    };
    feat(tags, lining, 'l', 'n', 'u', 'm', 1);
    feat(tags, old_style, 'o', 'n', 'u', 'm', 1);
    feat(tags, proportional, 'p', 'n', 'u', 'm', 1);
    feat(tags, tabular, 't', 'n', 'u', 'm', 1);
    assert(tags@ == before + a + b + c + d);
    assert(before + a + b + c + d =~= before + (a + b + c + d));
}

fn push_figure_tags(tags: &mut Vec<Feature>, styles: &TextStyle)
    ensures
        final(tags)@ == old(tags)@ + figure_tags(styles),
{
    let ghost before = tags@;
    let ghost a = when(
        styles.number_position == NumberPosition::Subscript,
        setting('s', 'u', 'b', 's', 1),
    );
    let ghost b = when(
        styles.number_position == NumberPosition::Superscript,
        setting('s', 'u', 'p', 's', 1),
    );
    let ghost c = when(styles.slashed_zero, setting('z', 'e', 'r', 'o', 1));
    let ghost d = when(styles.fractions, setting('f', 'r', 'a', 'c', 1));
    let subscript = match styles.number_position {
        NumberPosition::Subscript => true,
        _ => false,
    };
    let superscript = match styles.number_position {
        NumberPosition::Superscript => true,
        _ => false,
    };
    feat(tags, subscript, 's', 'u', 'b', 's', 1);
    feat(tags, superscript, 's', 'u', 'p', 's', 1);
    feat(tags, styles.slashed_zero, 'z', 'e', 'r', 'o', 1);
    feat(tags, styles.fractions, 'f', 'r', 'a', 'c', 1);
    assert(tags@ == before + a + b + c + d);
    assert(before + a + b + c + d =~= before + (a + b + c + d));
}

/// The feature settings that a style asks for.
pub fn tags(styles: &TextStyle) -> (tags: Vec<Feature>)
    ensures
        tags@ == spec_tags(styles),
{
    let mut tags: Vec<Feature> = Vec::new();
    push_letter_tags(&mut tags, styles);
    assert(tags@ =~= letter_tags(styles));
    push_ligature_tags(&mut tags, styles);
    push_number_tags(&mut tags, styles);
    push_figure_tags(&mut tags, styles);
    let ghost fixed = tags@;
    let mut i: usize = 0;
    while i < styles.features.len()
        invariant
            i <= styles.features@.len(),
            tags@ == fixed + styles.features@.subrange(0, i as int),
        decreases styles.features@.len() - i,
    {
        tags.push(styles.features[i]);
        assert(tags@ =~= fixed + styles.features@.subrange(0, i + 1));
        i += 1;
    }
    assert(styles.features@.subrange(0, i as int) =~= styles.features@);
    tags
}

} // verus!

use text_shaping::font::{
    Face, FaceId, FaceMetrics, FontStore, FontStretch, FontStyle, FontVariant, FontWeight, TextEdge,
    VerticalFontMetric,
};
use text_shaping::adjust::track_and_space;
use text_shaping::frame::{Element, Glyph};
use text_shaping::geom::{Em, Length, Point, Ratio, Size};
use text_shaping::measure::measure;
use text_shaping::shaped::{RunGlyphs, RunText, ShapedText, Side};
use text_shaping::shaper::{is_usable, RawGlyph, Request, Shaped};
use text_shaping::shaping::{
    collect_glyphs, shape_segment, shape_tofus, ShapedGlyph, ShapingContext, ShapingSetup,
};
use text_shaping::style::{
    families, tags, variant, Case, DecoLine, Decoration, Dir, Feature, NumberPosition, Paint, Tag,
    TextStyle,
};

/// Appends a 16-bit number, high byte first.
fn put16(out: &mut Vec<u8>, v: u16) {
    out.extend_from_slice(&v.to_be_bytes());
}

/// Appends a 32-bit number, high byte first.
fn put32(out: &mut Vec<u8>, v: u32) {
    out.extend_from_slice(&v.to_be_bytes());
}

/// The glyph number that `font_bytes` gives the character: glyph zero is
/// the placeholder, and the characters follow in the order of their code.
fn glyph_number(glyphs: &[(char, u16)], c: char) -> u16 {
    let mut sorted: Vec<(char, u16)> = glyphs.to_vec();
    sorted.sort();
    sorted.iter().position(|g| g.0 == c).unwrap() as u16 + 1
}

/// The bytes of a font file with the given units per em, a placeholder glyph
/// of advance `notdef`, and one glyph of the given advance for each of the
/// characters.
fn font_bytes(units_per_em: u16, notdef: u16, glyphs: &[(char, u16)]) -> Vec<u8> {
    let mut sorted: Vec<(char, u16)> = glyphs.to_vec();
    sorted.sort();
    let count = sorted.len() as u16 + 1;

    let mut head = Vec::new();
    put32(&mut head, 0x0001_0000);
    put32(&mut head, 0x0001_0000);
    put32(&mut head, 0);
    put32(&mut head, 0x5f0f_3cf5);
    put16(&mut head, 0);
    put16(&mut head, units_per_em);
    head.extend_from_slice(&[0; 16]);
    for _ in 0..4 {
        put16(&mut head, 0);
    }
    put16(&mut head, 0);
    put16(&mut head, 8);
    put16(&mut head, 2);
    put16(&mut head, 0);
    put16(&mut head, 0);
    assert_eq!(head.len(), 54);

    let mut hhea = Vec::new();
    put32(&mut hhea, 0x0001_0000);
    put16(&mut hhea, 800);
    put16(&mut hhea, (-200i16) as u16);
    put16(&mut hhea, 0);
    hhea.extend_from_slice(&[0; 24]);
    put16(&mut hhea, count);
    assert_eq!(hhea.len(), 36);

    let mut maxp = Vec::new();
    put32(&mut maxp, 0x0000_5000);
    put16(&mut maxp, count);

    let mut hmtx = Vec::new();
    put16(&mut hmtx, notdef);
    put16(&mut hmtx, 0);
    for g in &sorted {
        put16(&mut hmtx, g.1);
        put16(&mut hmtx, 0);
    }

    let mut cmap = Vec::new();
    put16(&mut cmap, 0);
    put16(&mut cmap, 1);
    put16(&mut cmap, 0);
    put16(&mut cmap, 4);
    put32(&mut cmap, 12);
    put16(&mut cmap, 12);
    put16(&mut cmap, 0);
    put32(&mut cmap, 16 + 12 * sorted.len() as u32);
    put32(&mut cmap, 0);
    put32(&mut cmap, sorted.len() as u32);
    for (i, g) in sorted.iter().enumerate() {
        put32(&mut cmap, g.0 as u32);
        put32(&mut cmap, g.0 as u32);
        put32(&mut cmap, i as u32 + 1);
    }

    let tables: Vec<(&[u8; 4], Vec<u8>)> =
        vec![(b"cmap", cmap), (b"head", head), (b"hhea", hhea), (b"hmtx", hmtx), (b"maxp", maxp)];
    let mut out = Vec::new();
    put32(&mut out, 0x0001_0000);
    put16(&mut out, tables.len() as u16);
    put16(&mut out, 64);
    put16(&mut out, 2);
    put16(&mut out, 16);
    let mut offset = 12 + 16 * tables.len() as u32;
    for (tag, data) in &tables {
        out.extend_from_slice(&tag[..]);
        put32(&mut out, 0);
        put32(&mut out, offset);
        put32(&mut out, data.len() as u32);
        offset += (data.len() as u32 + 3) / 4 * 4;
    }
    for (_, data) in &tables {
        out.extend_from_slice(data);
        while out.len() % 4 != 0 {
            out.push(0);
        }
    }
    out
}

const LATIN: [(char, u16); 12] = [
    (' ', 250),
    ('-', 300),
    ('a', 500),
    ('b', 600),
    ('c', 400),
    ('d', 500),
    ('e', 500),
    ('h', 500),
    ('l', 200),
    ('o', 500),
    ('r', 300),
    ('w', 700),
];

const GREEK: [(char, u16); 2] = [('λ', 550), ('μ', 650)];

const HEBREW: [(char, u16); 5] = [(' ', 250), ('ו', 300), ('ל', 500), ('ם', 600), ('ש', 700)];

fn regular() -> FontVariant {
    FontVariant::new(FontStyle::Normal, FontWeight(400), FontStretch(1000))
}

fn face(family: &str, variant: FontVariant, notdef: u16, glyphs: &[(char, u16)]) -> Face {
    Face {
        family: family.to_string(),
        variant,
        data: font_bytes(1000, notdef, glyphs),
        index: 0,
        metrics: FaceMetrics {
            units_per_em: 1000,
            ascender: Em::from_units(800, 1000),
            cap_height: Em::from_units(700, 1000),
            x_height: Em::from_units(500, 1000),
            descender: Em::from_units(-200, 1000),
        },
    }
}

fn style(families: &[&str]) -> TextStyle {
    TextStyle {
        family: families.iter().map(|f| f.to_string()).collect(),
        fallback: false,
        style: FontStyle::Normal,
        weight: FontWeight(400),
        stretch: FontStretch(1000),
        fill: Paint(0x0000_00ff),
        size: Length::pt(10),
        tracking: Em::zero(),
        spacing: Ratio::one(),
        top_edge: TextEdge::Metric(VerticalFontMetric::CapHeight),
        bottom_edge: TextEdge::Metric(VerticalFontMetric::Baseline),
        strong: false,
        emph: false,
        case: None,
        kerning: true,
        smallcaps: false,
        alternates: false,
        stylistic_set: None,
        ligatures: true,
        discretionary_ligatures: false,
        historical_ligatures: false,
        number_type: None,
        number_width: None,
        number_position: NumberPosition::Normal,
        slashed_zero: false,
        fractions: false,
        features: vec![],
        deco: vec![],
        link: None,
    }
}

fn latin_store() -> FontStore {
    let mut fonts = FontStore::new();
    fonts.push(face("latin", regular(), 700, &LATIN));
    fonts
}

/// What the shaper makes of the text with the face.
fn shaper(face: &Face, styles: &TextStyle, text: &str, dir: Dir) -> Option<Vec<RawGlyph>> {
    let font = rustybuzz::Face::from_slice(&face.data, face.index)?;
    let features: Vec<rustybuzz::Feature> = tags(styles)
        .iter()
        .map(|f| rustybuzz::Feature::new(rustybuzz::ttf_parser::Tag(f.tag.0), f.value, ..))
        .collect();
    let mut buffer = rustybuzz::UnicodeBuffer::new();
    buffer.push_str(text);
    buffer.set_direction(match dir {
        Dir::LTR => rustybuzz::Direction::LeftToRight,
        Dir::RTL => rustybuzz::Direction::RightToLeft,
    });
    let output = rustybuzz::shape(&font, &features, buffer);
    let pairs = output.glyph_infos().iter().zip(output.glyph_positions());
    Some(
        pairs
            .map(|(i, p)| RawGlyph::new(i.glyph_id, i.cluster, i.unsafe_to_break(), p.x_advance, p.x_offset))
            .collect(),
    )
}

/// The shaper's answer to a request.
fn answer(fonts: &FontStore, styles: &TextStyle, dir: Dir, request: Request) -> Shaped {
    let glyphs = shaper(fonts.get(request.face_id), styles, &request.text, dir);
    request.answer(glyphs)
}

/// Shapes text, with the shaper run on every text that the engine asks for.
fn shape<'a>(fonts: &FontStore, text: &'a str, styles: &'a TextStyle, dir: Dir) -> ShapedText<'a> {
    let mut shaped = vec![];
    loop {
        match text_shaping::shaped::shape(fonts, text, styles, dir, &shaped) {
            Ok(run) => return run,
            Err(request) => shaped.push(answer(fonts, styles, dir, request)),
        }
    }
}

/// Reshapes a part of a run, with the shaper run on every text that the
/// engine asks for.
fn reshape<'a>(run: &'a ShapedText<'a>, fonts: &FontStore, range: std::ops::Range<usize>) -> ShapedText<'a> {
    let mut shaped = vec![];
    loop {
        match run.reshape(fonts, range.clone(), &shaped) {
            Ok(part) => return part,
            Err(request) => shaped.push(answer(fonts, run.styles, run.dir, request)),
        }
    }
}

/// Shapes a segment onto the glyphs and faces in use given, with the shaper
/// run on every text that the engine asks for.
fn segment(
    fonts: &FontStore,
    styles: &TextStyle,
    dir: Dir,
    glyphs: &[ShapedGlyph],
    used: &[FaceId],
    base: usize,
    text: &str,
) -> (Vec<ShapedGlyph>, Vec<FaceId>) {
    let mut shaped = vec![];
    loop {
        let request = {
            let mut ctx = context(fonts, styles, dir, &shaped);
            ctx.glyphs = glyphs.to_vec();
            ctx.used = used.to_vec();
            match shape_segment(&mut ctx, base, text, 0) {
                Ok(()) => return (ctx.glyphs, ctx.used),
                Err(request) => request,
            }
        };
        shaped.push(answer(fonts, styles, dir, request));
    }
}

fn clusters(run: &ShapedText) -> Vec<usize> {
    run.glyphs.as_slice().iter().map(|g| g.cluster).collect()
}

fn glyph_ids(run: &ShapedText) -> Vec<u16> {
    run.glyphs.as_slice().iter().map(|g| g.glyph_id).collect()
}

#[test]
fn ascii_left_to_right() {
    let fonts = latin_store();
    let styles = style(&["latin"]);
    let run = shape(&fonts, "abc", &styles, Dir::LTR);
    assert_eq!(clusters(&run), vec![0, 1, 2]);
    assert_eq!(
        glyph_ids(&run),
        vec![glyph_number(&LATIN, 'a'), glyph_number(&LATIN, 'b'), glyph_number(&LATIN, 'c')]
    );
    let glyphs = run.glyphs.as_slice();
    assert_eq!(glyphs[0].x_advance, Em::from_raw(32768));
    assert_eq!(glyphs[1].x_advance, Em::from_raw(39321));
    assert_eq!(glyphs[2].x_advance, Em::from_raw(26214));
    assert!(glyphs.iter().all(|g| g.safe_to_break));
    assert!(glyphs.iter().all(|g| g.face_id == FaceId(0)));
    assert_eq!(glyphs.iter().map(|g| g.c).collect::<String>(), "abc");
    assert_eq!(run.size.x, Length::from_raw(327680 + 393210 + 262140));
    assert!(run.is_well_formed());
}

#[test]
fn measures_by_the_edges_of_the_style() {
    let fonts = latin_store();
    let mut styles = style(&["latin"]);
    let run = shape(&fonts, "abc", &styles, Dir::LTR);
    // Cap height of 0.7 em above, nothing below, at 10 pt.
    assert_eq!(run.baseline, Length::from_raw(458750));
    assert_eq!(run.size.y, Length::from_raw(458750));

    styles.top_edge = TextEdge::Metric(VerticalFontMetric::Ascender);
    styles.bottom_edge = TextEdge::Metric(VerticalFontMetric::Descender);
    let run = shape(&fonts, "abc", &styles, Dir::LTR);
    assert_eq!(run.baseline, Length::from_raw(524280));
    assert_eq!(run.size.y, Length::from_raw(524280 + 131070));

    styles.top_edge = TextEdge::Length(Length::pt(12));
    let run = shape(&fonts, "abc", &styles, Dir::LTR);
    assert_eq!(run.baseline, Length::pt(12));
}

#[test]
fn empty_text_has_the_height_of_the_first_family() {
    let fonts = latin_store();
    let styles = style(&["missing", "latin"]);
    let run = shape(&fonts, "", &styles, Dir::LTR);
    assert_eq!(run.glyphs.as_slice().len(), 0);
    assert_eq!(run.size, Size::new(Length::zero(), Length::from_raw(458750)));
    assert_eq!(run.baseline, Length::from_raw(458750));
}

#[test]
fn empty_text_without_a_face_has_no_size() {
    let fonts = FontStore::new();
    let styles = style(&["latin"]);
    let run = shape(&fonts, "", &styles, Dir::LTR);
    assert_eq!(run.size, Size::new(Length::zero(), Length::zero()));
    let run = shape(&fonts, "abc", &styles, Dir::LTR);
    assert_eq!(run.glyphs.as_slice().len(), 0);
}

#[test]
fn line_feeds_and_tabs_give_no_glyphs() {
    let fonts = latin_store();
    let styles = style(&["latin"]);
    let run = shape(&fonts, "\n\t\n", &styles, Dir::LTR);
    assert_eq!(run.glyphs.as_slice().len(), 0);
}

#[test]
fn falls_back_to_the_next_family() {
    let mut fonts = latin_store();
    fonts.push(face("greek", regular(), 900, &GREEK));
    let styles = style(&["latin", "greek"]);
    let run = shape(&fonts, "aλb", &styles, Dir::LTR);
    assert_eq!(clusters(&run), vec![0, 1, 3]);
    let glyphs = run.glyphs.as_slice();
    assert_eq!(glyphs[0].face_id, FaceId(0));
    assert_eq!(glyphs[1].face_id, FaceId(1));
    assert_eq!(glyphs[2].face_id, FaceId(0));
    assert_eq!(glyphs[1].glyph_id, glyph_number(&GREEK, 'λ'));
    assert_eq!(glyphs[1].c, 'λ');
    assert_eq!(glyphs[1].x_advance, Em::from_units(550, 1000));
    assert!(run.is_well_formed());
}

#[test]
fn falls_back_to_a_face_of_the_store() {
    let mut fonts = latin_store();
    fonts.push(face("greek", regular(), 900, &GREEK));
    let mut styles = style(&["latin"]);
    styles.fallback = true;
    let run = shape(&fonts, "aλb", &styles, Dir::LTR);
    assert_eq!(clusters(&run), vec![0, 1, 3]);
    assert_eq!(run.glyphs.as_slice()[1].face_id, FaceId(1));

    styles.fallback = false;
    let run = shape(&fonts, "aλb", &styles, Dir::LTR);
    assert_eq!(clusters(&run), vec![0, 1, 3]);
    assert_eq!(run.glyphs.as_slice()[1].face_id, FaceId(0));
    assert_eq!(run.glyphs.as_slice()[1].glyph_id, 0);
}

#[test]
fn sets_placeholders_where_no_face_has_a_glyph() {
    let fonts = latin_store();
    let styles = style(&["latin"]);
    let run = shape(&fonts, "🜚", &styles, Dir::LTR);
    let glyphs = run.glyphs.as_slice();
    assert_eq!(glyphs.len(), 1);
    assert_eq!(glyphs[0].glyph_id, 0);
    assert_eq!(glyphs[0].face_id, FaceId(0));
    assert_eq!(glyphs[0].x_advance, Em::from_units(700, 1000));
    assert_eq!(glyphs[0].cluster, 0);
    assert!(glyphs[0].safe_to_break);
    assert_eq!(glyphs[0].c, '🜚');
}

#[test]
fn placeholders_follow_the_direction() {
    let fonts = latin_store();
    let styles = style(&["latin"]);
    let run = shape(&fonts, "aλμb", &styles, Dir::LTR);
    assert_eq!(clusters(&run), vec![0, 1, 3, 5]);
    assert_eq!(glyph_ids(&run)[1..3], [0, 0]);

    let mut fonts = FontStore::new();
    fonts.push(face("hebrew", regular(), 700, &HEBREW));
    let styles = style(&["hebrew"]);
    let run = shape(&fonts, "שλμם", &styles, Dir::RTL);
    assert_eq!(clusters(&run), vec![6, 4, 2, 0]);
    assert_eq!(glyph_ids(&run)[1..3], [0, 0]);
    assert_eq!(run.glyphs.as_slice()[1].c, 'μ');
    assert_eq!(run.glyphs.as_slice()[2].c, 'λ');
    assert!(run.is_well_formed());
}

#[test]
fn reshapes_by_slicing_where_it_is_safe() {
    let fonts = latin_store();
    let styles = style(&["latin"]);
    let run = shape(&fonts, "hello world", &styles, Dir::LTR);
    assert_eq!(run.glyphs.as_slice().len(), 11);
    let part = reshape(&run, &fonts, 0..5);
    assert!(matches!(part.glyphs, RunGlyphs::Borrowed(_)));
    assert!(matches!(part.text, RunText::Borrowed("hello")));
    assert_eq!(part.glyphs.as_slice(), &run.glyphs.as_slice()[0..5]);
    assert_eq!(part.glyphs.as_slice().iter().map(|g| g.c).collect::<String>(), "hello");
    // h e l l o: 500 + 500 + 200 + 200 + 500 units of a 1000 at 10 pt.
    assert_eq!(part.size.x, Length::from_raw(327680 * 3 + 131070 * 2));
    assert_eq!(part.size.y, run.size.y);

    let fresh = shape(&fonts, "hello", &styles, Dir::LTR);
    assert_eq!(fresh.glyphs.as_slice(), part.glyphs.as_slice());

    let tail = reshape(&run, &fonts, 6..11);
    assert_eq!(tail.glyphs.as_slice(), &run.glyphs.as_slice()[6..11]);
    assert_eq!(tail.text.as_str(), "world");
}

#[test]
fn reshapes_from_scratch_where_it_is_not_safe() {
    let fonts = latin_store();
    let styles = style(&["latin"]);
    let mut run = shape(&fonts, "abc", &styles, Dir::LTR);
    let mut glyphs = run.glyphs.as_slice().to_vec();
    glyphs[1].safe_to_break = false;
    run.glyphs = RunGlyphs::Owned(glyphs);
    assert!(run.slice_safe_to_break(1..3).is_none());
    assert!(run.slice_safe_to_break(0..1).is_none());
    assert!(run.slice_safe_to_break(0..2).is_some());
    let part = reshape(&run, &fonts, 1..3);
    assert!(matches!(part.glyphs, RunGlyphs::Owned(_)));
    assert_eq!(clusters(&part), vec![0, 1]);
    assert_eq!(part.glyphs.as_slice().iter().map(|g| g.c).collect::<String>(), "bc");
}

#[test]
fn right_to_left() {
    let mut fonts = FontStore::new();
    fonts.push(face("hebrew", regular(), 700, &HEBREW));
    let styles = style(&["hebrew"]);
    let text = "שלום";
    let run = shape(&fonts, text, &styles, Dir::RTL);
    assert_eq!(clusters(&run), vec![6, 4, 2, 0]);
    assert_eq!(run.glyphs.as_slice().iter().map(|g| g.c).collect::<String>(), "םולש");
    assert!(run.is_well_formed());
    let whole = run.slice_safe_to_break(0..text.len()).unwrap();
    assert_eq!(whole, run.glyphs.as_slice());
    // The bytes 2..6 are the two letters in the middle, which are the two
    // glyphs in the middle.
    let middle = run.slice_safe_to_break(2..6).unwrap();
    assert_eq!(middle, &run.glyphs.as_slice()[1..3]);
    assert_eq!(run.find_safe_to_break(6, Side::Left), Some(1));
    assert_eq!(run.find_safe_to_break(2, Side::Right), Some(3));
    assert_eq!(run.find_safe_to_break(0, Side::Right), Some(4));
    assert_eq!(run.find_safe_to_break(text.len(), Side::Left), Some(0));
    assert_eq!(run.find_safe_to_break(1, Side::Left), None);
}

fn glyph(cluster: usize, safe_to_break: bool) -> ShapedGlyph {
    ShapedGlyph {
        face_id: FaceId(0),
        glyph_id: 1,
        x_advance: Em::zero(),
        x_offset: Em::zero(),
        cluster,
        safe_to_break,
        c: 'a',
    }
}

fn run_of<'a>(text: &'a str, styles: &'a TextStyle, dir: Dir, glyphs: Vec<ShapedGlyph>) -> ShapedText<'a> {
    ShapedText {
        text: RunText::Borrowed(text),
        dir,
        styles,
        size: Size::new(Length::zero(), Length::zero()),
        baseline: Length::zero(),
        glyphs: RunGlyphs::Owned(glyphs),
    }
}

#[test]
fn finds_the_outermost_glyph_of_a_cluster() {
    let styles = style(&["latin"]);
    let glyphs =
        vec![glyph(0, true), glyph(2, true), glyph(2, false), glyph(2, true), glyph(5, true)];
    let run = run_of("abcdefg", &styles, Dir::LTR, glyphs);
    assert!(run.is_well_formed());
    assert_eq!(run.find_safe_to_break(2, Side::Left), Some(1));
    assert_eq!(run.find_safe_to_break(2, Side::Right), Some(3));
    assert_eq!(run.find_safe_to_break(3, Side::Left), None);
    assert_eq!(run.find_safe_to_break(0, Side::Left), Some(0));
    assert_eq!(run.find_safe_to_break(7, Side::Right), Some(5));
    assert_eq!(run.find_safe_to_break(5, Side::Left), Some(4));
}

#[test]
fn finds_the_place_after_the_glyph_from_right_to_left() {
    let styles = style(&["latin"]);
    let glyphs =
        vec![glyph(5, true), glyph(2, true), glyph(2, true), glyph(2, false), glyph(0, true)];
    let run = run_of("abcdefg", &styles, Dir::RTL, glyphs);
    assert!(run.is_well_formed());
    // Toward the left the outermost glyph of cluster 2 is at place 1, and
    // the place after it holds a glyph that is safe to break before.
    assert_eq!(run.find_safe_to_break(2, Side::Left), Some(2));
    // Toward the right it is at place 3, and the place after it is 4.
    assert_eq!(run.find_safe_to_break(2, Side::Right), Some(4));
    assert_eq!(run.find_safe_to_break(5, Side::Left), Some(1));
    assert_eq!(run.find_safe_to_break(0, Side::Left), Some(5));
    assert_eq!(run.find_safe_to_break(7, Side::Left), Some(0));
    assert_eq!(run.slice_safe_to_break(2..5).unwrap().len(), 3);
}

#[test]
fn finds_no_place_past_the_last_glyph() {
    let styles = style(&["latin"]);
    // From right to left the last glyph stands for byte 1, not 0: the place
    // after it holds no glyph.
    let run = run_of("abc", &styles, Dir::RTL, vec![glyph(2, true), glyph(1, true)]);
    assert_eq!(run.find_safe_to_break(1, Side::Right), None);
    assert_eq!(run.find_safe_to_break(1, Side::Left), None);
    assert_eq!(run.find_safe_to_break(2, Side::Right), Some(1));
}

#[test]
fn tells_runs_that_are_out_of_order() {
    let styles = style(&["latin"]);
    let run = run_of("abc", &styles, Dir::LTR, vec![glyph(1, true), glyph(0, true)]);
    assert!(!run.is_well_formed());
    let run = run_of("abc", &styles, Dir::RTL, vec![glyph(1, true), glyph(0, true)]);
    assert!(run.is_well_formed());
}

#[test]
fn pushes_a_hyphen() {
    let fonts = latin_store();
    let styles = style(&["latin"]);
    let mut run = shape(&fonts, "abc", &styles, Dir::LTR);
    let width = run.size.x;
    let height = run.size.y;
    run.push_hyphen(&fonts);
    let glyphs = run.glyphs.as_slice();
    assert_eq!(glyphs.len(), 4);
    assert_eq!(glyphs[3].c, '-');
    assert!(glyphs[3].safe_to_break);
    assert_eq!(glyphs[3].cluster, 2);
    assert_eq!(glyphs[3].glyph_id, glyph_number(&LATIN, '-'));
    assert_eq!(glyphs[3].x_advance, Em::from_units(300, 1000));
    assert_eq!(glyphs[3].x_offset, Em::zero());
    // 300 units of a 1000 at 10 pt.
    assert_eq!(run.size.x, width.plus(Length::from_raw(196600)));
    assert_eq!(run.size.y, height);
    assert!(run.is_well_formed());
}

#[test]
fn pushes_no_hyphen_without_a_glyph_for_it() {
    let mut fonts = FontStore::new();
    fonts.push(face("greek", regular(), 900, &GREEK));
    let styles = style(&["greek"]);
    let mut run = shape(&fonts, "λ", &styles, Dir::LTR);
    let before = run.glyphs.as_slice().to_vec();
    let size = run.size;
    run.push_hyphen(&fonts);
    assert_eq!(run.glyphs.as_slice(), &before[..]);
    assert_eq!(run.size, size);
}

#[test]
fn pushes_a_hyphen_of_the_first_family_that_has_one() {
    let mut fonts = FontStore::new();
    fonts.push(face("greek", regular(), 900, &GREEK));
    fonts.push(face("latin", regular(), 700, &LATIN));
    let styles = style(&["greek", "latin"]);
    let mut run = shape(&fonts, "", &styles, Dir::LTR);
    run.push_hyphen(&fonts);
    let glyphs = run.glyphs.as_slice();
    assert_eq!(glyphs.len(), 1);
    assert_eq!(glyphs[0].face_id, FaceId(1));
    assert_eq!(glyphs[0].cluster, 0);
}

#[test]
fn tracking_and_spacing_left_off_change_nothing() {
    let fonts = latin_store();
    let styles = style(&["latin"]);
    let run = shape(&fonts, "a b", &styles, Dir::LTR);
    let advances: Vec<Em> = run.glyphs.as_slice().iter().map(|g| g.x_advance).collect();
    assert_eq!(
        advances,
        vec![Em::from_units(500, 1000), Em::from_units(250, 1000), Em::from_units(600, 1000)]
    );
}

#[test]
fn tracking_is_added_between_clusters() {
    let fonts = latin_store();
    let mut styles = style(&["latin"]);
    styles.tracking = Em::from_raw(1000);
    let run = shape(&fonts, "a b", &styles, Dir::LTR);
    let advances: Vec<i64> = run.glyphs.as_slice().iter().map(|g| g.x_advance.raw).collect();
    assert_eq!(advances, vec![32768 + 1000, 16384 + 1000, 39321]);
}

#[test]
fn spacing_scales_spaces() {
    let fonts = latin_store();
    let mut styles = style(&["latin"]);
    styles.spacing = Ratio::from_raw(65536 * 2);
    let run = shape(&fonts, "a b", &styles, Dir::LTR);
    let advances: Vec<i64> = run.glyphs.as_slice().iter().map(|g| g.x_advance.raw).collect();
    assert_eq!(advances, vec![32768, 32768, 39321]);
    assert_eq!(run.size.x, Length::from_raw(327680 + 327680 + 393210));
}

#[test]
fn counts_and_sums_justifiable_glyphs() {
    let fonts = latin_store();
    let styles = style(&["latin"]);
    let run = shape(&fonts, "a b c", &styles, Dir::LTR);
    assert_eq!(run.justifiables(), 2);
    // Two spaces of 250 units of a 1000 at 10 pt.
    assert_eq!(run.stretch(), Length::from_raw(327680));
    let glyph = run.glyphs.as_slice()[1];
    assert!(glyph.is_space());
    assert!(glyph.is_justifiable());
    let comma = ShapedGlyph { c: '\u{ff0c}', ..glyph };
    assert!(!comma.is_space());
    assert!(comma.is_justifiable());
    for c in ['\u{3000}', '\u{3002}', '\u{3001}'] {
        assert!(ShapedGlyph { c, ..glyph }.is_justifiable());
    }
    assert!(!run.glyphs.as_slice()[0].is_justifiable());
}

#[test]
fn applies_the_case_of_the_style() {
    let mut fonts = FontStore::new();
    fonts.push(face("caps", regular(), 700, &[('A', 500), ('B', 600)]));
    let mut styles = style(&["caps"]);
    styles.case = Some(Case::Upper);
    let run = shape(&fonts, "ab", &styles, Dir::LTR);
    assert_eq!(run.text.as_str(), "AB");
    assert!(matches!(run.text, RunText::Owned(_)));
    assert_eq!(glyph_ids(&run), vec![1, 2]);
    styles.case = Some(Case::Lower);
    let run = shape(&fonts, "AB", &styles, Dir::LTR);
    assert_eq!(run.text.as_str(), "ab");
    assert_eq!(glyph_ids(&run), vec![0, 0]);
}

#[test]
fn selects_a_face_by_emphasis() {
    let mut fonts = FontStore::new();
    fonts.push(face("latin", regular(), 700, &LATIN));
    let italic = FontVariant::new(FontStyle::Italic, FontWeight(400), FontStretch(1000));
    fonts.push(face("latin", italic, 700, &LATIN));
    let bold = FontVariant::new(FontStyle::Normal, FontWeight(700), FontStretch(1000));
    fonts.push(face("latin", bold, 700, &LATIN));
    let mut styles = style(&["latin"]);
    let run = shape(&fonts, "a", &styles, Dir::LTR);
    assert_eq!(run.glyphs.as_slice()[0].face_id, FaceId(0));
    styles.emph = true;
    let run = shape(&fonts, "a", &styles, Dir::LTR);
    assert_eq!(run.glyphs.as_slice()[0].face_id, FaceId(1));
    styles.emph = false;
    styles.strong = true;
    let run = shape(&fonts, "a", &styles, Dir::LTR);
    assert_eq!(run.glyphs.as_slice()[0].face_id, FaceId(2));
}

#[test]
fn a_font_that_cannot_be_read_gives_no_glyphs() {
    let mut fonts = FontStore::new();
    let mut broken = face("latin", regular(), 700, &LATIN);
    broken.data = vec![1, 2, 3];
    fonts.push(broken);
    let styles = style(&["latin"]);
    let run = shape(&fonts, "abc", &styles, Dir::LTR);
    assert_eq!(run.glyphs.as_slice().len(), 0);
}

fn context<'a>(
    fonts: &'a FontStore,
    styles: &'a TextStyle,
    dir: Dir,
    shaped: &'a Vec<Shaped>,
) -> ShapingContext<'a> {
    ShapingContext {
        setup: ShapingSetup {
            fonts,
            styles,
            families: families(styles),
            variant: variant(styles),
            tags: tags(styles),
            fallback: styles.fallback,
            dir,
            shaped,
        },
        glyphs: vec![],
        used: vec![],
    }
}

#[test]
fn tracking_and_spacing_left_off_keep_the_glyphs_as_shaped() {
    let fonts = latin_store();
    let styles = style(&["latin"]);
    let (shaped, _) = segment(&fonts, &styles, Dir::LTR, &[], &[], 0, "a b c");
    assert_eq!(shaped.len(), 5);
    let none = vec![];
    let mut ctx = context(&fonts, &styles, Dir::LTR, &none);
    ctx.glyphs = shaped.clone();
    track_and_space(&mut ctx);
    assert_eq!(ctx.glyphs, shaped);
    let run = shape(&fonts, "a b c", &styles, Dir::LTR);
    assert_eq!(run.glyphs.as_slice(), &shaped[..]);
}

#[test]
fn tracking_skips_glyphs_within_a_cluster() {
    let fonts = latin_store();
    let mut styles = style(&["latin"]);
    styles.tracking = Em::from_raw(10);
    styles.spacing = Ratio::from_raw(32768);
    let none = vec![];
    let mut ctx = context(&fonts, &styles, Dir::LTR, &none);
    let mut space = glyph(2, true);
    space.c = ' ';
    space.x_advance = Em::from_raw(100);
    ctx.glyphs = vec![glyph(0, true), glyph(0, true), space, glyph(3, true)];
    track_and_space(&mut ctx);
    let advances: Vec<i64> = ctx.glyphs.iter().map(|g| g.x_advance.raw).collect();
    assert_eq!(advances, vec![0, 10, 60, 0]);
}

#[test]
fn a_segment_keeps_the_faces_in_use_and_the_glyphs_before_it() {
    let mut fonts = latin_store();
    fonts.push(face("greek", regular(), 900, &GREEK));
    let styles = style(&["latin", "greek"]);
    // The latin face is in use: the segment is set in the greek one, and
    // what that has no glyph for in placeholders of the latin one.
    let (glyphs, used) =
        segment(&fonts, &styles, Dir::LTR, &[glyph(0, true)], &[FaceId(0)], 1, "λa");
    assert_eq!(used, vec![FaceId(0)]);
    assert_eq!(glyphs.len(), 3);
    assert_eq!(glyphs[0], glyph(0, true));
    assert_eq!(glyphs[1].face_id, FaceId(1));
    assert_eq!(glyphs[1].cluster, 1);
    assert_eq!(glyphs[2].face_id, FaceId(0));
    assert_eq!(glyphs[2].glyph_id, 0);
    assert_eq!(glyphs[2].cluster, 3);
    assert_eq!(glyphs[2].c, 'a');
}

#[test]
fn collects_the_glyphs_of_a_face() {
    let fonts = latin_store();
    let styles = style(&["latin"]);
    let none = vec![];
    let mut ctx = context(&fonts, &styles, Dir::LTR, &none);
    ctx.used = vec![FaceId(0)];
    let infos = vec![
        RawGlyph::new(3, 0, false, 500, 0),
        RawGlyph::new(4, 1, true, 600, -100),
    ];
    assert!(collect_glyphs(&mut ctx, 10, "ab", 1, FaceId(0), &infos).is_ok());
    assert_eq!(
        ctx.glyphs,
        vec![
            ShapedGlyph {
                face_id: FaceId(0),
                glyph_id: 3,
                x_advance: Em::from_raw(32768),
                x_offset: Em::zero(),
                cluster: 10,
                safe_to_break: true,
                c: 'a',
            },
            ShapedGlyph {
                face_id: FaceId(0),
                glyph_id: 4,
                x_advance: Em::from_raw(39321),
                x_offset: Em::from_raw(-6553),
                cluster: 11,
                safe_to_break: false,
                c: 'b',
            },
        ]
    );
    assert_eq!(ctx.used, vec![FaceId(0)]);
}

#[test]
fn collecting_takes_back_glyphs_of_a_cluster_without_a_glyph() {
    let mut fonts = latin_store();
    fonts.push(face("greek", regular(), 900, &GREEK));
    let styles = style(&["latin", "greek"]);
    // The cluster at byte 1 gave a glyph and a placeholder: the glyph is
    // taken back and the cluster is shaped with the next family.
    let infos = vec![
        RawGlyph::new(3, 0, false, 500, 0),
        RawGlyph::new(9, 1, false, 100, 0),
        RawGlyph::new(0, 1, false, 700, 0),
        RawGlyph::new(4, 3, false, 600, 0),
    ];
    let none = vec![];
    let mut ctx = context(&fonts, &styles, Dir::LTR, &none);
    ctx.used = vec![FaceId(0)];
    // The engine stops to ask for the cluster shaped with the greek face.
    let request = collect_glyphs(&mut ctx, 0, "aλb", 1, FaceId(0), &infos).unwrap_err();
    assert_eq!((request.face_id, request.text.as_str()), (FaceId(1), "λ"));
    let shaped = vec![answer(&fonts, &styles, Dir::LTR, request)];
    let mut ctx = context(&fonts, &styles, Dir::LTR, &shaped);
    ctx.used = vec![FaceId(0)];
    assert!(collect_glyphs(&mut ctx, 0, "aλb", 1, FaceId(0), &infos).is_ok());
    let ids: Vec<(usize, u16, usize)> =
        ctx.glyphs.iter().map(|g| (g.face_id.0, g.glyph_id, g.cluster)).collect();
    assert_eq!(ids, vec![(0, 3, 0), (1, glyph_number(&GREEK, 'λ') as u16, 1), (0, 4, 3)]);
}

#[test]
fn tells_whether_shaped_glyphs_describe_the_text() {
    let ok = vec![RawGlyph::new(1, 0, false, 0, 0), RawGlyph::new(2, 1, false, 0, 0)];
    assert!(is_usable(&ok, "aλ", Dir::LTR));
    assert!(!is_usable(&ok, "aλ", Dir::RTL));
    assert!(is_usable(&vec![], "", Dir::LTR));
    let reversed = vec![RawGlyph::new(1, 1, false, 0, 0), RawGlyph::new(2, 0, false, 0, 0)];
    assert!(is_usable(&reversed, "aλ", Dir::RTL));
    assert!(!is_usable(&reversed, "aλ", Dir::LTR));
    let inside = vec![RawGlyph::new(1, 2, false, 0, 0)];
    assert!(!is_usable(&inside, "aλ", Dir::LTR));
    let past = vec![RawGlyph::new(1, 3, false, 0, 0)];
    assert!(!is_usable(&past, "aλ", Dir::LTR));
    let wide = vec![RawGlyph::new(0x1_0000, 0, false, 0, 0)];
    assert!(!is_usable(&wide, "aλ", Dir::LTR));
    let same = vec![RawGlyph::new(1, 1, false, 0, 0), RawGlyph::new(2, 1, false, 0, 0)];
    assert!(is_usable(&same, "aλ", Dir::LTR));
    assert!(is_usable(&same, "aλ", Dir::RTL));
}

#[test]
fn fallback_prefers_the_family_in_use() {
    let mut fonts = FontStore::new();
    fonts.push(face("latin", regular(), 700, &LATIN));
    fonts.push(face("greek", regular(), 900, &GREEK));
    let bold = FontVariant::new(FontStyle::Normal, FontWeight(700), FontStretch(1000));
    fonts.push(face("latin", bold, 700, &[('λ', 500)]));
    assert_eq!(fonts.select_fallback(None, regular(), "λ"), Some(FaceId(1)));
    assert_eq!(fonts.select_fallback(Some(FaceId(0)), regular(), "λa"), Some(FaceId(2)));
    assert_eq!(fonts.select_fallback(Some(FaceId(1)), regular(), "λ"), Some(FaceId(1)));
    assert_eq!(fonts.select_fallback(Some(FaceId(9)), regular(), "λ"), Some(FaceId(1)));
    assert_eq!(fonts.select_fallback(None, regular(), "🜚"), None);
    assert_eq!(fonts.get(FaceId(0)).glyph_index('a'), Some(glyph_number(&LATIN, 'a')));
    assert_eq!(fonts.get(FaceId(0)).glyph_index('λ'), None);
    assert_eq!(fonts.get(FaceId(0)).advance(0), Some(Em::from_units(700, 1000)));
    assert_eq!(fonts.get(FaceId(0)).advance(99), None);
}

#[test]
fn measures_the_largest_reach_among_the_faces() {
    let mut fonts = latin_store();
    let mut tall = face("tall", regular(), 700, &GREEK);
    tall.metrics.cap_height = Em::from_units(900, 1000);
    fonts.push(tall);
    let styles = style(&["latin"]);
    let mut narrow = glyph(0, true);
    narrow.x_advance = Em::from_raw(65536);
    let mut of_tall = narrow;
    of_tall.face_id = FaceId(1);
    let mut unknown = narrow;
    unknown.face_id = FaceId(7);
    let (size, baseline) = measure(&fonts, &[narrow, of_tall, unknown], &styles);
    assert_eq!(size.x, Length::pt(30));
    assert_eq!(baseline, Length::from_raw(589820));
    assert_eq!(size.y, Length::from_raw(589820));
    let (size, baseline) = measure(&fonts, &[unknown], &styles);
    assert_eq!((size.x, size.y, baseline), (Length::pt(10), Length::zero(), Length::zero()));
}

#[test]
fn builds_a_frame() {
    let mut fonts = latin_store();
    fonts.push(face("greek", regular(), 900, &GREEK));
    let mut styles = style(&["latin", "greek"]);
    let line = Decoration {
        line: DecoLine::Underline,
        stroke: None,
        thickness: None,
        offset: None,
        extent: Length::zero(),
    };
    styles.deco = vec![line];
    styles.link = Some("https://example.org".to_string());
    let run = shape(&fonts, "a λ", &styles, Dir::LTR);
    let frame = run.build(Length::pt(1));
    // One justifiable glyph: the frame is a point wider than the run.
    assert_eq!(frame.size.x, run.size.x.plus(Length::pt(1)));
    assert_eq!(frame.size.y, run.size.y);
    assert_eq!(frame.baseline, Some(run.baseline));
    assert_eq!(frame.link, styles.link);
    assert_eq!(frame.elements.len(), 4);

    let (pos, element) = &frame.elements[0];
    assert_eq!(*pos, Point::new(Length::zero(), run.baseline));
    let first_width = match element {
        Element::Text(text) => {
            assert_eq!(text.face_id, FaceId(0));
            assert_eq!(text.size, Length::pt(10));
            assert_eq!(text.fill, styles.fill);
            assert_eq!(
                text.glyphs,
                vec![
                    Glyph {
                        id: glyph_number(&LATIN, 'a'),
                        x_advance: Em::from_raw(32768),
                        x_offset: Em::zero(),
                    },
                    // A space of a quarter em and a tenth of an em more.
                    Glyph {
                        id: glyph_number(&LATIN, ' '),
                        x_advance: Em::from_raw(16384 + 6553),
                        x_offset: Em::zero(),
                    },
                ]
            );
            text.width()
        },
        _ => panic!("the first element is no text"),
    };
    assert_eq!(first_width, Length::from_raw(327680 + 229370));
    match &frame.elements[1] {
        (pos, Element::Decoration { deco, width }) => {
            assert_eq!(*pos, Point::new(Length::zero(), run.baseline));
            assert_eq!(*deco, line);
            assert_eq!(*width, first_width);
        },
        _ => panic!("the second element is no line"),
    }
    match &frame.elements[2] {
        (pos, Element::Text(text)) => {
            assert_eq!(*pos, Point::new(first_width, run.baseline));
            assert_eq!(text.face_id, FaceId(1));
            assert_eq!(text.glyphs.len(), 1);
        },
        _ => panic!("the third element is no text"),
    }
    assert!(matches!(&frame.elements[3], (_, Element::Decoration { .. })));
}

#[test]
fn builds_an_empty_frame_for_an_empty_run() {
    let fonts = latin_store();
    let styles = style(&["latin"]);
    let run = shape(&fonts, "", &styles, Dir::LTR);
    let frame = run.build(Length::pt(1));
    assert_eq!(frame.size, run.size);
    assert_eq!(frame.elements.len(), 0);
    assert_eq!(frame.link, None);
    assert_eq!(run.justifiables(), 0);
    assert_eq!(run.stretch(), Length::zero());
}

#[test]
fn falls_back_from_right_to_left() {
    let mut fonts = FontStore::new();
    fonts.push(face("hebrew", regular(), 700, &HEBREW));
    fonts.push(face("greek", regular(), 900, &GREEK));
    let styles = style(&["hebrew", "greek"]);
    let run = shape(&fonts, "שλם", &styles, Dir::RTL);
    assert_eq!(clusters(&run), vec![4, 2, 0]);
    let faces: Vec<usize> = run.glyphs.as_slice().iter().map(|g| g.face_id.0).collect();
    assert_eq!(faces, vec![0, 1, 0]);
    assert_eq!(run.glyphs.as_slice()[1].c, 'λ');
    assert!(run.is_well_formed());
}

#[test]
fn falls_back_through_several_families() {
    let mut fonts = latin_store();
    fonts.push(face("greek", regular(), 900, &GREEK));
    fonts.push(face("hebrew", regular(), 700, &HEBREW));
    let styles = style(&["latin", "greek", "hebrew"]);
    let run = shape(&fonts, "aλשb🜚", &styles, Dir::LTR);
    assert_eq!(clusters(&run), vec![0, 1, 3, 5, 6]);
    let faces: Vec<usize> = run.glyphs.as_slice().iter().map(|g| g.face_id.0).collect();
    // What no family has a glyph for is set in a placeholder of the first.
    assert_eq!(faces, vec![0, 1, 2, 0, 0]);
    assert_eq!(run.glyphs.as_slice()[4].glyph_id, 0);
    assert_eq!(run.glyphs.as_slice()[4].x_advance, Em::from_units(700, 1000));
}

#[test]
fn line_feeds_within_text_give_no_glyphs() {
    let fonts = latin_store();
    let styles = style(&["latin"]);
    let run = shape(&fonts, "a\nb", &styles, Dir::LTR);
    assert_eq!(clusters(&run), vec![0, 2]);
    assert_eq!(run.glyphs.as_slice().iter().map(|g| g.c).collect::<String>(), "ab");
}

#[test]
fn shaped_runs_keep_their_invariants() {
    let mut fonts = latin_store();
    fonts.push(face("greek", regular(), 900, &GREEK));
    fonts.push(face("hebrew", regular(), 700, &HEBREW));
    let letters = ['a', 'b', ' ', 'λ', 'μ', 'ש', 'ל', '🜚', '\n', 'é', '-'];
    let mut seed: u32 = 12345;
    let mut next = || {
        seed = seed.wrapping_mul(1664525).wrapping_add(1013904223);
        (seed >> 16) as usize
    };
    for round in 0..400 {
        let len = next() % 9;
        let text: String = (0..len).map(|_| letters[next() % letters.len()]).collect();
        let dir = if round % 2 == 0 { Dir::LTR } else { Dir::RTL };
        let mut styles = style(&[["latin", "greek", "hebrew"][next() % 3], "latin"]);
        styles.fallback = next() % 2 == 0;
        if next() % 3 == 0 {
            styles.tracking = Em::from_raw(500);
            styles.spacing = Ratio::from_raw(70000);
        }
        let run = shape(&fonts, &text, &styles, dir);
        let glyphs = run.glyphs.as_slice();
        assert!(run.is_well_formed(), "{text:?} {dir:?}");
        let mut width = Length::zero();
        for g in glyphs {
            assert!(g.cluster < text.len());
            assert!(text.is_char_boundary(g.cluster));
            assert_eq!(Some(g.c), text[g.cluster..].chars().next());
            assert!(g.face_id.0 < 3);
            width = width.plus(g.x_advance.resolve(styles.size));
        }
        assert_eq!(run.size.x, width);
        // Every character has a glyph or a placeholder, but for line feeds,
        // which have one only next to a character that no face has.
        let shown = text.chars().filter(|c| *c != '\n').count();
        assert!(shown <= glyphs.len() && glyphs.len() <= text.chars().count(), "{text:?} {dir:?}");
        if !text.is_empty() {
            assert_eq!(run.slice_safe_to_break(0..text.len()), Some(glyphs));
        }
        for start in 0..=text.len() {
            for end in start..=text.len() {
                if text.is_char_boundary(start) && text.is_char_boundary(end) {
                    let part = reshape(&run, &fonts, start..end);
                    assert!(part.is_well_formed());
                    assert_eq!(part.text.as_str(), &text[start..end]);
                }
            }
        }
    }
}

#[test]
fn sets_one_placeholder_for_each_character() {
    let mut fonts = latin_store();
    let mut blank = face("blank", regular(), 700, &LATIN);
    blank.data = vec![];
    fonts.push(blank);
    let styles = style(&["latin"]);
    let none = vec![];
    let mut ctx = context(&fonts, &styles, Dir::LTR, &none);
    ctx.glyphs = vec![glyph(0, true)];
    shape_tofus(&mut ctx, 0, "🜚", FaceId(0));
    assert_eq!(
        ctx.glyphs,
        vec![
            glyph(0, true),
            ShapedGlyph {
                face_id: FaceId(0),
                glyph_id: 0,
                x_advance: Em::from_units(700, 1000),
                x_offset: Em::zero(),
                cluster: 0,
                safe_to_break: true,
                c: '🜚',
            },
        ]
    );
    // A face that records no advance for its glyph zero gives none.
    shape_tofus(&mut ctx, 4, "aλ", FaceId(1));
    assert_eq!(ctx.glyphs.len(), 4);
    assert_eq!(ctx.glyphs[2].x_advance, Em::zero());
    assert_eq!((ctx.glyphs[2].cluster, ctx.glyphs[2].c), (4, 'a'));
    assert_eq!((ctx.glyphs[3].cluster, ctx.glyphs[3].c), (5, 'λ'));
    assert!(ctx.used.is_empty());

    let mut ctx = context(&fonts, &styles, Dir::RTL, &none);
    shape_tofus(&mut ctx, 4, "aλb", FaceId(0));
    let seen: Vec<(usize, char)> = ctx.glyphs.iter().map(|g| (g.cluster, g.c)).collect();
    assert_eq!(seen, vec![(7, 'b'), (5, 'λ'), (4, 'a')]);
    shape_tofus(&mut ctx, 0, "", FaceId(0));
    assert_eq!(ctx.glyphs.len(), 3);
}

#[test]
fn asks_for_what_the_shaper_made() {
    let fonts = latin_store();
    let styles = style(&["latin"]);
    let request = text_shaping::shaped::shape(&fonts, "ab", &styles, Dir::LTR, &vec![]).unwrap_err();
    assert_eq!((request.face_id, request.text.as_str()), (FaceId(0), "ab"));
    // Results for another face or another text do not answer.
    let other = vec![
        Shaped { face_id: FaceId(1), text: "ab".to_string(), glyphs: None },
        Shaped { face_id: FaceId(0), text: "abc".to_string(), glyphs: None },
    ];
    assert!(text_shaping::shaped::shape(&fonts, "ab", &styles, Dir::LTR, &other).is_err());
    // The first result for the face and the text answers.
    let shaped = vec![
        other[0].clone(),
        request.answer(Some(vec![
            RawGlyph::new(7, 0, true, 100, 10),
            RawGlyph::new(8, 1, false, 200, 0),
        ])),
        Shaped { face_id: FaceId(0), text: "ab".to_string(), glyphs: None },
    ];
    let run = text_shaping::shaped::shape(&fonts, "ab", &styles, Dir::LTR, &shaped).unwrap();
    assert_eq!(
        run.glyphs.as_slice(),
        &[
            ShapedGlyph {
                face_id: FaceId(0),
                glyph_id: 7,
                x_advance: Em::from_units(100, 1000),
                x_offset: Em::from_units(10, 1000),
                cluster: 0,
                safe_to_break: false,
                c: 'a',
            },
            ShapedGlyph {
                face_id: FaceId(0),
                glyph_id: 8,
                x_advance: Em::from_units(200, 1000),
                x_offset: Em::zero(),
                cluster: 1,
                safe_to_break: true,
                c: 'b',
            },
        ]
    );
}

#[test]
fn shapes_every_text_and_every_feature_value() {
    let mut fonts = FontStore::new();
    fonts.push(face("devanagari", regular(), 700, &[('\u{915}', 600)]));
    let mut styles = style(&["devanagari"]);
    styles.features = vec![Feature { tag: Tag::from_bytes(b"aalt"), value: 70000 }];
    let request =
        text_shaping::shaped::shape(&fonts, "\u{915}", &styles, Dir::LTR, &vec![]).unwrap_err();
    assert_eq!((request.face_id, request.text.as_str()), (FaceId(0), "\u{915}"));
    let shaped = vec![request.answer(Some(vec![RawGlyph::new(1, 0, false, 600, 0)]))];
    let run = text_shaping::shaped::shape(&fonts, "\u{915}", &styles, Dir::LTR, &shaped).unwrap();
    assert_eq!(run.glyphs.as_slice().len(), 1);
    assert_eq!(run.glyphs.as_slice()[0].c, '\u{915}');
    assert_eq!(run.size.x, Length::from_raw(393210));
    // And with the shaper itself.
    styles.features = vec![];
    let run = shape(&fonts, "\u{915}", &styles, Dir::LTR);
    assert_eq!(glyph_ids(&run), vec![1]);
}

#[test]
fn sets_placeholders_where_the_shaper_gives_nothing_to_use() {
    let mut fonts = latin_store();
    let mut broken = face("greek", regular(), 900, &GREEK);
    broken.data = vec![1, 2, 3];
    fonts.push(broken);
    let styles = style(&["latin", "greek"]);
    // The font of the greek face cannot be read: what it was picked for is
    // set in placeholders of the latin face.
    let run = shape(&fonts, "aλb", &styles, Dir::LTR);
    assert_eq!(clusters(&run), vec![0, 1, 3]);
    let seen: Vec<(usize, u16)> =
        run.glyphs.as_slice().iter().map(|g| (g.face_id.0, g.glyph_id)).collect();
    assert_eq!(seen, vec![(0, glyph_number(&LATIN, 'a')), (0, 0), (0, glyph_number(&LATIN, 'b'))]);

    // Glyphs that do not describe the text are not used either.
    let fonts = latin_store();
    let styles = style(&["latin"]);
    let off = vec![Shaped {
        face_id: FaceId(0),
        text: "ab".to_string(),
        glyphs: Some(vec![RawGlyph::new(1, 5, false, 100, 0)]),
    }];
    let mut ctx = context(&fonts, &styles, Dir::LTR, &off);
    assert!(shape_segment(&mut ctx, 0, "ab", 0).is_ok());
    assert_eq!(ctx.glyphs.len(), 0);
}

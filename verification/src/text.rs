//! Text by byte offset.
//!
//! Glyph clusters are byte offsets into UTF-8 text. This module reads the
//! character that starts at such an offset, steps to the next one, and cuts
//! text between two of them.

use vstd::prelude::*;
use vstd::string::StringSliceAdditionalSpecFns;
use vstd::utf8::*;

verus! {

/// The character whose encoding starts at byte `at` of `bytes`.
pub open spec fn char_at(bytes: Seq<u8>, at: int) -> char
    recommends
        valid_utf8(bytes),
        is_char_boundary(bytes, at),
        at < bytes.len(),
{
    decode_first_scalar(bytes.subrange(at, bytes.len() as int)) as char
}

/// How many bytes encode the character that starts at byte `at` of `bytes`.
pub open spec fn char_width(bytes: Seq<u8>, at: int) -> int
    recommends
        valid_utf8(bytes),
        is_char_boundary(bytes, at),
        at < bytes.len(),
{
    length_of_first_scalar(bytes.subrange(at, bytes.len() as int))
}

/// Whether `start..end` cuts `bytes` at character boundaries.
pub open spec fn is_text_range(bytes: Seq<u8>, start: int, end: int) -> bool {
    &&& 0 <= start <= end <= bytes.len()
    &&& is_char_boundary(bytes, start)
    &&& is_char_boundary(bytes, end)
}

/// Whether the character is a line feed or a tab.
pub open spec fn is_blank(c: char) -> bool {
    c == '\n' || c == '\t'
}

/// Whether the text holds nothing but line feeds and tabs.
pub open spec fn spec_all_blank(text: Seq<char>) -> bool {
    forall|i: int| 0 <= i < text.len() ==> is_blank(#[trigger] text[i])
}

/// The text of a `str` is the decoding of its bytes.
pub proof fn lemma_view_of_bytes(text: &str)
    ensures
        valid_utf8(text.spec_bytes()),
        decode_utf8(text.spec_bytes()) == text@,
{
    encode_utf8_valid_utf8(text@);
    encode_utf8_decode_utf8(text@);
}

/// Text has no bytes exactly when it has no characters.
pub proof fn lemma_empty_text(text: Seq<char>)
    ensures
        encode_utf8(text).len() == 0 <==> text.len() == 0,
{
    if text.len() > 0 {
        encode_utf8_first_scalar(text);
        assert(valid_first_scalar(encode_utf8(text)));
    }
}

/// A character starts at a boundary short of the end, its encoding is one to
/// four bytes long, and the next boundary is where it ends.
pub proof fn lemma_char_step(bytes: Seq<u8>, at: int)
    requires
        valid_utf8(bytes),
        is_char_boundary(bytes, at),
        0 <= at < bytes.len(),
    ensures
        1 <= char_width(bytes, at) <= 4,
        at + char_width(bytes, at) <= bytes.len(),
        is_char_boundary(bytes, at + char_width(bytes, at)),
        valid_first_scalar(bytes.subrange(at, bytes.len() as int)),
{
    let tail = bytes.subrange(at, bytes.len() as int);
    valid_utf8_split(bytes, at);
    assert(valid_first_scalar(tail));
    let w = length_of_first_scalar(tail);
    let next = at + w;
    if next == bytes.len() {
        is_char_boundary_start_end_of_seq(bytes);
    } else {
        let rest = pop_first_scalar(tail);
        assert(valid_utf8(rest));
        assert(rest.len() > 0);
        assert(valid_first_scalar(rest));
        assert(rest[0] == bytes[next]);
        is_char_boundary_iff_not_is_continuation_byte(bytes, next);
    }
}

/// Within a piece of text cut at character boundaries, the boundaries are
/// those of the whole text, shifted by where the piece starts.
pub proof fn lemma_boundary_in_range(bytes: Seq<u8>, start: int, end: int, k: int)
    requires
        valid_utf8(bytes),
        is_text_range(bytes, start, end),
        0 <= k <= end - start,
    ensures
        valid_utf8(bytes.subrange(start, end)),
        is_char_boundary(bytes.subrange(start, end), k) <==> is_char_boundary(bytes, start + k),
{
    let head = bytes.subrange(0, end);
    valid_utf8_split(bytes, end);
    assert(valid_utf8(head));
    // `start` is a boundary of the text up to `end`.
    if start == end {
        is_char_boundary_start_end_of_seq(head);
    } else {
        is_char_boundary_iff_not_is_continuation_byte(bytes, start);
        is_char_boundary_iff_not_is_continuation_byte(head, start);
        assert(head[start] == bytes[start]);
    }
    valid_utf8_split(head, start);
    let piece = bytes.subrange(start, end);
    assert(piece =~= head.subrange(start, head.len() as int));
    if k == end - start {
        is_char_boundary_start_end_of_seq(piece);
    } else {
        is_char_boundary_iff_not_is_continuation_byte(piece, k);
        is_char_boundary_iff_not_is_continuation_byte(bytes, start + k);
        assert(piece[k] == bytes[start + k]);
    }
}

/// The character that starts at a boundary of a piece of text is the one
/// that starts there in the whole text.
pub proof fn lemma_char_in_range(bytes: Seq<u8>, start: int, end: int, k: int)
    requires
        valid_utf8(bytes),
        is_text_range(bytes, start, end),
        0 <= k < end - start,
        is_char_boundary(bytes, start + k),
    ensures
        char_at(bytes.subrange(start, end), k) == char_at(bytes, start + k),
        char_width(bytes.subrange(start, end), k) == char_width(bytes, start + k),
{
    let piece = bytes.subrange(start, end);
    lemma_boundary_in_range(bytes, start, end, k);
    lemma_char_step(piece, k);
    lemma_char_step(bytes, start + k);
    let a = piece.subrange(k, piece.len() as int);
    let b = bytes.subrange(start + k, bytes.len() as int);
    assert(a.len() >= length_of_first_scalar(a));
    assert(forall|i: int| 0 <= i < a.len() ==> a[i] == b[i]);
}

/// How many bytes encode the text.
pub fn byte_len(text: &str) -> (n: usize)
    ensures
        n == text.spec_bytes().len(),
{
    text.as_bytes().len()
}

/// The character that starts at byte `at` of `text`.
pub fn char_at_byte(text: &str, at: usize) -> (c: char)
    requires
        is_char_boundary(text.spec_bytes(), at as int),
        at < text.spec_bytes().len(),
    ensures
        c == char_at(text.spec_bytes(), at as int),
{
    let (_, tail) = text.split_at(at);
    proof {
        lemma_view_of_bytes(text);
        lemma_view_of_bytes(tail);
        lemma_char_step(text.spec_bytes(), at as int);
        if tail@.len() == 0 {
            assert(encode_utf8(tail@) =~= Seq::<u8>::empty());
        }
        encode_utf8_first_scalar(tail@);
        char_u32_cast(tail@[0], decode_first_scalar(tail.spec_bytes()));
        vstd::string::axiom_spec_iter(tail);
    }
    let mut chars = tail.chars();
    let first = chars.next();
    proof {
        vstd::string::next_postcondition(&vstd::string::spec_iter(tail), &chars, first);
    }
    first.unwrap()
}

/// The byte offset just past the character that starts at byte `at`.
pub fn char_end(text: &str, at: usize) -> (end: usize)
    requires
        is_char_boundary(text.spec_bytes(), at as int),
        at < text.spec_bytes().len(),
    ensures
        end == at + char_width(text.spec_bytes(), at as int),
        at < end <= text.spec_bytes().len(),
        is_char_boundary(text.spec_bytes(), end as int),
{
    proof {
        lemma_view_of_bytes(text);
        lemma_char_step(text.spec_bytes(), at as int);
    }
    let lead: u8 = text.as_bytes()[at];
    let width: usize = if lead < 0x80 {
        1
    } else if lead < 0xe0 {
        2
    } else if lead < 0xf0 {
        3
    } else {
        4
    };
    at + width
}

/// The piece of `text` between two character boundaries.
pub fn substr<'a>(text: &'a str, start: usize, end: usize) -> (piece: &'a str)
    requires
        is_text_range(text.spec_bytes(), start as int, end as int),
    ensures
        piece.spec_bytes() == text.spec_bytes().subrange(start as int, end as int),
        piece@ == decode_utf8(text.spec_bytes().subrange(start as int, end as int)),
{
    proof {
        lemma_view_of_bytes(text);
        lemma_boundary_in_range(text.spec_bytes(), 0, end as int, start as int);
    }
    let (head, _) = text.split_at(end);
    let (_, piece) = head.split_at(start);
    proof {
        lemma_view_of_bytes(piece);
        assert(piece.spec_bytes() =~= text.spec_bytes().subrange(start as int, end as int));
    }
    piece
}

/// Whether the text holds nothing but line feeds and tabs.
pub fn all_blank(text: &str) -> (r: bool)
    ensures
        r == spec_all_blank(text@),
{
    let mut r = true;
    for c in iter: text.chars()
        invariant
            iter.seq() == text@,
            r == (forall|i: int| 0 <= i < iter.index() ==> is_blank(#[trigger] text@[i])),
    {
        r = r && (c == '\n' || c == '\t');
    }
    r
}

/// Whether two texts hold the same characters.
pub fn str_eq(a: &str, b: &str) -> (r: bool)
    ensures
        r == (a@ == b@),
{
    proof {
        lemma_view_of_bytes(a);
        lemma_view_of_bytes(b);
    }
    let x = a.as_bytes();
    let y = b.as_bytes();
    if x.len() != y.len() {
        return false;
    }
    let mut i: usize = 0;
    while i < x.len()
        invariant
            x@ == a.spec_bytes(),
            y@ == b.spec_bytes(),
            x.len() == y.len(),
            i <= x.len(),
            forall|j: int| 0 <= j < i ==> x@[j] == y@[j],
        decreases x.len() - i,
    {
        if x[i] != y[i] {
            return false;
        }
        i += 1;
    }
    assert(x@ =~= y@);
    true
}

} // verus!

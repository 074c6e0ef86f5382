use vstd::prelude::*;
use vstd::string::StringSliceAdditionalSpecFns;
use vstd::utf8::*;

verus! {

/// In valid UTF-8 a character starts right behind every ASCII byte.
pub proof fn lemma_boundary_after_ascii(s: Seq<u8>, i: int)
    requires
        valid_utf8(s),
        0 <= i < s.len(),
        s[i] <= 0x7f,
    ensures
        is_char_boundary(s, i + 1),
    decreases s.len(),
{
    let width = length_of_first_scalar(s);
    let rest = pop_first_scalar(s);
    if i < width {
        assert(i == 0);
        assert(width == 1);
        assert(is_char_boundary(rest, 0));
    } else {
        assert(rest[i - width] == s[i]);
        lemma_boundary_after_ascii(rest, i - width);
    }
}

/// The text that the bytes `[start, end)` of the source encode.
pub open spec fn lexeme_text(s: Seq<u8>, start: int, end: int) -> Seq<char> {
    decode_utf8(s.subrange(start, end))
}

/// The text between two character starts of the source.
pub fn slice_str(source: &str, start: usize, end: usize) -> (text: &str)
    requires
        start <= end <= source.spec_bytes().len(),
        is_char_boundary(source.spec_bytes(), start as int),
        is_char_boundary(source.spec_bytes(), end as int),
    ensures
        text@ == lexeme_text(source.spec_bytes(), start as int, end as int),
        text.spec_bytes() == source.spec_bytes().subrange(start as int, end as int),
{
    let ghost s = source.spec_bytes();
    let (head, _) = source.split_at(end);
    proof {
        encode_utf8_valid_utf8(source@);
        encode_utf8_valid_utf8(head@);
        assert(head.spec_bytes() =~= s.subrange(0, end as int));
        if start < end {
            is_char_boundary_iff_not_is_continuation_byte(s, start as int);
            is_char_boundary_iff_not_is_continuation_byte(head.spec_bytes(), start as int);
        } else {
            is_char_boundary_start_end_of_seq(head.spec_bytes());
        }
    }
    let (_, piece) = head.split_at(start);
    proof {
        assert(piece.spec_bytes() =~= s.subrange(start as int, end as int));
        encode_utf8_decode_utf8(piece@);
    }
    piece
}

/// The text between two character starts of the source, as a string of its
/// own.
pub fn slice_text(source: &str, start: usize, end: usize) -> (text: String)
    requires
        start <= end <= source.spec_bytes().len(),
        is_char_boundary(source.spec_bytes(), start as int),
        is_char_boundary(source.spec_bytes(), end as int),
    ensures
        text@ == lexeme_text(source.spec_bytes(), start as int, end as int),
{
    slice_str(source, start, end).to_owned()
}

/// The last place at or before `at` where a character starts; the end of
/// the text for a place behind it.
pub open spec fn cut(s: Seq<u8>, at: int) -> int
    decreases at,
{
    if at <= 0 {
        0
    } else if at >= s.len() {
        s.len() as int
    } else if is_char_boundary(s, at) {
        at
    } else {
        cut(s, at - 1)
    }
}

/// A cut lies inside the text, at or before the place asked for, where a
/// character starts; and a later place gives no earlier cut.
pub proof fn lemma_cut(s: Seq<u8>, at: int)
    requires
        valid_utf8(s),
    ensures
        0 <= cut(s, at) <= s.len(),
        at >= 0 ==> cut(s, at) <= at,
        is_char_boundary(s, cut(s, at)),
        0 <= at <= s.len() && is_char_boundary(s, at) ==> cut(s, at) == at,
    decreases at,
{
    is_char_boundary_start_end_of_seq(s);
    if 0 < at < s.len() && !is_char_boundary(s, at) {
        lemma_cut(s, at - 1);
    }
}

pub proof fn lemma_cut_monotone(s: Seq<u8>, a: int, b: int)
    requires
        valid_utf8(s),
        a <= b,
    ensures
        cut(s, a) <= cut(s, b),
    decreases b,
{
    lemma_cut(s, a);
    lemma_cut(s, b);
    if 0 < b < s.len() && !is_char_boundary(s, b) && a < b {
        lemma_cut_monotone(s, a, b - 1);
    }
}

/// Finds the last place at or before `at` where a character starts.
pub fn cut_at(text: &str, at: usize) -> (place: usize)
    ensures
        place == cut(text.spec_bytes(), at as int),
        place <= text.spec_bytes().len(),
        is_char_boundary(text.spec_bytes(), place as int),
{
    proof {
        encode_utf8_valid_utf8(text@);
        lemma_cut(text.spec_bytes(), at as int);
    }
    let len = text.as_bytes().len();
    if at >= len {
        return len;
    }
    let mut place = at;
    while place > 0 && !text.is_char_boundary(place)
        invariant
            place <= at < text.spec_bytes().len(),
            cut(text.spec_bytes(), place as int) == cut(text.spec_bytes(), at as int),
        decreases place,
    {
        place -= 1;
    }
    place
}

} // verus!

//! The lexemes of the language as patterns over bytes, and the proof that
//! the scan takes, at every place, the longest text that matches one.

use vstd::prelude::*;
use crate::ast::grammar::{
    exponent_end, is_escape, is_word_start, lemma_exponent_end, lemma_run_end, lemma_scan_moves,
    lemma_string_stop, run_end, scan_at, string_stop, ByteClass, Shape, AMPERSAND, BACKSLASH,
    BANG, CARET, COLON, DOT, EQUALS, LEFT_PAREN, LOWER_E, MINUS, PERCENT, PIPE, PLUS, QUOTE,
    RIGHT_PAREN, SEMICOLON, SLASH, STAR, TILDE, UPPER_E,
};
use crate::ast::lexer::TokenKind;

verus! {

/// From `from` on, the text is a run of bytes of `class`, and not empty.
pub open spec fn is_run(t: Seq<u8>, from: int, class: ByteClass) -> bool {
    0 <= from < t.len() && run_end(t, from, class) == t.len()
}

/// A word: a letter, `$` or `_`, then letters, digits, `$` and `_`.
pub open spec fn is_word(t: Seq<u8>) -> bool {
    t.len() >= 1 && is_word_start(t[0]) && run_end(t, 0, ByteClass::WordPart) == t.len()
}

/// An integer: digits, behind a minus sign or not.
pub open spec fn is_integer(t: Seq<u8>) -> bool {
    is_run(t, 0, ByteClass::Digit) || (t.len() >= 1 && t[0] == MINUS && is_run(
        t,
        1,
        ByteClass::Digit,
    ))
}

/// From `from` on, the text is an exponent: `e` or `E`, then digits, behind
/// a sign or not.
pub open spec fn is_exponent(t: Seq<u8>, from: int) -> bool {
    &&& 0 <= from < t.len()
    &&& t[from] == LOWER_E || t[from] == UPPER_E
    &&& is_run(t, from + 1, ByteClass::Digit) || (from + 1 < t.len() && (t[from + 1] == PLUS
        || t[from + 1] == MINUS) && is_run(t, from + 2, ByteClass::Digit))
}

/// A float: digits or none, a point, digits, and an exponent or none; or
/// digits and an exponent.
pub open spec fn is_float(t: Seq<u8>) -> bool {
    let whole = run_end(t, 0, ByteClass::Digit);
    let fraction = run_end(t, whole + 1, ByteClass::Digit);
    ||| {
        &&& whole < t.len()
        &&& t[whole] == DOT
        &&& whole + 1 < fraction
        &&& fraction == t.len() || is_exponent(t, fraction)
    }
    ||| 0 < whole && is_exponent(t, whole)
}

/// A string literal: a quote, a body in which a backslash stands only before
/// `t`, `u`, `n` or a quote, and the first quote that no backslash stands
/// before.
pub open spec fn is_string(t: Seq<u8>) -> bool {
    t.len() >= 2 && t[0] == QUOTE && string_stop(t, 1) == t.len() - 1 && t[t.len() - 1] == QUOTE
}

/// The operator or punctuation mark that the text spells, if it spells one.
pub open spec fn fixed_kind(t: Seq<u8>) -> Option<TokenKind> {
    if t == seq![COLON, EQUALS] {
        Some(TokenKind::OpAssign)
    } else if t == seq![AMPERSAND, AMPERSAND] {
        Some(TokenKind::OpLogicalAnd)
    } else if t == seq![PIPE, PIPE] {
        Some(TokenKind::OpLogicalOr)
    } else if t == seq![PLUS] {
        Some(TokenKind::OpAddition)
    } else if t == seq![MINUS] {
        Some(TokenKind::OpSubtraction)
    } else if t == seq![STAR] {
        Some(TokenKind::OpMultiplication)
    } else if t == seq![PERCENT] {
        Some(TokenKind::OpPercent)
    } else if t == seq![SLASH] {
        Some(TokenKind::OpDivision)
    } else if t == seq![AMPERSAND] {
        Some(TokenKind::OpBitwiseAnd)
    } else if t == seq![PIPE] {
        Some(TokenKind::OpBitwiseOr)
    } else if t == seq![CARET] {
        Some(TokenKind::OpBitwiseXor)
    } else if t == seq![BANG] {
        Some(TokenKind::OpLogicalNot)
    } else if t == seq![TILDE] {
        Some(TokenKind::OpBitwiseNot)
    } else if t == seq![EQUALS] {
        Some(TokenKind::OpEqual)
    } else if t == seq![LEFT_PAREN] {
        Some(TokenKind::LeftParen)
    } else if t == seq![RIGHT_PAREN] {
        Some(TokenKind::RightParen)
    } else if t == seq![SEMICOLON] {
        Some(TokenKind::Semicolon)
    } else {
        None
    }
}

/// What the text is as a whole, if it is a lexeme.
pub open spec fn lexeme_shape(t: Seq<u8>) -> Option<Shape> {
    match fixed_kind(t) {
        Some(kind) => Some(Shape::Fixed(kind)),
        None => if is_word(t) {
            Some(Shape::Word)
        } else if is_integer(t) {
            Some(Shape::Integer)
        } else if is_float(t) {
            Some(Shape::Float)
        } else if is_string(t) {
            Some(Shape::Quoted)
        } else {
            None
        },
    }
}

/// A run inside a piece of the text is the run in the text, cut off where
/// the piece ends.
pub proof fn lemma_run_in_piece(s: Seq<u8>, pos: int, end: int, from: int, class: ByteClass)
    requires
        0 <= pos <= end <= s.len(),
        0 <= from <= end - pos,
    ensures
        run_end(s.subrange(pos, end), from, class) == (if run_end(s, pos + from, class) < end {
            run_end(s, pos + from, class)
        } else {
            end
        }) - pos,
    decreases end - pos - from,
{
    let t = s.subrange(pos, end);
    lemma_run_end(s, pos + from, class);
    if from < t.len() && class.holds(t[from]) {
        lemma_run_in_piece(s, pos, end, from + 1, class);
    }
}

/// A string body that stops at a quote inside a piece of the text stops at
/// that quote in the text.
pub proof fn lemma_string_in_piece(s: Seq<u8>, pos: int, end: int, from: int)
    requires
        0 <= pos <= end <= s.len(),
        0 <= from <= end - pos,
        string_stop(s.subrange(pos, end), from) < end - pos,
        s.subrange(pos, end)[string_stop(s.subrange(pos, end), from)] == QUOTE,
    ensures
        string_stop(s, pos + from) == pos + string_stop(s.subrange(pos, end), from),
    decreases end - pos - from,
{
    let t = s.subrange(pos, end);
    if from < t.len() && t[from] != QUOTE {
        if t[from] == BACKSLASH {
            if from + 1 < t.len() && is_escape(t[from + 1]) {
                lemma_string_in_piece(s, pos, end, from + 2);
            }
        } else {
            lemma_string_in_piece(s, pos, end, from + 1);
        }
    }
}

/// A string body that stops at a quote in the text stops there in every
/// piece that holds the quote.
pub proof fn lemma_string_of_piece(s: Seq<u8>, pos: int, end: int, from: int)
    requires
        0 <= pos <= end <= s.len(),
        0 <= from <= end - pos,
        string_stop(s, pos + from) < end,
        s[string_stop(s, pos + from)] == QUOTE,
    ensures
        string_stop(s.subrange(pos, end), from) == string_stop(s, pos + from) - pos,
    decreases end - pos - from,
{
    let t = s.subrange(pos, end);
    lemma_string_stop(s, pos + from);
    if from < t.len() && t[from] != QUOTE {
        if t[from] == BACKSLASH {
            if pos + from + 1 < s.len() && is_escape(s[pos + from + 1]) {
                lemma_string_stop(s, pos + from + 2);
                lemma_string_of_piece(s, pos, end, from + 2);
            }
        } else {
            lemma_string_stop(s, pos + from + 1);
            lemma_string_of_piece(s, pos, end, from + 1);
        }
    }
}

/// The runs that the patterns of a piece speak of, told of the text.
proof fn lemma_piece_runs(s: Seq<u8>, pos: int, end: int)
    requires
        0 <= pos < end <= s.len(),
    ensures
        ({
            let t = s.subrange(pos, end);
            let whole = run_end(t, 0, ByteClass::Digit);
            let fraction = run_end(t, whole + 1, ByteClass::Digit);
            &&& run_end(t, 0, ByteClass::WordPart) == t.len() <==> end <= run_end(
                s,
                pos,
                ByteClass::WordPart,
            )
            &&& is_run(t, 0, ByteClass::Digit) <==> end <= run_end(s, pos, ByteClass::Digit)
            &&& is_run(t, 1, ByteClass::Digit) <==> pos + 1 < end <= run_end(
                s,
                pos + 1,
                ByteClass::Digit,
            )
            &&& whole == (if run_end(s, pos, ByteClass::Digit) < end {
                run_end(s, pos, ByteClass::Digit)
            } else {
                end
            }) - pos
            &&& whole < t.len() ==> fraction == (if run_end(s, pos + whole + 1, ByteClass::Digit)
                < end {
                run_end(s, pos + whole + 1, ByteClass::Digit)
            } else {
                end
            }) - pos
        }),
{
    let t = s.subrange(pos, end);
    lemma_run_in_piece(s, pos, end, 0, ByteClass::WordPart);
    lemma_run_in_piece(s, pos, end, 0, ByteClass::Digit);
    lemma_run_in_piece(s, pos, end, 1, ByteClass::Digit);
    lemma_run_end(s, pos, ByteClass::WordPart);
    lemma_run_end(s, pos, ByteClass::Digit);
    lemma_run_end(s, pos + 1, ByteClass::Digit);
    let whole = run_end(t, 0, ByteClass::Digit);
    if whole < t.len() {
        lemma_run_in_piece(s, pos, end, whole + 1, ByteClass::Digit);
    }
}

/// An exponent of a piece, told of the text: the exponent of the text at the
/// same place reaches the end of the piece; and an exponent of the text is
/// one of the piece that ends with it.
proof fn lemma_piece_exponent(s: Seq<u8>, pos: int, end: int, from: int)
    requires
        0 <= pos < end <= s.len(),
        0 <= from <= end - pos,
    ensures
        is_exponent(s.subrange(pos, end), from) ==> pos + from < end <= exponent_end(
            s,
            pos + from,
        ),
        pos + from < end == exponent_end(s, pos + from) ==> is_exponent(
            s.subrange(pos, end),
            from,
        ),
        pos + from <= exponent_end(s, pos + from) <= s.len(),
{
    let t = s.subrange(pos, end);
    lemma_exponent_end(s, pos + from);
    if from + 1 <= end - pos {
        lemma_run_in_piece(s, pos, end, from + 1, ByteClass::Digit);
        lemma_run_end(s, pos + from + 1, ByteClass::Digit);
    }
    if from + 2 <= end - pos {
        lemma_run_in_piece(s, pos, end, from + 2, ByteClass::Digit);
        lemma_run_end(s, pos + from + 2, ByteClass::Digit);
    }
}

/// The scan against one piece of the text that starts where the scan starts:
/// if the piece is a lexeme, the scan found a lexeme at least as long; and
/// the text that the scan found has the shape that the scan says.
pub proof fn lemma_scan_against_piece(s: Seq<u8>, pos: int, end: int)
    requires
        0 <= pos < end <= s.len(),
    ensures
        lexeme_shape(s.subrange(pos, end)) is Some ==> end <= scan_at(s, pos).end && !(scan_at(
            s,
            pos,
        ).shape is Unknown),
        end == scan_at(s, pos).end && !(scan_at(s, pos).shape is Unknown) ==> lexeme_shape(
            s.subrange(pos, end),
        ) == Some(scan_at(s, pos).shape),
{
    let t = s.subrange(pos, end);
    let scan = scan_at(s, pos);
    assert(t[0] == s[pos]);
    if pos + 1 < end {
        assert(t[1] == s[pos + 1]);
    }
    if end == pos + 1 {
        assert(t =~= seq![s[pos]]);
    }
    if end == pos + 2 {
        assert(t =~= seq![s[pos], s[pos + 1]]);
    }
    lemma_scan_moves(s, pos);
    lemma_piece_runs(s, pos, end);
    let whole = run_end(t, 0, ByteClass::Digit);
    lemma_run_end(t, 0, ByteClass::Digit);
    lemma_piece_exponent(s, pos, end, whole);
    if whole < t.len() {
        let fraction = run_end(t, whole + 1, ByteClass::Digit);
        lemma_run_end(t, whole + 1, ByteClass::Digit);
        lemma_piece_exponent(s, pos, end, fraction);
        assert(t[whole] == s[pos + whole]);
    }
    lemma_run_end(s, pos, ByteClass::Digit);
    lemma_run_end(s, pos + 1, ByteClass::Digit);
    let digits = run_end(s, pos, ByteClass::Digit);
    if digits < s.len() {
        lemma_run_end(s, digits + 1, ByteClass::Digit);
        lemma_exponent_end(s, run_end(s, digits + 1, ByteClass::Digit));
    }
    lemma_exponent_end(s, digits);
    lemma_exponent_end(s, run_end(s, pos + 1, ByteClass::Digit));
    lemma_string_stop(s, pos + 1);
    lemma_string_stop(t, 1);
    if t.len() >= 2 && string_stop(t, 1) < t.len() && t[string_stop(t, 1)] == QUOTE {
        lemma_string_in_piece(s, pos, end, 1);
    }
    if string_stop(s, pos + 1) < end && s[string_stop(s, pos + 1)] == QUOTE {
        lemma_string_of_piece(s, pos, end, 1);
        assert(t[string_stop(s, pos + 1) - pos] == s[string_stop(s, pos + 1)]);
    }
}

/// The scan takes the longest match: at every place the text that it finds
/// is a lexeme of the shape it says, no longer text that starts there is a
/// lexeme, and it finds unknown text only where no lexeme starts.
pub proof fn lemma_longest_match(s: Seq<u8>, pos: int)
    requires
        0 <= pos < s.len(),
    ensures
        pos < scan_at(s, pos).end <= s.len(),
        !(scan_at(s, pos).shape is Unknown) ==> lexeme_shape(
            s.subrange(pos, scan_at(s, pos).end),
        ) == Some(scan_at(s, pos).shape),
        forall|end: int|
            pos < end <= s.len() && lexeme_shape(#[trigger] s.subrange(pos, end)) is Some ==> end
                <= scan_at(s, pos).end && !(scan_at(s, pos).shape is Unknown),
{
    lemma_scan_moves(s, pos);
    lemma_scan_against_piece(s, pos, scan_at(s, pos).end);
    assert forall|end: int|
        pos < end <= s.len() && lexeme_shape(#[trigger] s.subrange(pos, end)) is Some implies end
        <= scan_at(s, pos).end && !(scan_at(s, pos).shape is Unknown) by {
        lemma_scan_against_piece(s, pos, end);
    }
}

} // verus!

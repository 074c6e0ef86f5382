//! The lexical grammar, stated over the bytes of the source text, and the
//! scanners that find where a lexeme ends.

use vstd::prelude::*;
use vstd::utf8::*;
use crate::ast::lexer::TokenKind;
use crate::text::slice::lemma_boundary_after_ascii;

verus! {

pub const TAB: u8 = 0x09;
pub const NEWLINE: u8 = 0x0a;
pub const FORM_FEED: u8 = 0x0c;
pub const SPACE: u8 = 0x20;
pub const BANG: u8 = 0x21;
pub const QUOTE: u8 = 0x22;
pub const DOLLAR: u8 = 0x24;
pub const PERCENT: u8 = 0x25;
pub const AMPERSAND: u8 = 0x26;
pub const LEFT_PAREN: u8 = 0x28;
pub const RIGHT_PAREN: u8 = 0x29;
pub const STAR: u8 = 0x2a;
pub const PLUS: u8 = 0x2b;
pub const MINUS: u8 = 0x2d;
pub const DOT: u8 = 0x2e;
pub const SLASH: u8 = 0x2f;
pub const ZERO: u8 = 0x30;
pub const NINE: u8 = 0x39;
pub const COLON: u8 = 0x3a;
pub const SEMICOLON: u8 = 0x3b;
pub const EQUALS: u8 = 0x3d;
pub const UPPER_A: u8 = 0x41;
pub const UPPER_E: u8 = 0x45;
pub const UPPER_Z: u8 = 0x5a;
pub const BACKSLASH: u8 = 0x5c;
pub const CARET: u8 = 0x5e;
pub const UNDERSCORE: u8 = 0x5f;
pub const LOWER_A: u8 = 0x61;
pub const LOWER_E: u8 = 0x65;
pub const LOWER_N: u8 = 0x6e;
pub const LOWER_T: u8 = 0x74;
pub const LOWER_U: u8 = 0x75;
pub const LOWER_Z: u8 = 0x7a;
pub const PIPE: u8 = 0x7c;
pub const TILDE: u8 = 0x7e;

/// The sets of bytes of which the grammar takes maximal runs.
#[derive(Clone, Copy, Debug, PartialEq, Eq, Structural)]
pub enum ByteClass {
    /// Space, tab, newline, form feed.
    Space,
    /// `0` to `9`.
    Digit,
    /// Letters, digits, `$` and `_`: what may follow the start of a word.
    WordPart,
    /// The second and later bytes of a character's encoding.
    Continuation,
}

pub open spec fn is_digit(b: u8) -> bool {
    ZERO <= b <= NINE
}

/// Letters, `$` and `_`: what a word may start with.
pub open spec fn is_word_start(b: u8) -> bool {
    (LOWER_A <= b <= LOWER_Z) || (UPPER_A <= b <= UPPER_Z) || b == DOLLAR || b == UNDERSCORE
}

impl ByteClass {
    pub open spec fn holds(self, b: u8) -> bool {
        match self {
            ByteClass::Space => b == SPACE || b == TAB || b == NEWLINE || b == FORM_FEED,
            ByteClass::Digit => is_digit(b),
            ByteClass::WordPart => is_word_start(b) || is_digit(b),
            ByteClass::Continuation => 0x80 <= b <= 0xbf,
        }
    }

    pub fn test(self, b: u8) -> (yes: bool)
        ensures
            yes == self.holds(b),
    {
        match self {
            ByteClass::Space => b == SPACE || b == TAB || b == NEWLINE || b == FORM_FEED,
            ByteClass::Digit => ZERO <= b && b <= NINE,
            ByteClass::WordPart => (LOWER_A <= b && b <= LOWER_Z) || (UPPER_A <= b && b <= UPPER_Z)
                || b == DOLLAR || b == UNDERSCORE || (ZERO <= b && b <= NINE),
            ByteClass::Continuation => 0x80 <= b && b <= 0xbf,
        }
    }
}

/// Where the maximal run of bytes of `class` that starts at `from` ends.
pub open spec fn run_end(s: Seq<u8>, from: int, class: ByteClass) -> int
    decreases s.len() - from,
{
    if 0 <= from < s.len() && class.holds(s[from]) {
        run_end(s, from + 1, class)
    } else {
        from
    }
}

/// A run ends inside the text, holds only bytes of its class, and is not
/// followed by one.
pub proof fn lemma_run_end(s: Seq<u8>, from: int, class: ByteClass)
    requires
        0 <= from <= s.len(),
    ensures
        from <= run_end(s, from, class) <= s.len(),
        forall|i: int| from <= i < run_end(s, from, class) ==> class.holds(#[trigger] s[i]),
        run_end(s, from, class) < s.len() ==> !class.holds(s[run_end(s, from, class)]),
    decreases s.len() - from,
{
    if from < s.len() && class.holds(s[from]) {
        lemma_run_end(s, from + 1, class);
    }
}

/// Finds the end of the run of `class` that starts at `from`.
pub fn scan_run(bytes: &[u8], from: usize, class: ByteClass) -> (end: usize)
    requires
        from <= bytes@.len(),
    ensures
        end == run_end(bytes@, from as int, class),
        from <= end <= bytes@.len(),
{
    let mut end = from;
    while end < bytes.len() && class.test(bytes[end])
        invariant
            from <= end <= bytes@.len(),
            run_end(bytes@, from as int, class) == run_end(bytes@, end as int, class),
        decreases bytes@.len() - end,
    {
        end += 1;
    }
    end
}

/// Where an exponent that starts at `from` ends: `e` or `E`, an optional
/// sign, then at least one digit. Where none starts there, `from` itself.
pub open spec fn exponent_end(s: Seq<u8>, from: int) -> int {
    if 0 <= from < s.len() && (s[from] == LOWER_E || s[from] == UPPER_E) {
        let digits = if from + 1 < s.len() && (s[from + 1] == PLUS || s[from + 1] == MINUS) {
            from + 2
        } else {
            from + 1
        };
        if digits < s.len() && is_digit(s[digits]) {
            run_end(s, digits, ByteClass::Digit)
        } else {
            from
        }
    } else {
        from
    }
}

pub fn scan_exponent(bytes: &[u8], from: usize) -> (end: usize)
    requires
        from <= bytes@.len(),
    ensures
        end == exponent_end(bytes@, from as int),
        from <= end <= bytes@.len(),
{
    let len = bytes.len();
    if from < len && (bytes[from] == LOWER_E || bytes[from] == UPPER_E) {
        let digits = if from + 1 < len && (bytes[from + 1] == PLUS || bytes[from + 1] == MINUS) {
            from + 2
        } else {
            from + 1
        };
        if digits < len && ByteClass::Digit.test(bytes[digits]) {
            scan_run(bytes, digits, ByteClass::Digit)
        } else {
            from
        }
    } else {
        from
    }
}

/// The bytes that may follow a backslash inside a string literal.
pub open spec fn is_escape(b: u8) -> bool {
    b == LOWER_T || b == LOWER_U || b == LOWER_N || b == QUOTE
}

/// Where the body of a string literal, read from `from` on, stops: at the
/// closing quote, behind a backslash that no escape follows, or at the end of
/// the text.
pub open spec fn string_stop(s: Seq<u8>, from: int) -> int
    decreases s.len() - from,
{
    if !(0 <= from < s.len()) {
        from
    } else if s[from] == QUOTE {
        from
    } else if s[from] == BACKSLASH {
        if from + 1 < s.len() && is_escape(s[from + 1]) {
            string_stop(s, from + 2)
        } else {
            from + 1
        }
    } else {
        string_stop(s, from + 1)
    }
}

/// The body stops inside the text: at its end, at a quote, or right behind a
/// backslash.
pub proof fn lemma_string_stop(s: Seq<u8>, from: int)
    requires
        0 <= from <= s.len(),
    ensures
        from <= string_stop(s, from) <= s.len(),
        string_stop(s, from) == s.len() || s[string_stop(s, from)] == QUOTE || (from
            < string_stop(s, from) && s[string_stop(s, from) - 1] == BACKSLASH),
    decreases s.len() - from,
{
    if from < s.len() && s[from] != QUOTE {
        if s[from] == BACKSLASH {
            if from + 1 < s.len() && is_escape(s[from + 1]) {
                lemma_string_stop(s, from + 2);
            }
        } else {
            lemma_string_stop(s, from + 1);
        }
    }
}

pub fn scan_string_body(bytes: &[u8], from: usize) -> (stop: usize)
    requires
        from <= bytes@.len(),
    ensures
        stop == string_stop(bytes@, from as int),
        from <= stop <= bytes@.len(),
{
    let len = bytes.len();
    let mut at = from;
    loop
        invariant_except_break
            string_stop(bytes@, from as int) == string_stop(bytes@, at as int),
        invariant
            from <= at <= len,
            len == bytes@.len(),
        ensures
            from <= at <= len,
            at == string_stop(bytes@, from as int),
        decreases len - at,
    {
        if at >= len {
            break;
        }
        let b = bytes[at];
        if b == QUOTE {
            break;
        }
        if b == BACKSLASH {
            if at + 1 < len && (bytes[at + 1] == LOWER_T || bytes[at + 1] == LOWER_U
                || bytes[at + 1] == LOWER_N || bytes[at + 1] == QUOTE) {
                at += 2;
            } else {
                at += 1;
                break;
            }
        } else {
            at += 1;
        }
    }
    at
}

/// What a lexeme is, as far as its bytes alone tell.
#[derive(Debug)]
pub enum Shape {
    /// A keyword or an identifier.
    Word,
    /// An optional minus sign and digits.
    Integer,
    /// A number with a fraction or an exponent.
    Float,
    /// A string literal with both its quotes.
    Quoted,
    /// An operator or a punctuation mark: the kind says which.
    Fixed(TokenKind),
    /// Text that no rule matches.
    Unknown,
}

/// One step of the scan: where the lexeme ends and what it is.
pub struct Scan {
    pub end: int,
    pub shape: Shape,
}

pub open spec fn fixed(end: int, kind: TokenKind) -> Scan {
    Scan { end, shape: Shape::Fixed(kind) }
}

/// A character that starts no lexeme is unknown text on its own: it ends
/// where its encoding ends.
pub open spec fn unknown_char(s: Seq<u8>, pos: int) -> Scan {
    Scan { end: run_end(s, pos + 1, ByteClass::Continuation), shape: Shape::Unknown }
}

/// Where a fraction whose digits start at `from` ends, its exponent included.
pub open spec fn fraction_end(s: Seq<u8>, from: int) -> int {
    exponent_end(s, run_end(s, from, ByteClass::Digit))
}

/// The number that starts with the digit at `pos`: a float where a fraction
/// or an exponent follows the digits, else an integer.
pub open spec fn number_at(s: Seq<u8>, pos: int) -> Scan {
    let digits = run_end(s, pos, ByteClass::Digit);
    if digits + 1 < s.len() && s[digits] == DOT && is_digit(s[digits + 1]) {
        Scan { end: fraction_end(s, digits + 1), shape: Shape::Float }
    } else if exponent_end(s, digits) > digits {
        Scan { end: exponent_end(s, digits), shape: Shape::Float }
    } else {
        Scan { end: digits, shape: Shape::Integer }
    }
}

/// The longest lexeme that starts at `pos`, or the unknown text there.
///
/// A word runs as far as word bytes go. A number takes a fraction and an
/// exponent where they are complete. A minus sign belongs to the digits that
/// follow it directly. A string literal runs to its closing quote; where it
/// has none, all that was read of it is unknown text. Two-byte operators win
/// over their one-byte prefixes.
pub open spec fn scan_at(s: Seq<u8>, pos: int) -> Scan {
    let b = s[pos];
    let follows = pos + 1 < s.len();
    if is_word_start(b) {
        Scan { end: run_end(s, pos, ByteClass::WordPart), shape: Shape::Word }
    } else if is_digit(b) {
        number_at(s, pos)
    } else if b == MINUS {
        if follows && is_digit(s[pos + 1]) {
            Scan { end: run_end(s, pos + 1, ByteClass::Digit), shape: Shape::Integer }
        } else {
            fixed(pos + 1, TokenKind::OpSubtraction)
        }
    } else if b == DOT {
        if follows && is_digit(s[pos + 1]) {
            Scan { end: fraction_end(s, pos + 1), shape: Shape::Float }
        } else {
            unknown_char(s, pos)
        }
    } else if b == QUOTE {
        let stop = string_stop(s, pos + 1);
        if stop < s.len() && s[stop] == QUOTE {
            Scan { end: stop + 1, shape: Shape::Quoted }
        } else {
            Scan { end: stop, shape: Shape::Unknown }
        }
    } else if b == COLON {
        if follows && s[pos + 1] == EQUALS {
            fixed(pos + 2, TokenKind::OpAssign)
        } else {
            unknown_char(s, pos)
        }
    } else if b == AMPERSAND {
        if follows && s[pos + 1] == AMPERSAND {
            fixed(pos + 2, TokenKind::OpLogicalAnd)
        } else {
            fixed(pos + 1, TokenKind::OpBitwiseAnd)
        }
    } else if b == PIPE {
        if follows && s[pos + 1] == PIPE {
            fixed(pos + 2, TokenKind::OpLogicalOr)
        } else {
            fixed(pos + 1, TokenKind::OpBitwiseOr)
        }
    } else if b == PLUS {
        fixed(pos + 1, TokenKind::OpAddition)
    } else if b == STAR {
        fixed(pos + 1, TokenKind::OpMultiplication)
    } else if b == PERCENT {
        fixed(pos + 1, TokenKind::OpPercent)
    } else if b == SLASH {
        fixed(pos + 1, TokenKind::OpDivision)
    } else if b == CARET {
        fixed(pos + 1, TokenKind::OpBitwiseXor)
    } else if b == BANG {
        fixed(pos + 1, TokenKind::OpLogicalNot)
    } else if b == TILDE {
        fixed(pos + 1, TokenKind::OpBitwiseNot)
    } else if b == EQUALS {
        fixed(pos + 1, TokenKind::OpEqual)
    } else if b == LEFT_PAREN {
        fixed(pos + 1, TokenKind::LeftParen)
    } else if b == RIGHT_PAREN {
        fixed(pos + 1, TokenKind::RightParen)
    } else if b == SEMICOLON {
        fixed(pos + 1, TokenKind::Semicolon)
    } else {
        unknown_char(s, pos)
    }
}

/// Finds the longest lexeme that starts at `pos`.
pub fn scan_token(bytes: &[u8], pos: usize) -> (found: (usize, Shape))
    requires
        pos < bytes@.len(),
    ensures
        found.0 == scan_at(bytes@, pos as int).end,
        found.1 == scan_at(bytes@, pos as int).shape,
        pos < found.0 <= bytes@.len(),
{
    let len = bytes.len();
    let b = bytes[pos];
    let follows = pos + 1 < len;
    proof {
        lemma_scan_moves(bytes@, pos as int);
    }
    if ByteClass::WordPart.test(b) && !ByteClass::Digit.test(b) {
        (scan_run(bytes, pos, ByteClass::WordPart), Shape::Word)
    } else if ByteClass::Digit.test(b) {
        let digits = scan_run(bytes, pos, ByteClass::Digit);
        if len - digits > 1 && bytes[digits] == DOT && ByteClass::Digit.test(bytes[digits + 1]) {
            let fraction = scan_run(bytes, digits + 1, ByteClass::Digit);
            (scan_exponent(bytes, fraction), Shape::Float)
        } else {
            let exponent = scan_exponent(bytes, digits);
            if exponent > digits {
                (exponent, Shape::Float)
            } else {
                (digits, Shape::Integer)
            }
        }
    } else if b == MINUS {
        if follows && ByteClass::Digit.test(bytes[pos + 1]) {
            (scan_run(bytes, pos + 1, ByteClass::Digit), Shape::Integer)
        } else {
            (pos + 1, Shape::Fixed(TokenKind::OpSubtraction))
        }
    } else if b == DOT {
        if follows && ByteClass::Digit.test(bytes[pos + 1]) {
            let fraction = scan_run(bytes, pos + 1, ByteClass::Digit);
            (scan_exponent(bytes, fraction), Shape::Float)
        } else {
            (scan_run(bytes, pos + 1, ByteClass::Continuation), Shape::Unknown)
        }
    } else if b == QUOTE {
        let stop = scan_string_body(bytes, pos + 1);
        if stop < len && bytes[stop] == QUOTE {
            (stop + 1, Shape::Quoted)
        } else {
            (stop, Shape::Unknown)
        }
    } else if b == COLON {
        if follows && bytes[pos + 1] == EQUALS {
            (pos + 2, Shape::Fixed(TokenKind::OpAssign))
        } else {
            (scan_run(bytes, pos + 1, ByteClass::Continuation), Shape::Unknown)
        }
    } else if b == AMPERSAND {
        if follows && bytes[pos + 1] == AMPERSAND {
            (pos + 2, Shape::Fixed(TokenKind::OpLogicalAnd))
        } else {
            (pos + 1, Shape::Fixed(TokenKind::OpBitwiseAnd))
        }
    } else if b == PIPE {
        if follows && bytes[pos + 1] == PIPE {
            (pos + 2, Shape::Fixed(TokenKind::OpLogicalOr))
        } else {
            (pos + 1, Shape::Fixed(TokenKind::OpBitwiseOr))
        }
    } else if b == PLUS {
        (pos + 1, Shape::Fixed(TokenKind::OpAddition))
    } else if b == STAR {
        (pos + 1, Shape::Fixed(TokenKind::OpMultiplication))
    } else if b == PERCENT {
        (pos + 1, Shape::Fixed(TokenKind::OpPercent))
    } else if b == SLASH {
        (pos + 1, Shape::Fixed(TokenKind::OpDivision))
    } else if b == CARET {
        (pos + 1, Shape::Fixed(TokenKind::OpBitwiseXor))
    } else if b == BANG {
        (pos + 1, Shape::Fixed(TokenKind::OpLogicalNot))
    } else if b == TILDE {
        (pos + 1, Shape::Fixed(TokenKind::OpBitwiseNot))
    } else if b == EQUALS {
        (pos + 1, Shape::Fixed(TokenKind::OpEqual))
    } else if b == LEFT_PAREN {
        (pos + 1, Shape::Fixed(TokenKind::LeftParen))
    } else if b == RIGHT_PAREN {
        (pos + 1, Shape::Fixed(TokenKind::RightParen))
    } else if b == SEMICOLON {
        (pos + 1, Shape::Fixed(TokenKind::Semicolon))
    } else {
        (scan_run(bytes, pos + 1, ByteClass::Continuation), Shape::Unknown)
    }
}

/// Every step of the scan moves forward and stays inside the text; and it
/// ends at the end of the text, behind an ASCII byte, or before a byte that
/// continues no character.
pub proof fn lemma_scan_moves(s: Seq<u8>, pos: int)
    requires
        0 <= pos < s.len(),
    ensures
        pos < scan_at(s, pos).end <= s.len(),
        scan_at(s, pos).end == s.len() || s[scan_at(s, pos).end - 1] <= 0x7f
            || !ByteClass::Continuation.holds(s[scan_at(s, pos).end]),
{
    lemma_run_end(s, pos, ByteClass::WordPart);
    lemma_run_end(s, pos, ByteClass::Digit);
    lemma_run_end(s, pos + 1, ByteClass::Digit);
    lemma_run_end(s, pos + 1, ByteClass::Continuation);
    lemma_string_stop(s, pos + 1);
    let digits = run_end(s, pos, ByteClass::Digit);
    if digits + 1 <= s.len() {
        lemma_run_end(s, digits + 1, ByteClass::Digit);
        lemma_exponent_end(s, run_end(s, digits + 1, ByteClass::Digit));
    }
    lemma_exponent_end(s, digits);
    lemma_exponent_end(s, run_end(s, pos + 1, ByteClass::Digit));
}

/// Every step of the scan ends where a character starts.
pub proof fn lemma_scan_ends_at_boundary(s: Seq<u8>, pos: int)
    requires
        valid_utf8(s),
        0 <= pos < s.len(),
    ensures
        is_char_boundary(s, scan_at(s, pos).end),
{
    let end = scan_at(s, pos).end;
    lemma_scan_moves(s, pos);
    if end == s.len() {
        is_char_boundary_start_end_of_seq(s);
    } else if s[end - 1] <= 0x7f {
        lemma_boundary_after_ascii(s, end - 1);
    } else {
        is_char_boundary_iff_not_is_continuation_byte(s, end);
    }
}

/// An exponent ends inside the text, and behind a digit where there is one.
pub proof fn lemma_exponent_end(s: Seq<u8>, from: int)
    requires
        0 <= from <= s.len(),
    ensures
        from <= exponent_end(s, from) <= s.len(),
        exponent_end(s, from) > from ==> is_digit(s[exponent_end(s, from) - 1]),
{
    if from + 1 <= s.len() {
        lemma_run_end(s, from + 1, ByteClass::Digit);
    }
    if from + 2 <= s.len() {
        lemma_run_end(s, from + 2, ByteClass::Digit);
    }
}

/// An integer lexeme is made of digits, behind a minus sign or not.
pub proof fn lemma_integer_digits(s: Seq<u8>, pos: int)
    requires
        0 <= pos < s.len(),
        scan_at(s, pos).shape is Integer,
    ensures
        forall|i: int| pos < i < scan_at(s, pos).end ==> is_digit(#[trigger] s[i]),
        is_digit(s[pos]) || (s[pos] == MINUS && pos + 1 < scan_at(s, pos).end),
{
    lemma_run_end(s, pos, ByteClass::Digit);
    lemma_run_end(s, pos + 1, ByteClass::Digit);
}

} // verus!

use vstd::prelude::*;
use vstd::string::{StringExecFns, StringSliceAdditionalSpecFns};
use vstd::utf8::*;
use crate::ast::grammar::{
    is_digit, lemma_integer_digits, lemma_run_end, lemma_scan_ends_at_boundary, lemma_scan_moves,
    run_end, scan_at, scan_run, scan_token, ByteClass, Shape, MINUS, ZERO,
};
use crate::diagnostics::{error_at, unknown_token_message, DiagnosticBag, DiagnosticView};
use crate::text::render::{decimal_string, decimal_text, quote, quoted_text, with_payload};
use crate::text::slice::{lemma_boundary_after_ascii, lexeme_text, slice_text};
use crate::text::span::{Span, SpanView};

verus! {

/// Mathematical model of a [`TokenKind`]: the same variants, with texts as
/// character sequences and the integer as a mathematical integer.
pub enum TokenKindView {
    Int,
    Float,
    String,
    Logical,
    Begin,
    End,
    Print,
    Identifier(Seq<char>),
    LiteralString(Seq<char>),
    LiteralInteger(int),
    LiteralFloat(Seq<char>),
    OpAssign,
    OpAddition,
    OpSubtraction,
    OpMultiplication,
    OpPercent,
    OpDivision,
    OpLogicalAnd,
    OpBitwiseAnd,
    OpLogicalOr,
    OpBitwiseOr,
    OpBitwiseXor,
    OpLogicalNot,
    OpBitwiseNot,
    OpEqual,
    LeftParen,
    RightParen,
    True,
    False,
    Semicolon,
    EOF,
}

/// The closed set of lexical classes.
///
/// A float literal carries the text of the literal as written; an integer
/// literal carries its value; an identifier and a string literal carry their
/// text (a string literal with its quotes).
#[derive(Debug)]
pub enum TokenKind {
    Int,
    Float,
    String,
    Logical,
    Begin,
    End,
    Print,
    Identifier(String),
    LiteralString(String),
    LiteralInteger(i32),
    LiteralFloat(String),
    OpAssign,
    OpAddition,
    OpSubtraction,
    OpMultiplication,
    OpPercent,
    OpDivision,
    OpLogicalAnd,
    OpBitwiseAnd,
    OpLogicalOr,
    OpBitwiseOr,
    OpBitwiseXor,
    OpLogicalNot,
    OpBitwiseNot,
    OpEqual,
    LeftParen,
    RightParen,
    True,
    False,
    Semicolon,
    EOF,
}

impl View for TokenKind {
    type V = TokenKindView;

    open spec fn view(&self) -> TokenKindView {
        match *self {
            TokenKind::Int => TokenKindView::Int,
            TokenKind::Float => TokenKindView::Float,
            TokenKind::String => TokenKindView::String,
            TokenKind::Logical => TokenKindView::Logical,
            TokenKind::Begin => TokenKindView::Begin,
            TokenKind::End => TokenKindView::End,
            TokenKind::Print => TokenKindView::Print,
            TokenKind::Identifier(text) => TokenKindView::Identifier(text@),
            TokenKind::LiteralString(text) => TokenKindView::LiteralString(text@),
            TokenKind::LiteralInteger(n) => TokenKindView::LiteralInteger(n as int),
            TokenKind::LiteralFloat(text) => TokenKindView::LiteralFloat(text@),
            TokenKind::OpAssign => TokenKindView::OpAssign,
            TokenKind::OpAddition => TokenKindView::OpAddition,
            TokenKind::OpSubtraction => TokenKindView::OpSubtraction,
            TokenKind::OpMultiplication => TokenKindView::OpMultiplication,
            TokenKind::OpPercent => TokenKindView::OpPercent,
            TokenKind::OpDivision => TokenKindView::OpDivision,
            TokenKind::OpLogicalAnd => TokenKindView::OpLogicalAnd,
            TokenKind::OpBitwiseAnd => TokenKindView::OpBitwiseAnd,
            TokenKind::OpLogicalOr => TokenKindView::OpLogicalOr,
            TokenKind::OpBitwiseOr => TokenKindView::OpBitwiseOr,
            TokenKind::OpBitwiseXor => TokenKindView::OpBitwiseXor,
            TokenKind::OpLogicalNot => TokenKindView::OpLogicalNot,
            TokenKind::OpBitwiseNot => TokenKindView::OpBitwiseNot,
            TokenKind::OpEqual => TokenKindView::OpEqual,
            TokenKind::LeftParen => TokenKindView::LeftParen,
            TokenKind::RightParen => TokenKindView::RightParen,
            TokenKind::True => TokenKindView::True,
            TokenKind::False => TokenKindView::False,
            TokenKind::Semicolon => TokenKindView::Semicolon,
            TokenKind::EOF => TokenKindView::EOF,
        }
    }
}

impl Clone for TokenKind {
    fn clone(&self) -> (copy: Self)
        ensures
            copy == *self,
    {
        match self {
            TokenKind::Int => TokenKind::Int,
            TokenKind::Float => TokenKind::Float,
            TokenKind::String => TokenKind::String,
            TokenKind::Logical => TokenKind::Logical,
            TokenKind::Begin => TokenKind::Begin,
            TokenKind::End => TokenKind::End,
            TokenKind::Print => TokenKind::Print,
            TokenKind::Identifier(text) => TokenKind::Identifier(text.clone()),
            TokenKind::LiteralString(text) => TokenKind::LiteralString(text.clone()),
            TokenKind::LiteralInteger(n) => TokenKind::LiteralInteger(*n),
            TokenKind::LiteralFloat(text) => TokenKind::LiteralFloat(text.clone()),
            TokenKind::OpAssign => TokenKind::OpAssign,
            TokenKind::OpAddition => TokenKind::OpAddition,
            TokenKind::OpSubtraction => TokenKind::OpSubtraction,
            TokenKind::OpMultiplication => TokenKind::OpMultiplication,
            TokenKind::OpPercent => TokenKind::OpPercent,
            TokenKind::OpDivision => TokenKind::OpDivision,
            TokenKind::OpLogicalAnd => TokenKind::OpLogicalAnd,
            TokenKind::OpBitwiseAnd => TokenKind::OpBitwiseAnd,
            TokenKind::OpLogicalOr => TokenKind::OpLogicalOr,
            TokenKind::OpBitwiseOr => TokenKind::OpBitwiseOr,
            TokenKind::OpBitwiseXor => TokenKind::OpBitwiseXor,
            TokenKind::OpLogicalNot => TokenKind::OpLogicalNot,
            TokenKind::OpBitwiseNot => TokenKind::OpBitwiseNot,
            TokenKind::OpEqual => TokenKind::OpEqual,
            TokenKind::LeftParen => TokenKind::LeftParen,
            TokenKind::RightParen => TokenKind::RightParen,
            TokenKind::True => TokenKind::True,
            TokenKind::False => TokenKind::False,
            TokenKind::Semicolon => TokenKind::Semicolon,
            TokenKind::EOF => TokenKind::EOF,
        }
    }
}

impl PartialEq for TokenKind {
    fn eq(&self, other: &Self) -> (same: bool) {
        match (self, other) {
            (TokenKind::Int, TokenKind::Int) => true,
            (TokenKind::Float, TokenKind::Float) => true,
            (TokenKind::String, TokenKind::String) => true,
            (TokenKind::Logical, TokenKind::Logical) => true,
            (TokenKind::Begin, TokenKind::Begin) => true,
            (TokenKind::End, TokenKind::End) => true,
            (TokenKind::Print, TokenKind::Print) => true,
            (TokenKind::Identifier(a), TokenKind::Identifier(b)) => *a == *b,
            (TokenKind::LiteralString(a), TokenKind::LiteralString(b)) => *a == *b,
            (TokenKind::LiteralInteger(a), TokenKind::LiteralInteger(b)) => *a == *b,
            (TokenKind::LiteralFloat(a), TokenKind::LiteralFloat(b)) => *a == *b,
            (TokenKind::OpAssign, TokenKind::OpAssign) => true,
            (TokenKind::OpAddition, TokenKind::OpAddition) => true,
            (TokenKind::OpSubtraction, TokenKind::OpSubtraction) => true,
            (TokenKind::OpMultiplication, TokenKind::OpMultiplication) => true,
            (TokenKind::OpPercent, TokenKind::OpPercent) => true,
            (TokenKind::OpDivision, TokenKind::OpDivision) => true,
            (TokenKind::OpLogicalAnd, TokenKind::OpLogicalAnd) => true,
            (TokenKind::OpBitwiseAnd, TokenKind::OpBitwiseAnd) => true,
            (TokenKind::OpLogicalOr, TokenKind::OpLogicalOr) => true,
            (TokenKind::OpBitwiseOr, TokenKind::OpBitwiseOr) => true,
            (TokenKind::OpBitwiseXor, TokenKind::OpBitwiseXor) => true,
            (TokenKind::OpLogicalNot, TokenKind::OpLogicalNot) => true,
            (TokenKind::OpBitwiseNot, TokenKind::OpBitwiseNot) => true,
            (TokenKind::OpEqual, TokenKind::OpEqual) => true,
            (TokenKind::LeftParen, TokenKind::LeftParen) => true,
            (TokenKind::RightParen, TokenKind::RightParen) => true,
            (TokenKind::True, TokenKind::True) => true,
            (TokenKind::False, TokenKind::False) => true,
            (TokenKind::Semicolon, TokenKind::Semicolon) => true,
            (TokenKind::EOF, TokenKind::EOF) => true,
            _ => false,
        }
    }
}

impl vstd::std_specs::cmp::PartialEqSpecImpl for TokenKind {
    open spec fn obeys_eq_spec() -> bool {
        true
    }

    /// Two kinds are equal when their models are: same variant, same payload.
    open spec fn eq_spec(&self, other: &Self) -> bool {
        self@ == other@
    }
}

impl TokenKindView {
    /// How a kind is written in a message: the variant's name, and for a kind
    /// with a payload the payload in parentheses behind it. An identifier and
    /// a string literal are quoted, an integer is written in decimal, a float
    /// literal as it stood in the source.
    pub open spec fn debug_text(self) -> Seq<char> {
        match self {
            TokenKindView::Int => "Int"@,
            TokenKindView::Float => "Float"@,
            TokenKindView::String => "String"@,
            TokenKindView::Logical => "Logical"@,
            TokenKindView::Begin => "Begin"@,
            TokenKindView::End => "End"@,
            TokenKindView::Print => "Print"@,
            TokenKindView::Identifier(text) => "Identifier"@ + "("@ + quoted_text(text) + ")"@,
            TokenKindView::LiteralString(text) => "LiteralString"@ + "("@ + quoted_text(text) + ")"@,
            TokenKindView::LiteralInteger(n) => "LiteralInteger"@ + "("@ + decimal_text(n) + ")"@,
            TokenKindView::LiteralFloat(text) => "LiteralFloat"@ + "("@ + text + ")"@,
            TokenKindView::OpAssign => "OpAssign"@,
            TokenKindView::OpAddition => "OpAddition"@,
            TokenKindView::OpSubtraction => "OpSubtraction"@,
            TokenKindView::OpMultiplication => "OpMultiplication"@,
            TokenKindView::OpPercent => "OpPercent"@,
            TokenKindView::OpDivision => "OpDivision"@,
            TokenKindView::OpLogicalAnd => "OpLogicalAnd"@,
            TokenKindView::OpBitwiseAnd => "OpBitwiseAnd"@,
            TokenKindView::OpLogicalOr => "OpLogicalOr"@,
            TokenKindView::OpBitwiseOr => "OpBitwiseOr"@,
            TokenKindView::OpBitwiseXor => "OpBitwiseXor"@,
            TokenKindView::OpLogicalNot => "OpLogicalNot"@,
            TokenKindView::OpBitwiseNot => "OpBitwiseNot"@,
            TokenKindView::OpEqual => "OpEqual"@,
            TokenKindView::LeftParen => "LeftParen"@,
            TokenKindView::RightParen => "RightParen"@,
            TokenKindView::True => "True"@,
            TokenKindView::False => "False"@,
            TokenKindView::Semicolon => "Semicolon"@,
            TokenKindView::EOF => "EOF"@,
        }
    }
}

impl TokenKind {
    /// The kind as it is written in a message.
    pub fn debug_string(&self) -> (text: String)
        ensures
            text@ == self@.debug_text(),
    {
        match self {
            TokenKind::Int => String::from_str("Int"),
            TokenKind::Float => String::from_str("Float"),
            TokenKind::String => String::from_str("String"),
            TokenKind::Logical => String::from_str("Logical"),
            TokenKind::Begin => String::from_str("Begin"),
            TokenKind::End => String::from_str("End"),
            TokenKind::Print => String::from_str("Print"),
            TokenKind::Identifier(text) => with_payload("Identifier", quote(text.as_str()).as_str()),
            TokenKind::LiteralString(text) => with_payload("LiteralString", quote(text.as_str()).as_str()),
            TokenKind::LiteralInteger(n) => with_payload("LiteralInteger", decimal_string(*n).as_str()),
            TokenKind::LiteralFloat(text) => with_payload("LiteralFloat", text.as_str()),
            TokenKind::OpAssign => String::from_str("OpAssign"),
            TokenKind::OpAddition => String::from_str("OpAddition"),
            TokenKind::OpSubtraction => String::from_str("OpSubtraction"),
            TokenKind::OpMultiplication => String::from_str("OpMultiplication"),
            TokenKind::OpPercent => String::from_str("OpPercent"),
            TokenKind::OpDivision => String::from_str("OpDivision"),
            TokenKind::OpLogicalAnd => String::from_str("OpLogicalAnd"),
            TokenKind::OpBitwiseAnd => String::from_str("OpBitwiseAnd"),
            TokenKind::OpLogicalOr => String::from_str("OpLogicalOr"),
            TokenKind::OpBitwiseOr => String::from_str("OpBitwiseOr"),
            TokenKind::OpBitwiseXor => String::from_str("OpBitwiseXor"),
            TokenKind::OpLogicalNot => String::from_str("OpLogicalNot"),
            TokenKind::OpBitwiseNot => String::from_str("OpBitwiseNot"),
            TokenKind::OpEqual => String::from_str("OpEqual"),
            TokenKind::LeftParen => String::from_str("LeftParen"),
            TokenKind::RightParen => String::from_str("RightParen"),
            TokenKind::True => String::from_str("True"),
            TokenKind::False => String::from_str("False"),
            TokenKind::Semicolon => String::from_str("Semicolon"),
            TokenKind::EOF => String::from_str("EOF"),
        }
    }
}

/// Mathematical model of a [`Token`].
pub struct TokenView {
    pub kind: TokenKindView,
    pub span: SpanView,
    pub lexeme: Seq<char>,
}

/// A classified lexical unit: its kind, where it stood, and its text.
#[derive(Debug)]
pub struct Token {
    pub kind: TokenKind,
    pub span: Span,
    pub lexeme: String,
}

impl View for Token {
    type V = TokenView;

    open spec fn view(&self) -> TokenView {
        TokenView { kind: self.kind@, span: self.span@, lexeme: self.lexeme@ }
    }
}

impl Clone for Token {
    fn clone(&self) -> (copy: Self)
        ensures
            copy == *self,
    {
        Token { kind: self.kind.clone(), span: self.span.clone(), lexeme: self.lexeme.clone() }
    }
}

impl Token {
    pub fn new(kind: TokenKind, span: Span, lexeme: String) -> (token: Self)
        ensures
            token.kind == kind,
            token.span == span,
            token.lexeme == lexeme,
    {
        Self { kind, span, lexeme }
    }
}

/// The models of the tokens of a sequence, in order.
pub open spec fn token_views(tokens: Seq<Token>) -> Seq<TokenView> {
    tokens.map_values(|t: Token| t@)
}

/// The span of the bytes `[start, end)` of the source, with their text.
pub open spec fn span_of(s: Seq<u8>, start: int, end: int) -> SpanView {
    SpanView { start, end, literal: lexeme_text(s, start, end) }
}

/// The number that a sequence of decimal digits denotes.
pub open spec fn digits_value(digits: Seq<u8>) -> nat
    decreases digits.len(),
{
    if digits.len() == 0 {
        0
    } else {
        digits_value(digits.drop_last()) * 10 + (digits.last() - ZERO) as nat
    }
}

/// The number that an integer lexeme denotes: digits, or a minus sign and
/// digits.
pub open spec fn integer_value(lexeme: Seq<u8>) -> int {
    if lexeme.len() > 0 && lexeme[0] == MINUS {
        -(digits_value(lexeme.drop_first()) as int)
    } else {
        digits_value(lexeme) as int
    }
}

/// A word is the keyword it spells, and an identifier otherwise.
pub open spec fn word_kind(text: Seq<char>) -> TokenKindView {
    if text == "Int"@ {
        TokenKindView::Int
    } else if text == "Float"@ {
        TokenKindView::Float
    } else if text == "String"@ {
        TokenKindView::String
    } else if text == "Logical"@ {
        TokenKindView::Logical
    } else if text == "Begin"@ {
        TokenKindView::Begin
    } else if text == "End"@ {
        TokenKindView::End
    } else if text == "Print"@ {
        TokenKindView::Print
    } else if text == "True"@ {
        TokenKindView::True
    } else if text == "False"@ {
        TokenKindView::False
    } else {
        TokenKindView::Identifier(text)
    }
}

/// The kind of a lexeme of the given shape, bytes and text; none for unknown
/// text and for an integer that does not fit in 32 bits.
pub open spec fn kind_of(shape: Shape, lexeme: Seq<u8>, text: Seq<char>) -> Option<TokenKindView> {
    match shape {
        Shape::Word => Some(word_kind(text)),
        Shape::Integer => if i32::MIN <= integer_value(lexeme) <= i32::MAX {
            Some(TokenKindView::LiteralInteger(integer_value(lexeme)))
        } else {
            None
        },
        Shape::Float => Some(TokenKindView::LiteralFloat(text)),
        Shape::Quoted => Some(TokenKindView::LiteralString(text)),
        Shape::Fixed(kind) => Some(kind@),
        Shape::Unknown => None,
    }
}

/// The kind of the lexeme that starts at `pos`, if it has one.
pub open spec fn kind_at(s: Seq<u8>, pos: int) -> Option<TokenKindView> {
    let scan = scan_at(s, pos);
    kind_of(scan.shape, s.subrange(pos, scan.end), lexeme_text(s, pos, scan.end))
}

/// The token that ends every token sequence: it stands at the end of the
/// text and covers nothing.
pub open spec fn end_token(s: Seq<u8>) -> TokenView {
    TokenView {
        kind: TokenKindView::EOF,
        span: SpanView { start: s.len() as int, end: s.len() as int, literal: Seq::empty() },
        lexeme: Seq::empty(),
    }
}

/// The tokens of the source from `pos` on: white space is passed over, each
/// lexeme that has a kind gives one token, unknown text gives none, and the
/// end token closes the sequence.
pub open spec fn tokens_from(s: Seq<u8>, pos: int) -> Seq<TokenView>
    decreases s.len() - pos,
{
    let start = run_end(s, pos, ByteClass::Space);
    if start < pos || start >= s.len() {
        seq![end_token(s)]
    } else {
        let end = scan_at(s, start).end;
        if end <= start || end > s.len() {
            seq![end_token(s)]
        } else {
            match kind_at(s, start) {
                Some(kind) => seq![
                    TokenView {
                        kind,
                        span: span_of(s, start, end),
                        lexeme: lexeme_text(s, start, end),
                    },
                ] + tokens_from(s, end),
                None => tokens_from(s, end),
            }
        }
    }
}

/// The diagnostics of the source from `pos` on: one for each stretch of text
/// that gives no token, in order.
pub open spec fn unknowns_from(s: Seq<u8>, pos: int) -> Seq<DiagnosticView>
    decreases s.len() - pos,
{
    let start = run_end(s, pos, ByteClass::Space);
    if start < pos || start >= s.len() {
        Seq::empty()
    } else {
        let end = scan_at(s, start).end;
        if end <= start || end > s.len() {
            Seq::empty()
        } else {
            match kind_at(s, start) {
                Some(kind) => unknowns_from(s, end),
                None => seq![
                    error_at(
                        unknown_token_message(lexeme_text(s, start, end)),
                        span_of(s, start, end),
                    ),
                ] + unknowns_from(s, end),
            }
        }
    }
}

/// The token sequence of a source text.
pub open spec fn tokens_of(s: Seq<u8>) -> Seq<TokenView> {
    tokens_from(s, 0)
}

/// The lexical diagnostics of a source text.
pub open spec fn unknowns_of(s: Seq<u8>) -> Seq<DiagnosticView> {
    unknowns_from(s, 0)
}

fn reads(text: &String, word: &str) -> (yes: bool)
    ensures
        yes == (text@ == word@),
{
    let word = String::from_str(word);
    *text == word
}

fn classify_word(text: &String) -> (kind: TokenKind)
    ensures
        kind@ == word_kind(text@),
{
    if reads(text, "Int") {
        TokenKind::Int
    } else if reads(text, "Float") {
        TokenKind::Float
    } else if reads(text, "String") {
        TokenKind::String
    } else if reads(text, "Logical") {
        TokenKind::Logical
    } else if reads(text, "Begin") {
        TokenKind::Begin
    } else if reads(text, "End") {
        TokenKind::End
    } else if reads(text, "Print") {
        TokenKind::Print
    } else if reads(text, "True") {
        TokenKind::True
    } else if reads(text, "False") {
        TokenKind::False
    } else {
        TokenKind::Identifier(text.clone())
    }
}

/// Reads the value of an integer lexeme, if it fits in 32 bits.
fn parse_integer(bytes: &[u8], start: usize, end: usize) -> (value: Option<i32>)
    requires
        start < end <= bytes@.len(),
        forall|i: int| start < i < end ==> is_digit(#[trigger] bytes@[i]),
        is_digit(bytes@[start as int]) || (bytes@[start as int] == MINUS && start + 1 < end),
    ensures
        value == (if i32::MIN <= integer_value(bytes@.subrange(start as int, end as int))
            <= i32::MAX {
            Some(integer_value(bytes@.subrange(start as int, end as int)) as i32)
        } else {
            None
        }),
{
    let ghost lexeme = bytes@.subrange(start as int, end as int);
    let negative = bytes[start] == MINUS;
    let first = if negative {
        start + 1
    } else {
        start
    };
    let ghost digits = bytes@.subrange(first as int, end as int);
    proof {
        if negative {
            assert(lexeme.drop_first() =~= digits);
        } else {
            assert(lexeme =~= digits);
        }
    }
    let limit: u64 = 2147483648;
    let mut magnitude: u64 = 0;
    let mut over = false;
    let mut at = first;
    while at < end
        invariant
            first <= at <= end <= bytes@.len(),
            limit == 2147483648,
            forall|i: int| first <= i < end ==> is_digit(#[trigger] bytes@[i]),
            !over ==> magnitude == digits_value(bytes@.subrange(first as int, at as int)),
            !over ==> magnitude <= limit,
            over ==> digits_value(bytes@.subrange(first as int, at as int)) > limit,
        decreases end - at,
    {
        let ghost before = bytes@.subrange(first as int, at as int);
        let ghost after = bytes@.subrange(first as int, at + 1);
        assert(after.drop_last() =~= before);
        assert(after.last() == bytes@[at as int]);
        assert(digits_value(after) == digits_value(before) * 10 + (bytes@[at as int] - ZERO));
        if !over {
            let digit = (bytes[at] - ZERO) as u64;
            magnitude = magnitude * 10 + digit;
            if magnitude > limit {
                over = true;
            }
        }
        at += 1;
    }
    assert(bytes@.subrange(first as int, at as int) == digits);
    if over {
        None
    } else if negative {
        if magnitude == limit {
            Some(i32::MIN)
        } else {
            Some(-(magnitude as i32))
        }
    } else if magnitude == limit {
        None
    } else {
        Some(magnitude as i32)
    }
}

/// Gives the lexeme at `start` its kind, where it has one.
fn classify(shape: Shape, bytes: &[u8], start: usize, end: usize, text: &String) -> (kind: Option<
    TokenKind,
>)
    requires
        start < end <= bytes@.len(),
        shape == scan_at(bytes@, start as int).shape,
        end == scan_at(bytes@, start as int).end,
        text@ == lexeme_text(bytes@, start as int, end as int),
    ensures
        match kind {
            Some(kind) => kind_at(bytes@, start as int) == Some(kind@),
            None => kind_at(bytes@, start as int) is None,
        },
{
    match shape {
        Shape::Word => Some(classify_word(text)),
        Shape::Integer => {
            proof {
                lemma_integer_digits(bytes@, start as int);
            }
            match parse_integer(bytes, start, end) {
                Some(value) => Some(TokenKind::LiteralInteger(value)),
                None => None,
            }
        },
        Shape::Float => Some(TokenKind::LiteralFloat(text.clone())),
        Shape::Quoted => Some(TokenKind::LiteralString(text.clone())),
        Shape::Fixed(kind) => Some(kind),
        Shape::Unknown => None,
    }
}

/// Splits a source text into tokens.
///
/// White space separates lexemes and gives no token. At each place the
/// longest lexeme is taken. Text that no rule matches, and an integer too
/// large for 32 bits, give no token: each is reported to `bag` as one unknown
/// token, and the scan goes on behind it. The sequence always ends with the
/// end token.
pub fn tokenize(source: &str, bag: &mut DiagnosticBag) -> (tokens: Vec<Token>)
    ensures
        token_views(tokens@) == tokens_of(source.spec_bytes()),
        final(bag)@ == old(bag)@ + unknowns_of(source.spec_bytes()),
        tokens@.len() > 0,
        tokens@.last().kind is EOF,
        forall|i: int| 0 <= i < tokens@.len() - 1 ==> !((#[trigger] tokens@[i]).kind is EOF),
{
    let bytes = source.as_bytes();
    let len = bytes.len();
    let ghost s = source.spec_bytes();
    let mut tokens: Vec<Token> = Vec::new();
    let mut pos: usize = 0;
    proof {
        encode_utf8_valid_utf8(source@);
        is_char_boundary_start_end_of_seq(s);
        assert(token_views(tokens@) =~= Seq::empty());
        assert(bag@ + unknowns_from(s, 0) =~= old(bag)@ + unknowns_of(s));
    }
    loop
        invariant_except_break
            token_views(tokens@) + tokens_from(s, pos as int) == tokens_of(s),
            bag@ + unknowns_from(s, pos as int) == old(bag)@ + unknowns_of(s),
        invariant
            bytes@ == s,
            s == source.spec_bytes(),
            len == s.len(),
            valid_utf8(s),
            pos <= len,
            is_char_boundary(s, pos as int),
        ensures
            token_views(tokens@) + seq![end_token(s)] == tokens_of(s),
            bag@ == old(bag)@ + unknowns_of(s),
        decreases len - pos,
    {
        let start = scan_run(bytes, pos, ByteClass::Space);
        if start >= len {
            proof {
                assert(bag@ + Seq::<DiagnosticView>::empty() =~= bag@);
            }
            break;
        }
        proof {
            lemma_run_end(s, pos as int, ByteClass::Space);
            if start > pos {
                lemma_boundary_after_ascii(s, start - 1);
            }
            lemma_scan_moves(s, start as int);
            lemma_scan_ends_at_boundary(s, start as int);
        }
        let (end, shape) = scan_token(bytes, start);
        let text = slice_text(source, start, end);
        let ghost views = token_views(tokens@);
        let ghost reported = bag@;
        match classify(shape, bytes, start, end, &text) {
            Some(kind) => {
                let token = Token::new(kind, Span::new(start, end, text.clone()), text);
                tokens.push(token);
                proof {
                    assert(token_views(tokens@) =~= views.push(token@));
                    assert(views.push(token@) + tokens_from(s, end as int) =~= views + (seq![
                        token@,
                    ] + tokens_from(s, end as int)));
                }
            },
            None => {
                bag.report_unknown_token(text.as_str(), Span::new(start, end, text.clone()));
                proof {
                    let entry = error_at(
                        unknown_token_message(lexeme_text(s, start as int, end as int)),
                        span_of(s, start as int, end as int),
                    );
                    assert(reported.push(entry) + unknowns_from(s, end as int) =~= reported + (
                    seq![entry] + unknowns_from(s, end as int)));
                }
            },
        }
        pos = end;
    }
    let ghost views = token_views(tokens@);
    let last = Token::new(TokenKind::EOF, Span::new(len, len, String::new()), String::new());
    tokens.push(last);
    proof {
        assert(token_views(tokens@) =~= views.push(last@));
        assert(views.push(last@) =~= views + seq![end_token(s)]);
        lemma_ends_with_one_end_token(s);
        assert forall|i: int| 0 <= i < tokens@.len() - 1 implies !((#[trigger] tokens@[i]).kind
            is EOF) by {
            assert(token_views(tokens@)[i] == tokens@[i]@);
        }
    }
    tokens
}

/// No lexeme has the kind of the end token.
proof fn lemma_kind_at_is_no_end(s: Seq<u8>, pos: int)
    ensures
        kind_at(s, pos) != Some(TokenKindView::EOF),
{
}

/// The shape of every token sequence.
///
/// The tokens from `pos` on end with the end token and hold it nowhere else.
/// Every other token covers at least one byte, lies inside the text at or
/// behind `pos`, and ends before the next one starts: the spans follow each
/// other without overlap.
pub proof fn lemma_tokens_from(s: Seq<u8>, pos: int)
    requires
        0 <= pos <= s.len(),
    ensures
        tokens_from(s, pos).len() >= 1,
        tokens_from(s, pos).last() == end_token(s),
        forall|i: int|
            0 <= i < tokens_from(s, pos).len() - 1 ==> {
                let token = #[trigger] tokens_from(s, pos)[i];
                &&& token.kind != TokenKindView::EOF
                &&& pos <= token.span.start < token.span.end <= s.len()
            },
        forall|i: int, j: int|
            0 <= i < j < tokens_from(s, pos).len() ==> (#[trigger] tokens_from(s, pos)[i]).span.end
                <= (#[trigger] tokens_from(s, pos)[j]).span.start,
    decreases s.len() - pos,
{
    let start = run_end(s, pos, ByteClass::Space);
    lemma_run_end(s, pos, ByteClass::Space);
    if start < s.len() {
        lemma_scan_moves(s, start);
        let end = scan_at(s, start).end;
        lemma_tokens_from(s, end);
        lemma_kind_at_is_no_end(s, start);
        let rest = tokens_from(s, end);
        match kind_at(s, start) {
            Some(kind) => {
                let first = TokenView {
                    kind,
                    span: span_of(s, start, end),
                    lexeme: lexeme_text(s, start, end),
                };
                let all = tokens_from(s, pos);
                assert(all == seq![first] + rest);
                assert(all.last() == rest.last());
                assert forall|i: int| 0 <= i < all.len() - 1 implies {
                    let token = #[trigger] all[i];
                    &&& token.kind != TokenKindView::EOF
                    &&& pos <= token.span.start < token.span.end <= s.len()
                } by {
                    if i > 0 {
                        assert(all[i] == rest[i - 1]);
                    }
                }
                assert forall|i: int, j: int| 0 <= i < j < all.len() implies (#[trigger] all[i]).span.end
                    <= (#[trigger] all[j]).span.start by {
                    assert(all[j] == rest[j - 1]);
                    if i > 0 {
                        assert(all[i] == rest[i - 1]);
                    }
                    if j - 1 < rest.len() - 1 {
                        assert(end <= rest[j - 1].span.start);
                    }
                }
            },
            None => {},
        }
    }
}

/// The token sequence of any text ends with the end token, and holds it
/// exactly once.
pub proof fn lemma_ends_with_one_end_token(s: Seq<u8>)
    ensures
        tokens_of(s).len() >= 1,
        tokens_of(s).last() == end_token(s),
        forall|i: int|
            0 <= i < tokens_of(s).len() - 1 ==> (#[trigger] tokens_of(s)[i]).kind
                != TokenKindView::EOF,
{
    lemma_tokens_from(s, 0);
}

/// Tokenizing is a function of the text: two runs on the same text give
/// token for token the same sequence, and the same diagnostics.
pub proof fn lemma_tokenize_is_deterministic(
    s: Seq<u8>,
    first: Seq<Token>,
    first_reports: Seq<DiagnosticView>,
    second: Seq<Token>,
    second_reports: Seq<DiagnosticView>,
)
    requires
        token_views(first) == tokens_of(s),
        first_reports == unknowns_of(s),
        token_views(second) == tokens_of(s),
        second_reports == unknowns_of(s),
    ensures
        first.len() == second.len(),
        forall|i: int| 0 <= i < first.len() ==> (#[trigger] first[i])@ == second[i]@,
        first_reports == second_reports,
{
    assert(token_views(first).len() == first.len());
    assert(token_views(second).len() == second.len());
    assert forall|i: int| 0 <= i < first.len() implies (#[trigger] first[i])@ == second[i]@ by {
        assert(token_views(first)[i] == first[i]@);
        assert(token_views(second)[i] == second[i]@);
    }
}

} // verus!

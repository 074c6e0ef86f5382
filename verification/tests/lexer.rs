use translator::ast::lexer::{tokenize, Token, TokenKind};
use translator::diagnostics::{DiagnosticBag, DiagnosticKind};

fn kinds(source: &str) -> (Vec<TokenKind>, DiagnosticBag) {
    let mut bag = DiagnosticBag::new();
    let tokens = tokenize(source, &mut bag);
    (tokens.into_iter().map(|t| t.kind).collect(), bag)
}

fn lex(source: &str) -> (Vec<Token>, DiagnosticBag) {
    let mut bag = DiagnosticBag::new();
    let tokens = tokenize(source, &mut bag);
    (tokens, bag)
}

#[test]
fn arithmetics_lexer() {
    let source = "1 + 2 * (2.12 / 5)";
    let (tokens, bag) = kinds(source);
    let mut lex = tokens.into_iter();
    assert_eq!(lex.next(), Some(TokenKind::LiteralInteger(1)));
    assert_eq!(lex.next(), Some(TokenKind::OpAddition));
    assert_eq!(lex.next(), Some(TokenKind::LiteralInteger(2)));
    assert_eq!(lex.next(), Some(TokenKind::OpMultiplication));
    assert_eq!(lex.next(), Some(TokenKind::LeftParen));
    match lex.next() {
        Some(TokenKind::LiteralFloat(text)) => assert_eq!(text.parse::<f32>(), Ok(2.12)),
        other => panic!("expected a float literal, found {:?}", other),
    }
    assert_eq!(lex.next(), Some(TokenKind::OpDivision));
    assert_eq!(lex.next(), Some(TokenKind::LiteralInteger(5)));
    assert_eq!(lex.next(), Some(TokenKind::RightParen));
    assert_eq!(lex.next(), Some(TokenKind::EOF));
    assert_eq!(lex.next(), None);
    assert!(bag.diagnostics.is_empty());
}

#[test]
fn empty_source_gives_only_the_end_token() {
    let (tokens, bag) = lex("");
    assert_eq!(tokens.len(), 1);
    assert_eq!(tokens[0].kind, TokenKind::EOF);
    assert_eq!(tokens[0].span.start, 0);
    assert_eq!(tokens[0].span.end, 0);
    assert_eq!(tokens[0].lexeme, "");
    assert!(bag.diagnostics.is_empty());
}

#[test]
fn white_space_gives_no_token() {
    let (tokens, bag) = lex(" \t\n\x0c ");
    assert_eq!(tokens.len(), 1);
    assert_eq!(tokens[0].kind, TokenKind::EOF);
    assert_eq!(tokens[0].span.start, 5);
    assert_eq!(tokens[0].span.end, 5);
    assert!(bag.diagnostics.is_empty());
}

#[test]
fn keywords_and_identifiers() {
    let (tokens, bag) = kinds("Int Float String Logical Begin End Print True False Intx $a _b9 int");
    assert_eq!(
        tokens,
        vec![
            TokenKind::Int,
            TokenKind::Float,
            TokenKind::String,
            TokenKind::Logical,
            TokenKind::Begin,
            TokenKind::End,
            TokenKind::Print,
            TokenKind::True,
            TokenKind::False,
            TokenKind::Identifier("Intx".to_string()),
            TokenKind::Identifier("$a".to_string()),
            TokenKind::Identifier("_b9".to_string()),
            TokenKind::Identifier("int".to_string()),
            TokenKind::EOF,
        ]
    );
    assert!(bag.diagnostics.is_empty());
}

#[test]
fn operators_take_the_longest_match() {
    let (tokens, bag) = kinds(":= + - * % / && & || | ^ ! ~ = ( ) ; &&& |||");
    assert_eq!(
        tokens,
        vec![
            TokenKind::OpAssign,
            TokenKind::OpAddition,
            TokenKind::OpSubtraction,
            TokenKind::OpMultiplication,
            TokenKind::OpPercent,
            TokenKind::OpDivision,
            TokenKind::OpLogicalAnd,
            TokenKind::OpBitwiseAnd,
            TokenKind::OpLogicalOr,
            TokenKind::OpBitwiseOr,
            TokenKind::OpBitwiseXor,
            TokenKind::OpLogicalNot,
            TokenKind::OpBitwiseNot,
            TokenKind::OpEqual,
            TokenKind::LeftParen,
            TokenKind::RightParen,
            TokenKind::Semicolon,
            TokenKind::OpLogicalAnd,
            TokenKind::OpBitwiseAnd,
            TokenKind::OpLogicalOr,
            TokenKind::OpBitwiseOr,
            TokenKind::EOF,
        ]
    );
    assert!(bag.diagnostics.is_empty());
}

#[test]
fn numbers() {
    let (tokens, bag) = kinds("0 007 -5 8-3 1.5 .5 1e5 2E-3 1.5e+2 1. 1e 2147483647 -2147483648");
    assert_eq!(
        tokens,
        vec![
            TokenKind::LiteralInteger(0),
            TokenKind::LiteralInteger(7),
            TokenKind::LiteralInteger(-5),
            TokenKind::LiteralInteger(8),
            TokenKind::LiteralInteger(-3),
            TokenKind::LiteralFloat("1.5".to_string()),
            TokenKind::LiteralFloat(".5".to_string()),
            TokenKind::LiteralFloat("1e5".to_string()),
            TokenKind::LiteralFloat("2E-3".to_string()),
            TokenKind::LiteralFloat("1.5e+2".to_string()),
            TokenKind::LiteralInteger(1),
            TokenKind::LiteralInteger(1),
            TokenKind::Identifier("e".to_string()),
            TokenKind::LiteralInteger(2147483647),
            TokenKind::LiteralInteger(-2147483648),
            TokenKind::EOF,
        ]
    );
    assert_eq!(bag.diagnostics.len(), 1);
    assert_eq!(bag.diagnostics[0].message, "Unknown token finded <.>");
    assert_eq!(bag.diagnostics[0].span.start, 37);
    assert_eq!(bag.diagnostics[0].span.end, 38);
}

#[test]
fn integer_out_of_range_is_unknown() {
    let (tokens, bag) = lex("2147483648 -2147483649 1");
    assert_eq!(tokens.len(), 2);
    assert_eq!(tokens[0].kind, TokenKind::LiteralInteger(1));
    assert_eq!(bag.diagnostics.len(), 2);
    assert_eq!(bag.diagnostics[0].message, "Unknown token finded <2147483648>");
    assert_eq!(bag.diagnostics[0].span.start, 0);
    assert_eq!(bag.diagnostics[0].span.end, 10);
    assert_eq!(bag.diagnostics[0].span.literal, "2147483648");
    assert_eq!(bag.diagnostics[0].kind, DiagnosticKind::Error);
    assert_eq!(bag.diagnostics[1].message, "Unknown token finded <-2147483649>");
    assert_eq!(bag.diagnostics[1].span.start, 11);
    assert_eq!(bag.diagnostics[1].span.end, 22);
}

#[test]
fn string_literals_keep_their_quotes() {
    let (tokens, bag) = lex("\"a b\" \"x\\ny\\\"z\" \"h\u{e9}\"");
    assert_eq!(tokens.len(), 4);
    assert_eq!(tokens[0].kind, TokenKind::LiteralString("\"a b\"".to_string()));
    assert_eq!(tokens[0].lexeme, "\"a b\"");
    assert_eq!(tokens[1].kind, TokenKind::LiteralString("\"x\\ny\\\"z\"".to_string()));
    assert_eq!(tokens[2].kind, TokenKind::LiteralString("\"h\u{e9}\"".to_string()));
    assert_eq!(tokens[2].span.start, 16);
    assert_eq!(tokens[2].span.end, 21);
    assert!(bag.diagnostics.is_empty());
}

#[test]
fn open_string_is_one_unknown_region() {
    let (tokens, bag) = lex("1 \"abc");
    assert_eq!(tokens.len(), 2);
    assert_eq!(tokens[0].kind, TokenKind::LiteralInteger(1));
    assert_eq!(tokens[1].kind, TokenKind::EOF);
    assert_eq!(bag.diagnostics.len(), 1);
    assert_eq!(bag.diagnostics[0].message, "Unknown token finded <\"abc>");
    assert_eq!(bag.diagnostics[0].span.start, 2);
    assert_eq!(bag.diagnostics[0].span.end, 6);
}

#[test]
fn bad_escape_ends_the_unknown_region() {
    let (tokens, bag) = lex("\"ab\\qcd");
    assert_eq!(tokens.len(), 2);
    assert_eq!(tokens[0].kind, TokenKind::Identifier("qcd".to_string()));
    assert_eq!(tokens[0].span.start, 4);
    assert_eq!(tokens[0].span.end, 7);
    assert_eq!(bag.diagnostics.len(), 1);
    assert_eq!(bag.diagnostics[0].span.start, 0);
    assert_eq!(bag.diagnostics[0].span.end, 4);
    assert_eq!(bag.diagnostics[0].span.literal, "\"ab\\");
}

#[test]
fn unknown_characters_are_reported_one_by_one() {
    let (tokens, bag) = lex("1 @ \u{e9}# 2");
    assert_eq!(tokens.len(), 3);
    assert_eq!(tokens[0].kind, TokenKind::LiteralInteger(1));
    assert_eq!(tokens[1].kind, TokenKind::LiteralInteger(2));
    assert_eq!(tokens[1].span.start, 8);
    assert_eq!(tokens[2].kind, TokenKind::EOF);
    assert_eq!(bag.diagnostics.len(), 3);
    assert_eq!(bag.diagnostics[0].message, "Unknown token finded <@>");
    assert_eq!(bag.diagnostics[0].span.start, 2);
    assert_eq!(bag.diagnostics[0].span.end, 3);
    assert_eq!(bag.diagnostics[1].message, "Unknown token finded <\u{e9}>");
    assert_eq!(bag.diagnostics[1].span.start, 4);
    assert_eq!(bag.diagnostics[1].span.end, 6);
    assert_eq!(bag.diagnostics[2].span.start, 6);
    assert_eq!(bag.diagnostics[2].span.end, 7);
}

#[test]
fn colon_without_equals_is_unknown() {
    let (tokens, bag) = kinds("a : b");
    assert_eq!(
        tokens,
        vec![
            TokenKind::Identifier("a".to_string()),
            TokenKind::Identifier("b".to_string()),
            TokenKind::EOF,
        ]
    );
    assert_eq!(bag.diagnostics.len(), 1);
    assert_eq!(bag.diagnostics[0].message, "Unknown token finded <:>");
}

#[test]
fn tokenizing_twice_gives_the_same_tokens() {
    let source = "x := 1 + @ \"open";
    let (first, first_bag) = lex(source);
    let (second, second_bag) = lex(source);
    assert_eq!(first.len(), second.len());
    for (a, b) in first.iter().zip(second.iter()) {
        assert_eq!(a.kind, b.kind);
        assert_eq!(a.span.start, b.span.start);
        assert_eq!(a.span.end, b.span.end);
        assert_eq!(a.lexeme, b.lexeme);
    }
    assert_eq!(first_bag.diagnostics.len(), second_bag.diagnostics.len());
}

#[test]
fn the_end_token_comes_last_and_once() {
    for source in ["", "1", "a := 2;", "@@@", "\"open", "  "] {
        let (tokens, _) = lex(source);
        let ends = tokens.iter().filter(|t| t.kind == TokenKind::EOF).count();
        assert_eq!(ends, 1);
        let last = tokens.last().unwrap();
        assert_eq!(last.kind, TokenKind::EOF);
        assert_eq!(last.span.start, source.len());
        assert_eq!(last.span.end, source.len());
    }
}

#[test]
fn spans_do_not_overlap() {
    let (tokens, _) = lex("a := (1 + 22) * 3.5;");
    for pair in tokens.windows(2) {
        assert!(pair[0].span.end <= pair[1].span.start);
        assert!(pair[0].span.start < pair[0].span.end);
    }
    assert_eq!(tokens[3].lexeme, "1");
    assert_eq!(tokens[5].lexeme, "22");
    assert_eq!(tokens[5].span.literal, "22");
    assert_eq!(tokens[5].span.start, 10);
    assert_eq!(tokens[5].span.end, 12);
}

use translator::ast::evaluator::AstEvaluator;
use translator::ast::grammar::{scan_exponent, scan_run, scan_string_body, scan_token, ByteClass, Shape};
use translator::ast::lexer::{Token, TokenKind};
use translator::ast::parser::{Counter, Parser};
use translator::ast::printer::AstPrinter;
use translator::ast::{
    Ast, AstBinaryOperator, AstBinaryOperatorKind, AstExpression, AstExpressionKind, AstStatement,
    AstStatementKind, AstVariableExpression,
};
use translator::diagnostics::{Diagnostic, DiagnosticBag, DiagnosticKind};
use translator::text::render::{decimal_string, repeat_string, with_payload};
use translator::text::slice::{cut_at, slice_str, slice_text};
use translator::text::span::Span;

fn token(kind: TokenKind, text: &str) -> Token {
    Token::new(kind, Span::new(0, text.len(), text.to_string()), text.to_string())
}

fn operator(kind: AstBinaryOperatorKind) -> AstBinaryOperator {
    AstBinaryOperator::new(kind, token(TokenKind::OpAddition, "+"))
}

fn binary(kind: AstBinaryOperatorKind, left: i32, right: i32) -> AstExpression {
    AstExpression::binary(operator(kind), AstExpression::number(left), AstExpression::number(right))
}

#[test]
fn span_length_and_fields() {
    let span = Span::new(3, 8, "hello".to_string());
    assert_eq!(span.start, 3);
    assert_eq!(span.end, 8);
    assert_eq!(span.literal, "hello");
    assert_eq!(span.len(), 5);
    assert_eq!(Span::new(4, 4, String::new()).len(), 0);
    let copy = span.clone();
    assert_eq!((copy.start, copy.end, copy.literal.as_str()), (3, 8, "hello"));
}

#[test]
fn counter_counts_up() {
    let mut counter = Counter::new();
    assert_eq!(counter.get_value(), 0);
    counter.increment();
    counter.increment();
    assert_eq!(counter.get_value(), 2);
}

#[test]
fn bag_keeps_the_order_of_reports() {
    let mut bag = DiagnosticBag::new();
    assert!(bag.diagnostics.is_empty());
    bag.report_error("first".to_string(), Span::new(5, 6, "a".to_string()));
    bag.report_warning("second".to_string(), Span::new(1, 2, "b".to_string()));
    bag.report_unknown_token("@", Span::new(9, 10, "@".to_string()));
    bag.report_expected_expression(&token(TokenKind::Semicolon, ";"));
    assert_eq!(bag.diagnostics.len(), 4);
    assert_eq!(bag.diagnostics[0].message, "first");
    assert_eq!(bag.diagnostics[0].kind, DiagnosticKind::Error);
    assert_eq!(bag.diagnostics[0].span.start, 5);
    assert_eq!(bag.diagnostics[1].message, "second");
    assert_eq!(bag.diagnostics[1].kind, DiagnosticKind::Warning);
    assert_eq!(bag.diagnostics[1].span.start, 1);
    assert_eq!(bag.diagnostics[2].message, "Unknown token finded <@>");
    assert_eq!(bag.diagnostics[2].kind, DiagnosticKind::Error);
    assert_eq!(bag.diagnostics[3].message, "Expected expression, found <Semicolon>");
    assert_eq!(bag.diagnostics[3].kind, DiagnosticKind::Error);
}

#[test]
fn diagnostic_new_keeps_its_parts() {
    let diagnostic = Diagnostic::new(
        "message".to_string(),
        Span::new(1, 3, "ab".to_string()),
        DiagnosticKind::Warning,
    );
    assert_eq!(diagnostic.message, "message");
    assert_eq!(diagnostic.span.end, 3);
    assert_eq!(diagnostic.kind, DiagnosticKind::Warning);
}

#[test]
fn kinds_are_written_like_their_variants() {
    assert_eq!(TokenKind::EOF.debug_string(), "EOF");
    assert_eq!(TokenKind::OpLogicalAnd.debug_string(), "OpLogicalAnd");
    assert_eq!(TokenKind::String.debug_string(), "String");
    assert_eq!(TokenKind::LiteralInteger(-42).debug_string(), "LiteralInteger(-42)");
    assert_eq!(TokenKind::LiteralFloat("2.50".to_string()).debug_string(), "LiteralFloat(2.50)");
    assert_eq!(TokenKind::Identifier("x_1".to_string()).debug_string(), "Identifier(\"x_1\")");
    assert_eq!(
        TokenKind::LiteralString("\"a\\n\"".to_string()).debug_string(),
        "LiteralString(\"\\\"a\\\\n\\\"\")"
    );
}

#[test]
fn kinds_compare_by_variant_and_payload() {
    assert!(TokenKind::OpAssign == TokenKind::OpAssign);
    assert!(TokenKind::OpAssign != TokenKind::OpEqual);
    assert!(TokenKind::LiteralInteger(1) == TokenKind::LiteralInteger(1));
    assert!(TokenKind::LiteralInteger(1) != TokenKind::LiteralInteger(2));
    assert!(TokenKind::Identifier("a".to_string()) == TokenKind::Identifier("a".to_string()));
    assert!(TokenKind::Identifier("a".to_string()) != TokenKind::Identifier("b".to_string()));
    assert!(TokenKind::Identifier("a".to_string()) != TokenKind::LiteralString("a".to_string()));
    assert!(TokenKind::LiteralFloat("1.0".to_string()) != TokenKind::LiteralFloat("1.00".to_string()));
    let copy = TokenKind::LiteralString("\"s\"".to_string()).clone();
    assert!(copy == TokenKind::LiteralString("\"s\"".to_string()));
}

#[test]
fn decimal_text_of_integers() {
    assert_eq!(decimal_string(0), "0");
    assert_eq!(decimal_string(7), "7");
    assert_eq!(decimal_string(10), "10");
    assert_eq!(decimal_string(-1), "-1");
    assert_eq!(decimal_string(1234567890), "1234567890");
    assert_eq!(decimal_string(i32::MAX), "2147483647");
    assert_eq!(decimal_string(i32::MIN), "-2147483648");
}

#[test]
fn repeated_text_and_payloads() {
    assert_eq!(repeat_string("^", 0), "");
    assert_eq!(repeat_string("^", 3), "^^^");
    assert_eq!(repeat_string(" ", 2), "  ");
    assert_eq!(with_payload("Name", "x"), "Name(x)");
    assert_eq!(with_payload("", ""), "()");
}

#[test]
fn slices_between_character_starts() {
    let text = "a\u{e9}b\u{4e2d}c";
    assert_eq!(slice_str(text, 0, 1), "a");
    assert_eq!(slice_str(text, 1, 3), "\u{e9}");
    assert_eq!(slice_text(text, 3, 7), "b\u{4e2d}");
    assert_eq!(slice_text(text, 8, 8), "");
    assert_eq!(cut_at(text, 0), 0);
    assert_eq!(cut_at(text, 2), 1);
    assert_eq!(cut_at(text, 3), 3);
    assert_eq!(cut_at(text, 5), 4);
    assert_eq!(cut_at(text, 6), 4);
    assert_eq!(cut_at(text, 8), 8);
    assert_eq!(cut_at(text, 100), 8);
}

#[test]
fn byte_classes_and_runs() {
    assert!(ByteClass::Space.test(b' ') && ByteClass::Space.test(b'\t'));
    assert!(ByteClass::Space.test(b'\n') && ByteClass::Space.test(0x0c));
    assert!(!ByteClass::Space.test(b'\r'));
    assert!(ByteClass::Digit.test(b'0') && ByteClass::Digit.test(b'9'));
    assert!(!ByteClass::Digit.test(b'a'));
    assert!(ByteClass::WordPart.test(b'$') && ByteClass::WordPart.test(b'_'));
    assert!(ByteClass::WordPart.test(b'Z') && ByteClass::WordPart.test(b'5'));
    assert!(!ByteClass::WordPart.test(b'-'));
    assert!(ByteClass::Continuation.test(0x80) && ByteClass::Continuation.test(0xbf));
    assert!(!ByteClass::Continuation.test(0xc0) && !ByteClass::Continuation.test(0x7f));
    assert_eq!(scan_run(b"123ab", 0, ByteClass::Digit), 3);
    assert_eq!(scan_run(b"123ab", 3, ByteClass::Digit), 3);
    assert_eq!(scan_run(b"123ab", 5, ByteClass::Digit), 5);
    assert_eq!(scan_run(b"  x", 0, ByteClass::Space), 2);
    assert_eq!(scan_exponent(b"e10x", 0), 3);
    assert_eq!(scan_exponent(b"E-7", 0), 3);
    assert_eq!(scan_exponent(b"e+", 0), 0);
    assert_eq!(scan_exponent(b"x", 0), 0);
    assert_eq!(scan_string_body(b"ab\"c", 0), 2);
    assert_eq!(scan_string_body(b"a\\\"b\"", 0), 4);
    assert_eq!(scan_string_body(b"a\\qb", 0), 2);
    assert_eq!(scan_string_body(b"abc", 0), 3);
}

#[test]
fn scan_takes_the_longest_lexeme() {
    fn scan(text: &str) -> (usize, String) {
        let (end, shape) = scan_token(text.as_bytes(), 0);
        (end, format!("{:?}", shape))
    }
    assert_eq!(scan("abc+"), (3, "Word".to_string()));
    assert_eq!(scan("12.5e3x"), (6, "Float".to_string()));
    assert_eq!(scan("12.x"), (2, "Integer".to_string()));
    assert_eq!(scan("12e+x"), (2, "Integer".to_string()));
    assert_eq!(scan("-12-"), (3, "Integer".to_string()));
    assert_eq!(scan("-x"), (1, "Fixed(OpSubtraction)".to_string()));
    assert_eq!(scan(".5."), (2, "Float".to_string()));
    assert_eq!(scan("\"s\"t"), (3, "Quoted".to_string()));
    assert_eq!(scan("\"s"), (2, "Unknown".to_string()));
    assert_eq!(scan(":=:"), (2, "Fixed(OpAssign)".to_string()));
    assert_eq!(scan("&&&"), (2, "Fixed(OpLogicalAnd)".to_string()));
    assert_eq!(scan("|x"), (1, "Fixed(OpBitwiseOr)".to_string()));
    assert_eq!(scan("\u{4e2d}x"), (3, "Unknown".to_string()));
    assert!(matches!(scan_token(b"(", 0), (1, Shape::Fixed(TokenKind::LeftParen))));
}

#[test]
fn operator_precedences() {
    assert_eq!(operator(AstBinaryOperatorKind::Plus).precedence(), 3);
    assert_eq!(operator(AstBinaryOperatorKind::Minus).precedence(), 3);
    assert_eq!(operator(AstBinaryOperatorKind::Multiply).precedence(), 4);
    assert_eq!(operator(AstBinaryOperatorKind::Divide).precedence(), 4);
    assert_eq!(operator(AstBinaryOperatorKind::Mod).precedence(), 4);
}

#[test]
fn checked_operations() {
    assert_eq!(AstEvaluator::checked_apply(AstBinaryOperatorKind::Plus, 2, 3), Some(5));
    assert_eq!(AstEvaluator::checked_apply(AstBinaryOperatorKind::Plus, i32::MAX, 1), None);
    assert_eq!(AstEvaluator::checked_apply(AstBinaryOperatorKind::Minus, i32::MIN, 1), None);
    assert_eq!(AstEvaluator::checked_apply(AstBinaryOperatorKind::Minus, -5, -7), Some(2));
    assert_eq!(AstEvaluator::checked_apply(AstBinaryOperatorKind::Multiply, 46341, 46341), None);
    assert_eq!(AstEvaluator::checked_apply(AstBinaryOperatorKind::Multiply, -46340, 46340), Some(-2147395600));
    assert_eq!(AstEvaluator::checked_apply(AstBinaryOperatorKind::Divide, 7, 0), None);
    assert_eq!(AstEvaluator::checked_apply(AstBinaryOperatorKind::Divide, i32::MIN, -1), None);
    assert_eq!(AstEvaluator::checked_apply(AstBinaryOperatorKind::Divide, i32::MIN, 1), Some(i32::MIN));
    assert_eq!(AstEvaluator::checked_apply(AstBinaryOperatorKind::Divide, -9, 4), Some(-2));
    assert_eq!(AstEvaluator::checked_apply(AstBinaryOperatorKind::Mod, -9, 4), Some(-1));
    assert_eq!(AstEvaluator::checked_apply(AstBinaryOperatorKind::Mod, 9, -4), Some(1));
    assert_eq!(AstEvaluator::checked_apply(AstBinaryOperatorKind::Mod, 9, 0), None);
    assert_eq!(AstEvaluator::checked_apply(AstBinaryOperatorKind::Mod, i32::MIN, -1), None);
}

#[test]
fn values_without_visiting() {
    let sum = binary(AstBinaryOperatorKind::Plus, 2, 3);
    assert_eq!(AstEvaluator::value_of(&sum), Some(5));
    let wrapped = AstExpression::parenthesized(binary(AstBinaryOperatorKind::Multiply, 4, 5));
    assert_eq!(AstEvaluator::value_of(&wrapped), Some(20));
    let failed = AstExpression::error(Span::new(0, 1, ";".to_string()));
    assert_eq!(AstEvaluator::value_of(&failed), None);
    let over = binary(AstBinaryOperatorKind::Plus, i32::MAX, 1);
    assert_eq!(AstEvaluator::value_of(&over), None);
}

#[test]
fn evaluator_accepts_only_what_has_a_value() {
    let mut good = Ast::new();
    good.add_statement(AstStatement::expression(binary(AstBinaryOperatorKind::Minus, 9, 4)));
    assert!(AstEvaluator::can_visit(&good));
    let mut eval = AstEvaluator::new();
    assert_eq!(eval.last_value, None);
    good.visit(&mut eval);
    assert_eq!(eval.last_value, Some(5));

    let mut assign = Ast::new();
    assign.add_statement(AstStatement::assign_statement(
        token(TokenKind::Identifier("x".to_string()), "x"),
        AstExpression::number(1),
    ));
    assert!(!AstEvaluator::can_visit(&assign));

    let mut failed = Ast::new();
    failed.add_statement(AstStatement::expression(AstExpression::error(Span::new(
        0,
        1,
        "+".to_string(),
    ))));
    assert!(!AstEvaluator::can_visit(&failed));

    let mut zero = Ast::new();
    zero.add_statement(AstStatement::expression(binary(AstBinaryOperatorKind::Divide, 1, 0)));
    assert!(!AstEvaluator::can_visit(&zero));
    assert!(AstEvaluator::can_visit(&Ast::new()));
}

#[test]
fn evaluator_accepts_no_variable() {
    let variable = AstExpression::new(AstExpressionKind::Variable(AstVariableExpression {
        identifier: token(TokenKind::Identifier("v".to_string()), "v"),
    }));
    match &variable.kind {
        AstExpressionKind::Variable(inner) => assert_eq!(inner.identifier(), "v"),
        _ => panic!("no variable"),
    }
    assert_eq!(AstEvaluator::value_of(&variable), None);
    let mut ast = Ast::new();
    ast.add_statement(AstStatement::expression(AstExpression::parenthesized(variable)));
    assert!(!AstEvaluator::can_visit(&ast));
    assert!(AstPrinter::new().finish().is_empty());
}

#[test]
fn parser_without_tokens_is_made() {
    let parser = Parser::new();
    assert!(format!("{:?}", parser).contains("tokens: []"));
}

#[test]
fn tree_keeps_statements_in_order() {
    let mut ast = Ast::new();
    assert!(ast.statements.is_empty());
    ast.add_statement(AstStatement::expression(AstExpression::number(1)));
    ast.add_statement(AstStatement::expression(AstExpression::number(2)));
    let mut eval = AstEvaluator::new();
    ast.visit(&mut eval);
    assert_eq!(eval.last_value, Some(2));
    match &ast.statements[0].kind {
        AstStatementKind::Expression(e) => match &e.kind {
            AstExpressionKind::Number(n) => assert_eq!(n.number, 1),
            _ => panic!("no number"),
        },
        _ => panic!("no expression"),
    }
}

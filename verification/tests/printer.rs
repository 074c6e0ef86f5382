use translator::ast::lexer::{Token, TokenKind};
use translator::ast::parser::Parser;
use translator::ast::printer::AstPrinter;
use translator::ast::{
    Ast, AstExpression, AstExpressionKind, AstStatement, AstVariableExpression, AstVisitor,
};
use translator::diagnostics::printer::DiagnosticsPrinter;
use translator::diagnostics::{Diagnostic, DiagnosticBag, DiagnosticKind};
use translator::text::span::Span;
use translator::text::SourceText;

fn parse(input: &str) -> (Ast, DiagnosticBag) {
    let mut bag = DiagnosticBag::new();
    let mut ast = Ast::new();
    let mut parser = Parser::from_input(input, &mut bag);
    while let Some(statement) = parser.next_statement(&mut bag) {
        ast.add_statement(statement);
    }
    (ast, bag)
}

fn error(message: &str, start: usize, end: usize, literal: &str) -> Diagnostic {
    Diagnostic::new(
        message.to_string(),
        Span::new(start, end, literal.to_string()),
        DiagnosticKind::Error,
    )
}

#[test]
fn source_text_finds_lines() {
    let text = SourceText::new("ab\ncd\n\nxyz".to_string());
    assert_eq!(text.line_index(0), 0);
    assert_eq!(text.line_index(2), 0);
    assert_eq!(text.line_index(3), 1);
    assert_eq!(text.line_index(5), 1);
    assert_eq!(text.line_index(6), 2);
    assert_eq!(text.line_index(7), 3);
    assert_eq!(text.line_index(10), 3);
    assert_eq!(text.line_index(1000), 3);
    assert_eq!(text.line_start(0), 0);
    assert_eq!(text.line_start(1), 3);
    assert_eq!(text.line_start(2), 6);
    assert_eq!(text.line_start(3), 7);
    assert_eq!(text.line_start(9), 7);
    assert_eq!(text.get_line(0), "ab");
    assert_eq!(text.get_line(1), "cd");
    assert_eq!(text.get_line(2), "");
    assert_eq!(text.get_line(3), "xyz");
}

#[test]
fn source_text_of_nothing_has_one_empty_line() {
    let text = SourceText::new(String::new());
    assert_eq!(text.line_index(0), 0);
    assert_eq!(text.line_index(5), 0);
    assert_eq!(text.line_start(0), 0);
    assert_eq!(text.get_line(0), "");
}

#[test]
fn report_without_colours() {
    colored::control::set_override(false);
    let text = SourceText::new("a := 1;\nb := 1 + ;\n".to_string());
    let diagnostics = vec![error("Expected expression, found <Semicolon>", 17, 18, ";")];
    let printer = DiagnosticsPrinter::new(&text, &diagnostics);
    assert_eq!(
        printer.stringify_diagnostic(&diagnostics[0]),
        "b := 1 + ;\n         ^\n         |\n         +-- Expected expression, found <Semicolon>"
    );
    assert_eq!(
        printer.print(),
        "b := 1 + ;\n         ^\n         |\n         +-- Expected expression, found <Semicolon>\n"
    );
}

#[test]
fn span_at_column_zero() {
    colored::control::set_override(false);
    let text = SourceText::new("first\n@bc def".to_string());
    let diagnostics = vec![error("m", 6, 9, "@bc")];
    let printer = DiagnosticsPrinter::new(&text, &diagnostics);
    let report = printer.stringify_diagnostic(&diagnostics[0]);
    let lines: Vec<&str> = report.split('\n').collect();
    assert_eq!(lines, vec!["@bc def", "^^^", "|", "+-- m"]);
    assert_eq!(lines[1].len(), diagnostics[0].span.len());
}

#[test]
fn span_at_the_last_column() {
    colored::control::set_override(false);
    let text = SourceText::new("abc $\nnext".to_string());
    let diagnostics = vec![error("m", 4, 5, "$")];
    let printer = DiagnosticsPrinter::new(&text, &diagnostics);
    let (prefix, span, suffix) = DiagnosticsPrinter::get_text_spans(4, &diagnostics[0], "abc $");
    assert_eq!((prefix, span, suffix), ("abc ", "$", ""));
    let report = printer.stringify_diagnostic(&diagnostics[0]);
    let lines: Vec<&str> = report.split('\n').collect();
    assert_eq!(lines, vec!["abc $", "    ^", "    |", "    +-- m"]);
    assert_eq!(lines[1].trim_start().len(), diagnostics[0].span.len());
}

#[test]
fn span_behind_the_line_is_brought_inside() {
    colored::control::set_override(false);
    let text = SourceText::new("ab".to_string());
    let diagnostics = vec![error("end", 2, 2, ""), error("far", 7, 9, "")];
    let printer = DiagnosticsPrinter::new(&text, &diagnostics);
    assert_eq!(printer.stringify_diagnostic(&diagnostics[0]), "ab\n  \n  |\n  +-- end");
    assert_eq!(
        printer.stringify_diagnostic(&diagnostics[1]),
        "ab\n       ^^\n       |\n       +-- far"
    );
}

#[test]
fn long_lines_are_shortened_around_the_span() {
    colored::control::set_override(false);
    let line = format!("{}@{}", "a".repeat(100), "b".repeat(100));
    let text = SourceText::new(line.clone());
    let diagnostics = vec![error("m", 100, 101, "@")];
    let printer = DiagnosticsPrinter::new(&text, &diagnostics);
    let (prefix, span, suffix) = DiagnosticsPrinter::get_text_spans(100, &diagnostics[0], &line);
    assert_eq!(prefix, "a".repeat(80));
    assert_eq!(span, "@");
    assert_eq!(suffix, "b".repeat(80));
    let report = printer.stringify_diagnostic(&diagnostics[0]);
    let lines: Vec<&str> = report.split('\n').collect();
    assert_eq!(lines[0], format!("{}@{}", "a".repeat(80), "b".repeat(80)));
    assert_eq!(lines[1], format!("{}^", " ".repeat(80)));
    assert_eq!(lines[2], format!("{}|", " ".repeat(80)));
    assert_eq!(lines[3], format!("{}+-- m", " ".repeat(80)));
}

#[test]
fn borders_inside_a_character_move_back_to_its_start() {
    colored::control::set_override(false);
    let diagnostics = vec![error("m", 1, 2, "")];
    let (prefix, span, suffix) = DiagnosticsPrinter::get_text_spans(2, &diagnostics[0], "a\u{e9}b");
    assert_eq!((prefix, span, suffix), ("a", "\u{e9}", "b"));
}

#[test]
fn format_arrow_draws_one_caret_for_each_byte() {
    let diagnostic = error("m", 3, 8, "hello");
    let (pointers, line) = DiagnosticsPrinter::format_arrow(&diagnostic, 3);
    assert_eq!(pointers, "   ^^^^^");
    assert_eq!(line, "   |");
    let (pointers, line) = DiagnosticsPrinter::format_arrow(&error("m", 3, 3, ""), 0);
    assert_eq!(pointers, "");
    assert_eq!(line, "|");
}

#[test]
fn tree_is_written_out_without_colours() {
    colored::control::set_override(false);
    let (ast, bag) = parse("a := 1 + 2 * (3 - 4);\n7 % 2");
    assert!(bag.diagnostics.is_empty());
    assert_eq!(ast.visualize(), "a := 1 + 2 * (3 - 4);\n7 % 2\n");
}

#[test]
fn negative_numbers_are_written_with_their_sign() {
    colored::control::set_override(false);
    let (ast, _) = parse("-12 * -2147483648 + 0 + 1000");
    assert_eq!(ast.visualize(), "-12 * -2147483648 + 0 + 1000\n");
}

#[test]
fn variable_is_written_as_its_identifier() {
    colored::control::set_override(false);
    let variable = AstExpression::new(AstExpressionKind::Variable(AstVariableExpression {
        identifier: Token::new(
            TokenKind::Identifier("total".to_string()),
            Span::new(0, 5, "total".to_string()),
            "total".to_string(),
        ),
    }));
    let mut printer = AstPrinter::new();
    printer.do_visit_expression(&variable);
    assert_eq!(printer.finish(), "total");
    let mut ast = Ast::new();
    ast.add_statement(AstStatement::expression(AstExpression::parenthesized(variable)));
    assert_eq!(ast.visualize(), "(total)\n");
}

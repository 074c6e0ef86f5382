use translator::ast::lexer::{Token, TokenKind};
use translator::ast::parser::Parser;
use translator::ast::{Ast, AstExpression, AstExpressionKind, AstStatement, AstVariableExpression};
use translator::diagnostics::printer::DiagnosticsPrinter;
use translator::diagnostics::{Diagnostic, DiagnosticBag, DiagnosticKind};
use translator::text::span::Span;
use translator::text::SourceText;

fn parse(input: &str) -> (Ast, DiagnosticBag) {
    let mut bag = DiagnosticBag::new();
    let mut ast = Ast::new();
    let mut parser = Parser::from_input(input, &mut bag);
    while let Some(statement) = parser.next_statement(&mut bag) {
        ast.add_statement(statement);
    }
    (ast, bag)
}

fn error(message: &str, start: usize, end: usize, literal: &str) -> Diagnostic {
    Diagnostic::new(
        message.to_string(),
        Span::new(start, end, literal.to_string()),
        DiagnosticKind::Error,
    )
}

#[test]
fn report_with_colours_highlights_the_span_in_red() {
    colored::control::set_override(true);
    let text = SourceText::new("1 + @ 2".to_string());
    let diagnostics = vec![error("Unknown token finded <@>", 4, 5, "@")];
    let printer = DiagnosticsPrinter::new(&text, &diagnostics);
    assert_eq!(
        printer.stringify_diagnostic(&diagnostics[0]),
        "1 + \u{1b}[31m@\u{1b}[0m 2\n    ^\n    |\n    +-- Unknown token finded <@>"
    );
}

#[test]
fn tree_is_written_out_with_colours() {
    colored::control::set_override(true);
    let (ast, _) = parse("x := 1 + ;");
    assert_eq!(
        ast.visualize(),
        "\u{1b}[32mx\u{1b}[0m := \u{1b}[36m1\u{1b}[0m \u{1b}[37m+\u{1b}[0m \u{1b}[31m;\u{1b}[0m;\n"
    );
}

#[test]
fn highlighting_goes_on_behind_a_reset_inside_the_span() {
    colored::control::set_override(true);
    let text = SourceText::new("a\u{1b}[0mb c".to_string());
    let diagnostics = vec![error("m", 0, 6, "a\u{1b}[0mb")];
    let printer = DiagnosticsPrinter::new(&text, &diagnostics);
    assert_eq!(
        printer.stringify_diagnostic(&diagnostics[0]),
        "\u{1b}[31ma\u{1b}[0m\u{1b}[31mb\u{1b}[0m c\n^^^^^^\n|\n+-- m"
    );
}

#[test]
fn variable_is_written_in_green() {
    colored::control::set_override(true);
    let variable = AstExpression::new(AstExpressionKind::Variable(AstVariableExpression {
        identifier: Token::new(
            TokenKind::Identifier("v".to_string()),
            Span::new(0, 1, "v".to_string()),
            "v".to_string(),
        ),
    }));
    let mut ast = Ast::new();
    ast.add_statement(AstStatement::expression(variable));
    assert_eq!(ast.visualize(), "\u{1b}[32mv\u{1b}[0m\n");
}

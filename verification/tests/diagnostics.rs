use translator::ast::lexer::{Token, TokenKind};
use translator::diagnostics::{DiagnosticBag, DiagnosticKind};
use translator::text::span::Span;

#[test]
fn unexpected_token_message_names_both_kinds() {
    let mut bag = DiagnosticBag::new();
    let found = Token::new(
        TokenKind::Identifier("y".to_string()),
        Span::new(4, 5, "y".to_string()),
        "y".to_string(),
    );
    bag.report_unexpected_token(&TokenKind::OpAssign, &found);
    assert_eq!(bag.diagnostics.len(), 1);
    assert_eq!(bag.diagnostics[0].message, "Expected <OpAssign>, found <Identifier(\"y\")>");
    assert_eq!(bag.diagnostics[0].span.start, 4);
    assert_eq!(bag.diagnostics[0].span.end, 5);
    assert_eq!(bag.diagnostics[0].kind, DiagnosticKind::Error);
}

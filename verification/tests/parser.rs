use translator::ast::evaluator::AstEvaluator;
use translator::ast::parser::Parser;
use translator::ast::{Ast, AstExpression, AstExpressionKind, AstStatementKind};
use translator::diagnostics::DiagnosticBag;

fn parse(input: &str) -> (Ast, DiagnosticBag) {
    let mut bag = DiagnosticBag::new();
    let mut ast = Ast::new();
    let mut parser = Parser::from_input(input, &mut bag);
    while let Some(statement) = parser.next_statement(&mut bag) {
        ast.add_statement(statement);
    }
    (ast, bag)
}

fn evaluate(input: &str) -> Option<i32> {
    let (ast, bag) = parse(input);
    assert!(bag.diagnostics.is_empty());
    let mut eval = AstEvaluator::new();
    ast.visit(&mut eval);
    eval.last_value
}

fn holds_error(expression: &AstExpression) -> bool {
    match &expression.kind {
        AstExpressionKind::Error(_) => true,
        AstExpressionKind::Binary(binary) => holds_error(&binary.left) || holds_error(&binary.right),
        AstExpressionKind::Parenthesized(inner) => holds_error(&inner.expression),
        _ => false,
    }
}

#[test]
fn arithmetics_parse_eval() {
    let input = "2*9+ 3 / 1 + (2 + 3)";
    let mut diagnostics_bag = DiagnosticBag::new();
    let mut ast = Ast::new();
    let mut parser = Parser::from_input(input, &mut diagnostics_bag);
    while let Some(statement) = parser.next_statement(&mut diagnostics_bag) {
        ast.add_statement(statement);
    }
    let mut eval = AstEvaluator::new();
    ast.visit(&mut eval);
    println!("Result {input} = {:?}", eval.last_value);
    assert_eq!(eval.last_value, Some(26));
}

#[test]
fn multiplication_binds_tighter_than_addition() {
    assert_eq!(evaluate("1 + 2 * 3"), Some(7));
    assert_eq!(evaluate("(1 + 2) * 3"), Some(9));
}

#[test]
fn equal_precedence_groups_to_the_right() {
    assert_eq!(evaluate("8 - 3 - 2"), Some(7));
}

#[test]
fn percent_is_a_multiplicative_operator() {
    assert_eq!(evaluate("7 % 4 + 1"), Some(4));
    assert_eq!(evaluate("1 + 7 % 4"), Some(4));
}

#[test]
fn division_rounds_towards_zero() {
    assert_eq!(evaluate("-7 / 2"), Some(-3));
    assert_eq!(evaluate("-7 % 2"), Some(-1));
    assert_eq!(evaluate("7 / -2"), Some(-3));
    assert_eq!(evaluate("7 % -2"), Some(1));
}

#[test]
fn missing_operand_is_recovered() {
    let (ast, bag) = parse("1 + ;");
    assert_eq!(bag.diagnostics.len(), 1);
    assert_eq!(bag.diagnostics[0].message, "Expected expression, found <Semicolon>");
    assert_eq!(bag.diagnostics[0].span.start, 4);
    assert_eq!(bag.diagnostics[0].span.end, 5);
    assert_eq!(ast.statements.len(), 1);
    match &ast.statements[0].kind {
        AstStatementKind::Expression(expression) => {
            assert!(holds_error(expression));
            match &expression.kind {
                AstExpressionKind::Binary(binary) => match &binary.right.kind {
                    AstExpressionKind::Error(span) => {
                        assert_eq!(span.start, 4);
                        assert_eq!(span.end, 5);
                        assert_eq!(span.literal, ";");
                    }
                    _ => panic!("the right operand is no error node"),
                },
                _ => panic!("no binary expression"),
            }
        }
        _ => panic!("no expression statement"),
    }
}

#[test]
fn assignment_round_trip() {
    let (ast, bag) = parse("x := 5;");
    assert!(bag.diagnostics.is_empty());
    assert_eq!(ast.statements.len(), 1);
    match &ast.statements[0].kind {
        AstStatementKind::AssignStatement(assign) => {
            assert_eq!(assign.identifier.lexeme, "x");
            match &assign.initializer.kind {
                AstExpressionKind::Number(number) => assert_eq!(number.number, 5),
                _ => panic!("the initializer is no number"),
            }
        }
        _ => panic!("no assignment"),
    }
}

#[test]
fn missing_assign_and_semicolon_are_reported_and_consumed() {
    let (ast, bag) = parse("x 5 6");
    assert_eq!(ast.statements.len(), 1);
    assert_eq!(bag.diagnostics.len(), 2);
    assert_eq!(bag.diagnostics[0].message, "Expected <OpAssign>, found <LiteralInteger(5)>");
    assert_eq!(bag.diagnostics[0].span.start, 2);
    assert_eq!(bag.diagnostics[1].message, "Expected <Semicolon>, found <EOF>");
    assert_eq!(bag.diagnostics[1].span.start, 5);
    assert_eq!(bag.diagnostics[1].span.end, 5);
}

#[test]
fn mismatched_parenthesis_is_reported() {
    let (ast, bag) = parse("(1 + 2;");
    assert_eq!(ast.statements.len(), 1);
    assert_eq!(bag.diagnostics.len(), 1);
    assert_eq!(bag.diagnostics[0].message, "Expected <RightParen>, found <Semicolon>");
    assert_eq!(bag.diagnostics[0].span.start, 6);
}

#[test]
fn every_error_node_has_a_diagnostic_at_its_span() {
    fn spans(expression: &AstExpression, out: &mut Vec<(usize, usize)>) {
        match &expression.kind {
            AstExpressionKind::Error(span) => out.push((span.start, span.end)),
            AstExpressionKind::Binary(binary) => {
                spans(&binary.left, out);
                spans(&binary.right, out);
            }
            AstExpressionKind::Parenthesized(inner) => spans(&inner.expression, out),
            _ => {}
        }
    }
    let (ast, bag) = parse("(* 2) + ; x := := 3 ) 1.5");
    let mut found = Vec::new();
    for statement in &ast.statements {
        match &statement.kind {
            AstStatementKind::Expression(expression) => spans(expression, &mut found),
            AstStatementKind::AssignStatement(assign) => spans(&assign.initializer, &mut found),
        }
    }
    assert!(!found.is_empty());
    for (start, end) in found {
        assert!(bag
            .diagnostics
            .iter()
            .any(|d| d.span.start == start && d.span.end == end));
    }
}

#[test]
fn parsing_ends_on_malformed_input() {
    for input in ["", "((((", "+ + +", "x", "x :=", ") ) )", "1 2 3", "@ # \"open"] {
        let mut bag = DiagnosticBag::new();
        let mut parser = Parser::from_input(input, &mut bag);
        let mut calls = 0;
        while parser.next_statement(&mut bag).is_some() {
            calls += 1;
            assert!(calls <= input.len());
        }
        assert!(parser.next_statement(&mut bag).is_none());
    }
}

#[test]
fn adjacent_minus_belongs_to_the_number() {
    let (ast, bag) = parse("8-3");
    assert!(bag.diagnostics.is_empty());
    assert_eq!(ast.statements.len(), 2);
}

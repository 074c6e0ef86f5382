pub mod evaluator;
pub mod grammar;
pub mod lexer;
pub mod parser;
pub mod patterns;
pub mod printer;
pub mod visitor;

pub use crate::ast::printer::AstPrinter;
pub use crate::ast::visitor::{AstNode, AstVisitor};

use vstd::prelude::*;
use crate::ast::lexer::Token;
use crate::text::span::Span;

verus! {

/// An ordered sequence of statements.
pub struct Ast {
    pub statements: Vec<AstStatement>,
}

impl Ast {
    pub fn new() -> (ast: Self)
        ensures
            ast.statements@ == Seq::<AstStatement>::empty(),
    {
        Self { statements: Vec::new() }
    }

    pub fn add_statement(&mut self, statement: AstStatement)
        ensures
            final(self).statements@ == old(self).statements@.push(statement),
    {
        self.statements.push(statement);
    }
}

pub enum AstStatementKind {
    Expression(AstExpression),
    AssignStatement(AstAssignStatement),
}

pub struct AstAssignStatement {
    pub identifier: Token,
    pub initializer: AstExpression,
}

pub struct AstStatement {
    pub kind: AstStatementKind,
}

impl AstStatement {
    pub fn new(kind: AstStatementKind) -> (statement: Self)
        ensures
            statement.kind == kind,
    {
        AstStatement { kind }
    }

    pub fn expression(expr: AstExpression) -> (statement: Self)
        ensures
            statement.kind == AstStatementKind::Expression(expr),
    {
        AstStatement::new(AstStatementKind::Expression(expr))
    }

    pub fn assign_statement(identifier: Token, initializer: AstExpression) -> (statement: Self)
        ensures
            statement.kind == AstStatementKind::AssignStatement(
                AstAssignStatement { identifier, initializer },
            ),
    {
        AstStatement::new(
            AstStatementKind::AssignStatement(AstAssignStatement { identifier, initializer }),
        )
    }
}

pub enum AstExpressionKind {
    Number(AstNumberExpression),
    Binary(AstBinaryExpression),
    Parenthesized(AstParenthesizedExpression),
    Variable(AstVariableExpression),
    Error(Span),
}

#[derive(Debug, Clone, Copy, PartialEq, Eq, Structural)]
pub enum AstBinaryOperatorKind {
    Plus,
    Minus,
    Multiply,
    Divide,
    Mod,
}

impl AstBinaryOperatorKind {
    /// Binding strength: 3 for the additive operators, 4 for the
    /// multiplicative ones.
    pub open spec fn precedence(self) -> u8 {
        match self {
            AstBinaryOperatorKind::Plus => 3,
            AstBinaryOperatorKind::Minus => 3,
            AstBinaryOperatorKind::Multiply => 4,
            AstBinaryOperatorKind::Divide => 4,
            AstBinaryOperatorKind::Mod => 4,
        }
    }
}

pub struct AstBinaryOperator {
    pub kind: AstBinaryOperatorKind,
    pub token: Token,
}

impl AstBinaryOperator {
    pub fn new(kind: AstBinaryOperatorKind, token: Token) -> (operator: Self)
        ensures
            operator.kind == kind,
            operator.token == token,
    {
        AstBinaryOperator { kind, token }
    }

    pub fn precedence(&self) -> (strength: u8)
        ensures
            strength == self.kind.precedence(),
    {
        match self.kind {
            AstBinaryOperatorKind::Plus => 3,
            AstBinaryOperatorKind::Minus => 3,
            AstBinaryOperatorKind::Multiply => 4,
            AstBinaryOperatorKind::Divide => 4,
            AstBinaryOperatorKind::Mod => 4,
        }
    }
}

pub struct AstBinaryExpression {
    pub left: Box<AstExpression>,
    pub operator: AstBinaryOperator,
    pub right: Box<AstExpression>,
}

pub struct AstNumberExpression {
    pub number: i32,
}

pub struct AstParenthesizedExpression {
    pub expression: Box<AstExpression>,
}

pub struct AstVariableExpression {
    pub identifier: Token,
}

impl AstVariableExpression {
    pub fn identifier(&self) -> (name: &str)
        ensures
            name@ == self.identifier.lexeme@,
    {
        self.identifier.lexeme.as_str()
    }
}

pub struct AstExpression {
    pub kind: AstExpressionKind,
}

impl AstExpression {
    pub open spec fn spec_number(number: i32) -> AstExpression {
        AstExpression { kind: AstExpressionKind::Number(AstNumberExpression { number }) }
    }

    pub open spec fn spec_binary(
        operator: AstBinaryOperator,
        left: AstExpression,
        right: AstExpression,
    ) -> AstExpression {
        AstExpression {
            kind: AstExpressionKind::Binary(
                AstBinaryExpression { left: Box::new(left), operator, right: Box::new(right) },
            ),
        }
    }

    pub open spec fn spec_parenthesized(expression: AstExpression) -> AstExpression {
        AstExpression {
            kind: AstExpressionKind::Parenthesized(
                AstParenthesizedExpression { expression: Box::new(expression) },
            ),
        }
    }

    pub open spec fn spec_error(span: Span) -> AstExpression {
        AstExpression { kind: AstExpressionKind::Error(span) }
    }

    pub fn new(kind: AstExpressionKind) -> (expression: Self)
        ensures
            expression.kind == kind,
    {
        AstExpression { kind }
    }

    #[verifier::when_used_as_spec(spec_number)]
    pub fn number(number: i32) -> (expression: Self)
        ensures
            expression == Self::spec_number(number),
    {
        AstExpression::new(AstExpressionKind::Number(AstNumberExpression { number }))
    }

    #[verifier::when_used_as_spec(spec_binary)]
    pub fn binary(operator: AstBinaryOperator, left: AstExpression, right: AstExpression) -> (expression:
        Self)
        ensures
            expression == Self::spec_binary(operator, left, right),
    {
        AstExpression::new(
            AstExpressionKind::Binary(
                AstBinaryExpression { left: Box::new(left), operator, right: Box::new(right) },
            ),
        )
    }

    #[verifier::when_used_as_spec(spec_parenthesized)]
    pub fn parenthesized(expression: AstExpression) -> (wrapped: Self)
        ensures
            wrapped == Self::spec_parenthesized(expression),
    {
        AstExpression::new(
            AstExpressionKind::Parenthesized(
                AstParenthesizedExpression { expression: Box::new(expression) },
            ),
        )
    }

    #[verifier::when_used_as_spec(spec_error)]
    pub fn error(span: Span) -> (expression: Self)
        ensures
            expression == Self::spec_error(span),
    {
        AstExpression::new(AstExpressionKind::Error(span))
    }
}

} // verus!

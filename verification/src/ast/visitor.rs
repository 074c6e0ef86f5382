use vstd::prelude::*;
use crate::ast::{
    Ast, AstAssignStatement, AstBinaryExpression, AstExpression, AstExpressionKind,
    AstNumberExpression, AstParenthesizedExpression, AstStatement, AstStatementKind,
    AstVariableExpression,
};
use crate::text::span::Span;

verus! {

/// A node of the tree, as a visitor meets it: one variant for each visiting
/// operation.
pub enum AstNode {
    Statement(AstStatement),
    Expression(AstExpression),
    Assign(AstAssignStatement),
    Number(AstNumberExpression),
    Binary(AstBinaryExpression),
    Parenthesized(AstParenthesizedExpression),
    Variable(AstVariableExpression),
    Error(Span),
}

/// The node to which visiting a statement is forwarded.
pub open spec fn statement_part(statement: AstStatement) -> AstNode {
    match statement.kind {
        AstStatementKind::Expression(expression) => AstNode::Expression(expression),
        AstStatementKind::AssignStatement(assign) => AstNode::Assign(assign),
    }
}

/// The node to which visiting an expression is forwarded: the one of its
/// variant, with the variant's payload.
pub open spec fn expression_part(expression: AstExpression) -> AstNode {
    match expression.kind {
        AstExpressionKind::Number(number) => AstNode::Number(number),
        AstExpressionKind::Binary(binary) => AstNode::Binary(binary),
        AstExpressionKind::Parenthesized(inner) => AstNode::Parenthesized(inner),
        AstExpressionKind::Variable(variable) => AstNode::Variable(variable),
        AstExpressionKind::Error(span) => AstNode::Error(span),
    }
}

/// Number of nested levels of an expression; the measure by which the walks
/// over a tree terminate.
pub open spec fn expression_height(expression: AstExpression) -> nat
    decreases expression,
{
    match expression.kind {
        AstExpressionKind::Binary(binary) => 1 + vstd::math::max(
            expression_height(*binary.left) as int,
            expression_height(*binary.right) as int,
        ) as nat,
        AstExpressionKind::Parenthesized(inner) => 1 + expression_height(*inner.expression),
        _ => 1,
    }
}

/// Height of any node, each wrapper counted as one level.
pub open spec fn node_height(node: AstNode) -> nat {
    match node {
        AstNode::Statement(statement) => match statement.kind {
            AstStatementKind::Expression(expression) => 1 + expression_height(expression),
            AstStatementKind::AssignStatement(assign) => 2 + expression_height(assign.initializer),
        },
        AstNode::Assign(assign) => 1 + expression_height(assign.initializer),
        AstNode::Expression(expression) => expression_height(expression),
        AstNode::Binary(binary) => 1 + vstd::math::max(
            expression_height(*binary.left) as int,
            expression_height(*binary.right) as int,
        ) as nat,
        AstNode::Parenthesized(inner) => 1 + expression_height(*inner.expression),
        AstNode::Number(_) => 1,
        AstNode::Variable(_) => 1,
        AstNode::Error(_) => 1,
    }
}

/// The operations through which a consumer walks a tree.
///
/// A consumer says by `accepts` which nodes it can visit and by `visited`
/// how visiting a node changes it. Every operation is bound to these two:
/// it may be called on a node that the consumer accepts, and then changes the
/// consumer as `visited` says of that node. The two forwarding operations
/// come with the trait: they inspect the variant and hand the variant's
/// payload to the operation of that variant, whatever the consumer is.
pub trait AstVisitor: Sized {
    /// The nodes that this consumer can visit.
    spec fn accepts(node: AstNode) -> bool;

    /// Visiting `node` can turn the consumer `before` into `after`.
    spec fn visited(before: Self, node: AstNode, after: Self) -> bool;

    /// Forwards to the operation for the statement's variant.
    fn do_visit_statement(&mut self, statement: &AstStatement)
        requires
            Self::accepts(statement_part(*statement)),
        ensures
            Self::visited(*old(self), statement_part(*statement), *final(self)),
    {
        match &statement.kind {
            AstStatementKind::Expression(expr) => {
                self.visit_expression(expr);
            },
            AstStatementKind::AssignStatement(statement) => self.visit_assign_statement(statement),
        }
    }

    fn visit_statement(&mut self, statement: &AstStatement)
        requires
            Self::accepts(AstNode::Statement(*statement)),
        ensures
            Self::visited(*old(self), AstNode::Statement(*statement), *final(self)),
    ;

    /// Forwards to the operation for the expression's variant.
    fn do_visit_expression(&mut self, expression: &AstExpression)
        requires
            Self::accepts(expression_part(*expression)),
        ensures
            Self::visited(*old(self), expression_part(*expression), *final(self)),
    {
        match &expression.kind {
            AstExpressionKind::Number(number) => {
                self.visit_number(number);
            },
            AstExpressionKind::Binary(expr) => {
                self.visit_binary_expression(expr);
            },
            AstExpressionKind::Parenthesized(expr) => {
                self.visit_parenthesized_expression(expr);
            },
            AstExpressionKind::Error(span) => self.visit_error(span),
            AstExpressionKind::Variable(variable) => self.visit_variable(variable),
        }
    }

    fn visit_expression(&mut self, expression: &AstExpression)
        requires
            Self::accepts(AstNode::Expression(*expression)),
        ensures
            Self::visited(*old(self), AstNode::Expression(*expression), *final(self)),
    ;

    fn visit_assign_statement(&mut self, statement: &AstAssignStatement)
        requires
            Self::accepts(AstNode::Assign(*statement)),
        ensures
            Self::visited(*old(self), AstNode::Assign(*statement), *final(self)),
    ;

    fn visit_number(&mut self, number: &AstNumberExpression)
        requires
            Self::accepts(AstNode::Number(*number)),
        ensures
            Self::visited(*old(self), AstNode::Number(*number), *final(self)),
    ;

    fn visit_variable(&mut self, variable: &AstVariableExpression)
        requires
            Self::accepts(AstNode::Variable(*variable)),
        ensures
            Self::visited(*old(self), AstNode::Variable(*variable), *final(self)),
    ;

    fn visit_error(&mut self, span: &Span)
        requires
            Self::accepts(AstNode::Error(*span)),
        ensures
            Self::visited(*old(self), AstNode::Error(*span), *final(self)),
    ;

    fn visit_binary_expression(&mut self, binary_expression: &AstBinaryExpression)
        requires
            Self::accepts(AstNode::Binary(*binary_expression)),
        ensures
            Self::visited(*old(self), AstNode::Binary(*binary_expression), *final(self)),
    ;

    fn visit_parenthesized_expression(
        &mut self,
        parenthesized_expression: &AstParenthesizedExpression,
    )
        requires
            Self::accepts(AstNode::Parenthesized(*parenthesized_expression)),
        ensures
            Self::visited(
                *old(self),
                AstNode::Parenthesized(*parenthesized_expression),
                *final(self),
            ),
    ;
}

/// Visiting the statements one after the other, first to last, can turn the
/// consumer `before` into `after`.
pub open spec fn visited_all<V: AstVisitor>(
    before: V,
    statements: Seq<AstStatement>,
    after: V,
) -> bool
    decreases statements.len(),
{
    if statements.len() == 0 {
        after == before
    } else {
        exists|middle: V|
            visited_all(before, statements.drop_last(), middle) && #[trigger] V::visited(
                middle,
                AstNode::Statement(statements.last()),
                after,
            )
    }
}

impl Ast {
    /// Walks the tree: hands every statement to the visitor, in order.
    pub fn visit<V: AstVisitor>(&self, visitor: &mut V)
        requires
            forall|i: int|
                0 <= i < self.statements@.len() ==> V::accepts(
                    AstNode::Statement(#[trigger] self.statements@[i]),
                ),
        ensures
            visited_all(*old(visitor), self.statements@, *final(visitor)),
    {
        let mut i: usize = 0;
        while i < self.statements.len()
            invariant
                i <= self.statements@.len(),
                forall|i: int|
                    0 <= i < self.statements@.len() ==> V::accepts(
                        AstNode::Statement(#[trigger] self.statements@[i]),
                    ),
                visited_all(*old(visitor), self.statements@.take(i as int), *visitor),
            decreases self.statements@.len() - i,
        {
            let ghost middle = *visitor;
            visitor.visit_statement(&self.statements[i]);
            proof {
                let done = self.statements@.take(i + 1);
                assert(done.drop_last() =~= self.statements@.take(i as int));
                assert(done.last() == self.statements@[i as int]);
                assert(V::visited(middle, AstNode::Statement(done.last()), *visitor));
            }
            i += 1;
        }
        assert(self.statements@.take(i as int) =~= self.statements@);
    }
}

} // verus!

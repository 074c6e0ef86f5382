use vstd::prelude::*;
use crate::ast::visitor::{expression_height, node_height, visited_all, AstNode, AstVisitor};
use crate::ast::{
    Ast, AstAssignStatement, AstBinaryExpression, AstBinaryOperatorKind, AstExpression,
    AstExpressionKind, AstNumberExpression, AstParenthesizedExpression, AstStatement,
    AstStatementKind, AstVariableExpression,
};
use crate::text::span::Span;

verus! {

/// Quotient of the division that rounds towards zero.
pub open spec fn quotient(a: int, b: int) -> int {
    if a >= 0 {
        a / b
    } else {
        -((-a) / b)
    }
}

/// Remainder of the division that rounds towards zero: it has the sign of
/// the dividend.
pub open spec fn remainder(a: int, b: int) -> int {
    if a >= 0 {
        a % b
    } else {
        -((-a) % b)
    }
}

/// A division of 32-bit values has a result unless the divisor is zero or
/// the quotient leaves the 32-bit range.
pub open spec fn divisible(left: int, right: int) -> bool {
    right != 0 && !(left == i32::MIN && right == -1)
}

pub open spec fn fits(value: int) -> bool {
    i32::MIN <= value <= i32::MAX
}

/// The result of a binary operation on two 32-bit values, where it has one:
/// there is none where a sum, difference or product leaves the 32-bit range,
/// and none where a division has no result.
pub open spec fn apply(kind: AstBinaryOperatorKind, left: int, right: int) -> Option<int> {
    match kind {
        AstBinaryOperatorKind::Plus => if fits(left + right) {
            Some(left + right)
        } else {
            None
        },
        AstBinaryOperatorKind::Minus => if fits(left - right) {
            Some(left - right)
        } else {
            None
        },
        AstBinaryOperatorKind::Multiply => if fits(left * right) {
            Some(left * right)
        } else {
            None
        },
        AstBinaryOperatorKind::Divide => if divisible(left, right) {
            Some(quotient(left, right))
        } else {
            None
        },
        AstBinaryOperatorKind::Mod => if divisible(left, right) {
            Some(remainder(left, right))
        } else {
            None
        },
    }
}

/// Where a division of 32-bit values has a result, quotient and remainder are
/// 32-bit values too.
pub proof fn lemma_division_fits(left: int, right: int)
    requires
        fits(left),
        fits(right),
        divisible(left, right),
    ensures
        fits(quotient(left, right)),
        fits(remainder(left, right)),
{
    if left >= 0 {
        assert(-left <= left / right <= left && 0 <= left % right <= left)
            by (nonlinear_arith)
            requires
                0 <= left,
                right != 0,
        ;
    } else {
        let a = -left;
        assert(-a <= a / right <= a && 0 <= a % right <= a) by (nonlinear_arith)
            requires
                0 < a,
                right != 0,
        ;
        if right != -1 {
            assert(-a < a / right) by (nonlinear_arith)
                requires
                    0 < a,
                    right != 0,
                    right != -1,
            ;
        }
    }
}

/// The value of an expression, where it has one. An error node and a
/// variable have none, and so has every expression built on one without.
pub open spec fn expression_value(expression: AstExpression) -> Option<int>
    decreases expression,
{
    match expression.kind {
        AstExpressionKind::Number(number) => Some(number.number as int),
        AstExpressionKind::Binary(binary) => binary_value(binary),
        AstExpressionKind::Parenthesized(inner) => expression_value(*inner.expression),
        AstExpressionKind::Variable(_) => None,
        AstExpressionKind::Error(_) => None,
    }
}

/// The value of a binary expression: that of the operation on the values of
/// both operands.
pub open spec fn binary_value(binary: AstBinaryExpression) -> Option<int>
    decreases binary,
{
    match (expression_value(*binary.left), expression_value(*binary.right)) {
        (Some(left), Some(right)) => apply(binary.operator.kind, left, right),
        _ => None,
    }
}

/// The value that visiting a node leaves behind, where the node has one. An
/// assignment has none.
pub open spec fn node_value(node: AstNode) -> Option<int> {
    match node {
        AstNode::Statement(statement) => match statement.kind {
            AstStatementKind::Expression(expression) => expression_value(expression),
            AstStatementKind::AssignStatement(_) => None,
        },
        AstNode::Expression(expression) => expression_value(expression),
        AstNode::Assign(_) => None,
        AstNode::Number(number) => Some(number.number as int),
        AstNode::Binary(binary) => binary_value(binary),
        AstNode::Parenthesized(inner) => expression_value(*inner.expression),
        AstNode::Variable(_) => None,
        AstNode::Error(_) => None,
    }
}

/// Walks a tree and keeps the value of what it visited last.
///
/// It evaluates expressions made of numbers, parentheses and the five binary
/// operators, in 32-bit arithmetic. It has no capability for assignments,
/// error nodes and variables, and none for an operation without a result
/// (a zero divisor, a result outside the 32-bit range): it accepts no tree
/// that holds one. [`AstEvaluator::can_visit`] tells beforehand.
pub struct AstEvaluator {
    pub last_value: Option<i32>,
}

impl AstEvaluator {
    pub fn new() -> (evaluator: Self)
        ensures
            evaluator.last_value is None,
    {
        Self { last_value: None }
    }

    /// The result of one operation, computed without leaving the 32-bit
    /// range; `None` where it has none.
    pub fn checked_apply(kind: AstBinaryOperatorKind, left: i32, right: i32) -> (value: Option<i32>)
        ensures
            match value {
                Some(value) => apply(kind, left as int, right as int) == Some(value as int),
                None => apply(kind, left as int, right as int) is None,
            },
    {
        let wide = match kind {
            AstBinaryOperatorKind::Plus => left as i64 + right as i64,
            AstBinaryOperatorKind::Minus => left as i64 - right as i64,
            AstBinaryOperatorKind::Multiply => {
                assert(-0x8000_0000 * 0x8000_0000 <= left * right <= 0x8000_0000 * 0x8000_0000)
                    by (nonlinear_arith)
                    requires
                        -0x8000_0000 <= left <= 0x8000_0000,
                        -0x8000_0000 <= right <= 0x8000_0000,
                ;
                left as i64 * right as i64
            },
            AstBinaryOperatorKind::Divide => {
                if right == 0 || (left == i32::MIN && right == -1) {
                    return None;
                }
                proof {
                    lemma_division_fits(left as int, right as int);
                }
                return Some(left / right);
            },
            AstBinaryOperatorKind::Mod => {
                if right == 0 || (left == i32::MIN && right == -1) {
                    return None;
                }
                proof {
                    lemma_division_fits(left as int, right as int);
                }
                return Some(left % right);
            },
        };
        if wide < -2147483648 || wide > 2147483647 {
            None
        } else {
            Some(wide as i32)
        }
    }

    /// The value of an expression, computed without visiting it; `None`
    /// where it has none.
    pub fn value_of(expression: &AstExpression) -> (value: Option<i32>)
        ensures
            match value {
                Some(value) => expression_value(*expression) == Some(value as int),
                None => expression_value(*expression) is None,
            },
        decreases expression,
    {
        match &expression.kind {
            AstExpressionKind::Number(number) => Some(number.number),
            AstExpressionKind::Binary(binary) => {
                assert(expression_value(*expression) == binary_value(*binary));
                let left = match Self::value_of(&binary.left) {
                    Some(left) => left,
                    None => {
                        return None;
                    },
                };
                let right = match Self::value_of(&binary.right) {
                    Some(right) => right,
                    None => {
                        return None;
                    },
                };
                Self::checked_apply(binary.operator.kind, left, right)
            },
            AstExpressionKind::Parenthesized(inner) => Self::value_of(&inner.expression),
            AstExpressionKind::Variable(_) => None,
            AstExpressionKind::Error(_) => None,
        }
    }

    /// Whether the evaluator can visit every statement of the tree: whether
    /// each is an expression with a value.
    pub fn can_visit(ast: &Ast) -> (yes: bool)
        ensures
            yes == (forall|i: int|
                0 <= i < ast.statements@.len() ==> Self::accepts(
                    AstNode::Statement(#[trigger] ast.statements@[i]),
                )),
    {
        let mut i: usize = 0;
        while i < ast.statements.len()
            invariant
                i <= ast.statements@.len(),
                forall|k: int|
                    0 <= k < i ==> Self::accepts(AstNode::Statement(#[trigger] ast.statements@[k])),
            decreases ast.statements@.len() - i,
        {
            let good = match &ast.statements[i].kind {
                AstStatementKind::Expression(expression) => Self::value_of(expression).is_some(),
                AstStatementKind::AssignStatement(_) => false,
            };
            if !good {
                assert(!Self::accepts(AstNode::Statement(ast.statements@[i as int])));
                return false;
            }
            i += 1;
        }
        true
    }
}

impl AstVisitor for AstEvaluator {
    /// The evaluator visits the nodes that have a value.
    open spec fn accepts(node: AstNode) -> bool {
        node_value(node) is Some
    }

    /// After a visit the last value is the value of the node.
    open spec fn visited(before: Self, node: AstNode, after: Self) -> bool {
        after.last_value is Some && node_value(node) == Some(after.last_value->0 as int)
    }

    fn visit_statement(&mut self, statement: &AstStatement)
    {
        self.do_visit_statement(statement);
    }

    /// The forwarding of the trait, written out once more: it lies on the
    /// recursion of the walk, and only an operation of the consumer itself
    /// can say by what measure the walk ends.
    fn do_visit_expression(&mut self, expression: &AstExpression)
        decreases expression_height(*expression), 1int,
    {
        match &expression.kind {
            AstExpressionKind::Number(number) => {
                self.visit_number(number);
            },
            AstExpressionKind::Binary(expr) => {
                self.visit_binary_expression(expr);
            },
            AstExpressionKind::Parenthesized(expr) => {
                self.visit_parenthesized_expression(expr);
            },
            AstExpressionKind::Error(span) => self.visit_error(span),
            AstExpressionKind::Variable(variable) => self.visit_variable(variable),
        }
    }

    fn visit_expression(&mut self, expression: &AstExpression)
        decreases expression_height(*expression), 2int,
    {
        self.do_visit_expression(expression);
    }

    /// The evaluator has no way to evaluate an assignment: it accepts none,
    /// so this is never reached from verified code.
    fn visit_assign_statement(&mut self, _statement: &AstAssignStatement) {
        vstd::pervasive::unreached()
    }

    fn visit_number(&mut self, number: &AstNumberExpression) {
        self.last_value = Some(number.number);
    }

    /// The evaluator has no way to evaluate a variable: it accepts none, so
    /// this is never reached from verified code.
    fn visit_variable(&mut self, _variable: &AstVariableExpression) {
        vstd::pervasive::unreached()
    }

    /// The evaluator has no way to evaluate an error node: it accepts none,
    /// so this is never reached from verified code.
    fn visit_error(&mut self, _span: &Span) {
        vstd::pervasive::unreached()
    }

    fn visit_binary_expression(&mut self, expr: &AstBinaryExpression)
        decreases node_height(AstNode::Binary(*expr)), 0int,
    {
        assert(binary_value(*expr) is Some);
        assert(expression_value(*expr.left) is Some && expression_value(*expr.right) is Some);
        self.visit_expression(&expr.left);
        let left = self.last_value.unwrap();
        self.visit_expression(&expr.right);
        let right = self.last_value.unwrap();
        assert(apply(expr.operator.kind, left as int, right as int) == binary_value(*expr));
        proof {
            if divisible(left as int, right as int) {
                lemma_division_fits(left as int, right as int);
            }
        }
        self.last_value = Some(
            match expr.operator.kind {
                AstBinaryOperatorKind::Plus => left + right,
                AstBinaryOperatorKind::Minus => left - right,
                AstBinaryOperatorKind::Multiply => left * right,
                AstBinaryOperatorKind::Divide => left / right,
                AstBinaryOperatorKind::Mod => left % right,
            },
        );
    }

    fn visit_parenthesized_expression(
        &mut self,
        parenthesized_expression: &AstParenthesizedExpression,
    )
        decreases node_height(AstNode::Parenthesized(*parenthesized_expression)), 0int,
    {
        self.visit_expression(&parenthesized_expression.expression);
    }
}

/// After a walk over a tree the evaluator holds the value of the last
/// statement; a walk over an empty tree leaves it as it was.
pub proof fn lemma_walk_keeps_last_value(
    before: AstEvaluator,
    statements: Seq<AstStatement>,
    after: AstEvaluator,
)
    requires
        visited_all(before, statements, after),
    ensures
        statements.len() == 0 ==> after == before,
        statements.len() > 0 ==> after.last_value is Some && node_value(
            AstNode::Statement(statements.last()),
        ) == Some(after.last_value->0 as int),
{
}

} // verus!

use vstd::prelude::*;
use vstd::string::StringSliceAdditionalSpecFns;
use crate::ast::lexer::{token_views, tokenize, tokens_of, unknowns_of, Token, TokenKind};
use crate::ast::{
    AstBinaryOperator, AstBinaryOperatorKind, AstExpression, AstExpressionKind, AstStatement,
    AstStatementKind,
};
use crate::text::span::{Span, SpanView};
use crate::diagnostics::{
    error_at, expected_expression_message, unexpected_token_message, DiagnosticBag,
    DiagnosticView,
};

verus! {

/// A counter that only moves up.
#[derive(Debug)]
pub struct Counter {
    value: usize,
}

impl Counter {
    /// The count so far.
    pub closed spec fn count(&self) -> usize {
        self.value
    }

    pub fn new() -> (counter: Self)
        ensures
            counter.count() == 0,
    {
        Self { value: 0 }
    }

    pub fn increment(&mut self)
        requires
            old(self).count() < usize::MAX,
        ensures
            final(self).count() == old(self).count() + 1,
    {
        self.value = self.value + 1;
    }

    pub fn get_value(&self) -> (value: usize)
        ensures
            value == self.count(),
    {
        self.value
    }
}

/// A token sequence is well formed when it is not empty and ends with the
/// end token.
pub open spec fn well_formed(tokens: Seq<Token>) -> bool {
    tokens.len() > 0 && tokens.last().kind is EOF
}

/// The token that a cursor at `pos` looks at: behind the last token it keeps
/// looking at the last one.
pub open spec fn current_at(tokens: Seq<Token>, pos: int) -> Token {
    if 0 <= pos < tokens.len() {
        tokens[pos]
    } else {
        tokens.last()
    }
}

/// The cursor after it has consumed the token at `pos`.
pub open spec fn step(tokens: Seq<Token>, pos: int) -> int {
    if pos < tokens.len() {
        pos + 1
    } else {
        pos
    }
}

/// The binary operator that a token kind denotes, if any.
pub open spec fn operator_kind(kind: TokenKind) -> Option<AstBinaryOperatorKind> {
    match kind {
        TokenKind::OpAddition => Some(AstBinaryOperatorKind::Plus),
        TokenKind::OpSubtraction => Some(AstBinaryOperatorKind::Minus),
        TokenKind::OpMultiplication => Some(AstBinaryOperatorKind::Multiply),
        TokenKind::OpDivision => Some(AstBinaryOperatorKind::Divide),
        TokenKind::OpPercent => Some(AstBinaryOperatorKind::Mod),
        _ => None,
    }
}

/// What is reported when `expected` is required and `found` is consumed:
/// nothing where the kinds agree, one unexpected-token error otherwise.
pub open spec fn mismatch(expected: TokenKind, found: Token) -> Seq<DiagnosticView> {
    if found.kind@ == expected@ {
        Seq::empty()
    } else {
        seq![error_at(unexpected_token_message(expected@, found.kind@), found.span@)]
    }
}

/// Result of parsing an expression: the tree, the cursor behind it, and what
/// was reported on the way.
pub struct Parsed {
    pub expression: AstExpression,
    pub pos: int,
    pub reports: Seq<DiagnosticView>,
}

/// Result of parsing a statement.
pub struct ParsedStatement {
    pub statement: AstStatement,
    pub pos: int,
    pub reports: Seq<DiagnosticView>,
}

/// The placeholder for a token that starts no expression: an error node with
/// the token's span, one expected-expression error, the token consumed.
pub open spec fn error_primary(tokens: Seq<Token>, pos: int) -> Parsed {
    let token = current_at(tokens, pos);
    Parsed {
        expression: AstExpression::error(token.span),
        pos: step(tokens, pos),
        reports: seq![error_at(expected_expression_message(token.kind@), token.span@)],
    }
}

/// A primary expression at `pos`: an integer literal, a parenthesized
/// expression whose closing parenthesis is required, or the placeholder.
pub open spec fn primary_at(tokens: Seq<Token>, pos: int) -> Parsed
    decreases tokens.len() - pos, 0int,
{
    let token = current_at(tokens, pos);
    match token.kind {
        TokenKind::LiteralInteger(number) => Parsed {
            expression: AstExpression::number(number),
            pos: step(tokens, pos),
            reports: Seq::empty(),
        },
        TokenKind::LeftParen => if 0 <= pos && pos + 1 < tokens.len() {
            let inner = binary_at(tokens, pos + 1, 0);
            Parsed {
                expression: AstExpression::parenthesized(inner.expression),
                pos: step(tokens, inner.pos),
                reports: inner.reports + mismatch(
                    TokenKind::RightParen,
                    current_at(tokens, inner.pos),
                ),
            }
        } else {
            error_primary(tokens, pos)
        },
        _ => error_primary(tokens, pos),
    }
}

/// A binary expression at `pos` whose operators bind at least as strongly as
/// `precedence`: a primary expression, then operators and right operands as
/// far as they go.
pub open spec fn binary_at(tokens: Seq<Token>, pos: int, precedence: u8) -> Parsed
    decreases tokens.len() - pos, 2int,
{
    let left = primary_at(tokens, pos);
    if left.pos < pos || left.pos > tokens.len() {
        left
    } else {
        climb(tokens, precedence, left)
    }
}

/// Extends `left` by the operators that follow it. An operator that binds at
/// least as strongly as `precedence` is consumed, its right operand is parsed
/// at the operator's own precedence, and the two become the new left operand.
/// Any other token ends the expression.
pub open spec fn climb(tokens: Seq<Token>, precedence: u8, left: Parsed) -> Parsed
    decreases tokens.len() - left.pos, 1int,
{
    let token = current_at(tokens, left.pos);
    match operator_kind(token.kind) {
        None => left,
        Some(kind) => if kind.precedence() < precedence || left.pos < 0 || left.pos + 1
            >= tokens.len() {
            left
        } else {
            let right = binary_at(tokens, left.pos + 1, kind.precedence());
            if right.pos <= left.pos || right.pos > tokens.len() {
                left
            } else {
                climb(
                    tokens,
                    precedence,
                    Parsed {
                        expression: AstExpression::binary(
                            AstBinaryOperator { kind, token },
                            left.expression,
                            right.expression,
                        ),
                        pos: right.pos,
                        reports: left.reports + right.reports,
                    },
                )
            }
        },
    }
}

/// The statement at `pos`. An identifier starts an assignment: the
/// identifier, `:=`, an expression, `;`, each required token consumed and
/// reported where it is not the one required. Anything else starts a bare
/// expression.
pub open spec fn statement_at(tokens: Seq<Token>, pos: int) -> ParsedStatement {
    let token = current_at(tokens, pos);
    if token.kind is Identifier {
        let assign = step(tokens, pos);
        let value = binary_at(tokens, step(tokens, assign), 0);
        ParsedStatement {
            statement: AstStatement {
                kind: crate::ast::AstStatementKind::AssignStatement(
                    crate::ast::AstAssignStatement {
                        identifier: token,
                        initializer: value.expression,
                    },
                ),
            },
            pos: step(tokens, value.pos),
            reports: mismatch(TokenKind::OpAssign, current_at(tokens, assign)) + value.reports
                + mismatch(TokenKind::Semicolon, current_at(tokens, value.pos)),
        }
    } else {
        let value = binary_at(tokens, pos, 0);
        ParsedStatement {
            statement: AstStatement {
                kind: crate::ast::AstStatementKind::Expression(value.expression),
            },
            pos: value.pos,
            reports: value.reports,
        }
    }
}

/// The cursor looks at the end token: nothing is left to parse.
pub open spec fn at_end(tokens: Seq<Token>, pos: int) -> bool {
    current_at(tokens, pos).kind is EOF
}

/// Parsing an expression never moves the cursor back or out of the token
/// sequence, and moves it forward wherever a token is left.
pub proof fn lemma_expression_advances(tokens: Seq<Token>, pos: int, precedence: u8)
    requires
        well_formed(tokens),
        0 <= pos <= tokens.len(),
    ensures
        pos <= binary_at(tokens, pos, precedence).pos <= tokens.len(),
        pos < tokens.len() ==> pos < binary_at(tokens, pos, precedence).pos,
        pos <= primary_at(tokens, pos).pos <= tokens.len(),
        pos < tokens.len() ==> pos < primary_at(tokens, pos).pos,
    decreases tokens.len() - pos, 2int,
{
    lemma_primary_advances(tokens, pos);
    lemma_climb_advances(tokens, precedence, primary_at(tokens, pos));
}

proof fn lemma_primary_advances(tokens: Seq<Token>, pos: int)
    requires
        well_formed(tokens),
        0 <= pos <= tokens.len(),
    ensures
        pos <= primary_at(tokens, pos).pos <= tokens.len(),
        pos < tokens.len() ==> pos < primary_at(tokens, pos).pos,
    decreases tokens.len() - pos, 0int,
{
    if current_at(tokens, pos).kind is LeftParen && pos + 1 < tokens.len() {
        lemma_expression_advances(tokens, pos + 1, 0);
    }
}

proof fn lemma_climb_advances(tokens: Seq<Token>, precedence: u8, left: Parsed)
    requires
        well_formed(tokens),
        0 <= left.pos <= tokens.len(),
    ensures
        left.pos <= climb(tokens, precedence, left).pos <= tokens.len(),
    decreases tokens.len() - left.pos, 1int,
{
    let token = current_at(tokens, left.pos);
    match operator_kind(token.kind) {
        None => {},
        Some(kind) => {
            if !(kind.precedence() < precedence || left.pos + 1 >= tokens.len()) {
                lemma_expression_advances(tokens, left.pos + 1, kind.precedence());
                let right = binary_at(tokens, left.pos + 1, kind.precedence());
                lemma_climb_advances(
                    tokens,
                    precedence,
                    Parsed {
                        expression: AstExpression::binary(
                            AstBinaryOperator { kind, token },
                            left.expression,
                            right.expression,
                        ),
                        pos: right.pos,
                        reports: left.reports + right.reports,
                    },
                );
            }
        },
    }
}

/// A pull parser: a token sequence and a cursor into it that never moves
/// back.
#[derive(Debug)]
pub struct Parser {
    tokens: Vec<Token>,
    current: Counter,
}

impl Parser {
    /// The tokens that the parser reads.
    pub closed spec fn tokens(&self) -> Seq<Token> {
        self.tokens@
    }

    /// The cursor: how many tokens have been consumed.
    pub closed spec fn position(&self) -> int {
        self.current.count() as int
    }

    /// The tokens are well formed and the cursor is within them or just
    /// behind them.
    pub open spec fn wf(&self) -> bool {
        well_formed(self.tokens()) && 0 <= self.position() <= self.tokens().len()
    }

    /// `self` is what `before` becomes by parsing up to `pos`.
    pub open spec fn follows(&self, before: &Parser, pos: int) -> bool {
        self.wf() && self.tokens() == before.tokens() && self.position() == pos
    }

    /// A parser without tokens. It is not well formed: it cannot parse.
    pub fn new() -> (parser: Self)
        ensures
            parser.tokens() == Seq::<Token>::empty(),
            parser.position() == 0,
    {
        Self { tokens: Vec::new(), current: Counter::new() }
    }

    /// Tokenizes `source`, reporting unknown text to `bag`, and sets the
    /// cursor on the first token.
    pub fn from_input(source: &str, bag: &mut DiagnosticBag) -> (parser: Self)
        ensures
            parser.wf(),
            parser.position() == 0,
            token_views(parser.tokens()) == tokens_of(source.spec_bytes()),
            final(bag)@ == old(bag)@ + unknowns_of(source.spec_bytes()),
    {
        let tokens = tokenize(source, bag);
        Self { tokens, current: Counter::new() }
    }

    /// Parses the next statement, or says that none is left.
    ///
    /// At the end token nothing is consumed or reported and the result is
    /// `None`, now and at every later call. Elsewhere the result is the
    /// statement at the cursor, the cursor moves behind it, and what the
    /// statement reports is appended to `bag`.
    pub fn next_statement(&mut self, bag: &mut DiagnosticBag) -> (statement: Option<AstStatement>)
        requires
            old(self).wf(),
        ensures
            final(self).wf(),
            final(self).tokens() == old(self).tokens(),
            match statement {
                None => at_end(old(self).tokens(), old(self).position()) && final(self).position()
                    == old(self).position() && final(bag)@ == old(bag)@,
                Some(statement) => {
                    let parsed = statement_at(old(self).tokens(), old(self).position());
                    &&& !at_end(old(self).tokens(), old(self).position())
                    &&& statement == parsed.statement
                    &&& final(self).position() == parsed.pos
                    &&& final(bag)@ == old(bag)@ + parsed.reports
                    &&& old(self).position() < final(self).position()
                    &&& errors_reported(statement_expression(statement), parsed.reports)
                },
            },
    {
        if self.is_at_end() {
            return None;
        }
        proof {
            lemma_statement_errors_are_reported(self.tokens(), self.position());
        }
        Some(self.parse_statement(bag))
    }

    fn is_at_end(&self) -> (end: bool)
        requires
            self.wf(),
        ensures
            end == at_end(self.tokens(), self.position()),
    {
        self.current().kind == TokenKind::EOF
    }

    fn parse_statement(&mut self, bag: &mut DiagnosticBag) -> (statement: AstStatement)
        requires
            old(self).wf(),
            !at_end(old(self).tokens(), old(self).position()),
        ensures
            final(self).follows(old(self), statement_at(old(self).tokens(), old(self).position()).pos),
            statement == statement_at(old(self).tokens(), old(self).position()).statement,
            final(bag)@ == old(bag)@ + statement_at(
                old(self).tokens(),
                old(self).position(),
            ).reports,
            old(self).position() < final(self).position(),
    {
        let name = match &self.current().kind {
            TokenKind::Identifier(name) => Some(name.clone()),
            _ => None,
        };
        match name {
            Some(name) => self.parse_assign_statement(bag, name),
            None => self.parse_expression_statement(bag),
        }
    }

    fn parse_assign_statement(&mut self, bag: &mut DiagnosticBag, name: String) -> (statement:
        AstStatement)
        requires
            old(self).wf(),
            current_at(old(self).tokens(), old(self).position()).kind == TokenKind::Identifier(
                name,
            ),
        ensures
            final(self).follows(old(self), statement_at(old(self).tokens(), old(self).position()).pos),
            statement == statement_at(old(self).tokens(), old(self).position()).statement,
            final(bag)@ == old(bag)@ + statement_at(
                old(self).tokens(),
                old(self).position(),
            ).reports,
            old(self).position() < final(self).position(),
    {
        let ghost tokens = self.tokens();
        let ghost start = self.position();
        let ghost reported = bag@;
        let identifier = self.consume_and_check(bag, TokenKind::Identifier(name));
        let ghost assign = self.position();
        self.consume_and_check(bag, TokenKind::OpAssign);
        let ghost first = mismatch(TokenKind::OpAssign, current_at(tokens, assign));
        proof {
            assert(bag@ =~= reported + first);
            lemma_expression_advances(tokens, self.position(), 0);
        }
        let expr = self.parse_expression(bag);
        let ghost value = binary_at(tokens, step(tokens, assign), 0);
        self.consume_and_check(bag, TokenKind::Semicolon);
        proof {
            assert(bag@ =~= reported + (first + value.reports + mismatch(
                TokenKind::Semicolon,
                current_at(tokens, value.pos),
            )));
        }
        AstStatement::assign_statement(identifier, expr)
    }

    fn parse_expression_statement(&mut self, bag: &mut DiagnosticBag) -> (statement: AstStatement)
        requires
            old(self).wf(),
            !at_end(old(self).tokens(), old(self).position()),
            !(current_at(old(self).tokens(), old(self).position()).kind is Identifier),
        ensures
            final(self).follows(old(self), statement_at(old(self).tokens(), old(self).position()).pos),
            statement == statement_at(old(self).tokens(), old(self).position()).statement,
            final(bag)@ == old(bag)@ + statement_at(
                old(self).tokens(),
                old(self).position(),
            ).reports,
            old(self).position() < final(self).position(),
    {
        proof {
            lemma_expression_advances(self.tokens(), self.position(), 0);
        }
        let expr = self.parse_expression(bag);
        AstStatement::expression(expr)
    }

    fn parse_expression(&mut self, bag: &mut DiagnosticBag) -> (expression: AstExpression)
        requires
            old(self).wf(),
        ensures
            final(self).follows(old(self), binary_at(old(self).tokens(), old(self).position(), 0).pos),
            expression == binary_at(old(self).tokens(), old(self).position(), 0).expression,
            final(bag)@ == old(bag)@ + binary_at(
                old(self).tokens(),
                old(self).position(),
                0,
            ).reports,
        decreases old(self).tokens().len() - old(self).position(), 3int,
    {
        return self.parse_binary_expression(bag, 0);
    }

    fn parse_binary_expression(&mut self, bag: &mut DiagnosticBag, precedence: u8) -> (expression:
        AstExpression)
        requires
            old(self).wf(),
        ensures
            final(self).follows(
                old(self),
                binary_at(old(self).tokens(), old(self).position(), precedence).pos,
            ),
            expression == binary_at(
                old(self).tokens(),
                old(self).position(),
                precedence,
            ).expression,
            final(bag)@ == old(bag)@ + binary_at(
                old(self).tokens(),
                old(self).position(),
                precedence,
            ).reports,
        decreases old(self).tokens().len() - old(self).position(), 2int,
    {
        let ghost tokens = self.tokens();
        let ghost start = self.position();
        let ghost goal = binary_at(tokens, start, precedence);
        let mut left = self.parse_primary_expression(bag);
        let ghost done = primary_at(tokens, start).reports;
        proof {
            lemma_expression_advances(tokens, start, precedence);
        }
        loop
            invariant_except_break
                climb(
                    tokens,
                    precedence,
                    Parsed { expression: left, pos: self.position(), reports: done },
                ) == goal,
            invariant
                self.wf(),
                self.tokens() == tokens,
                tokens == old(self).tokens(),
                start == old(self).position(),
                well_formed(tokens),
                start <= self.position(),
                start < tokens.len() ==> start < self.position(),
                bag@ == old(bag)@ + done,
            ensures
                (Parsed { expression: left, pos: self.position(), reports: done }) == goal,
            decreases tokens.len() - self.position(),
        {
            let ghost here = self.position();
            let ghost before = Parsed { expression: left, pos: here, reports: done };
            match self.parse_binary_operator() {
                None => {
                    break;
                },
                Some(operator) => {
                    let operator_precedence = operator.precedence();
                    if operator_precedence < precedence {
                        break;
                    }
                    self.consume();
                    proof {
                        lemma_expression_advances(tokens, here + 1, operator_precedence);
                    }
                    let right = self.parse_binary_expression(bag, operator_precedence);
                    proof {
                        let parsed = binary_at(tokens, here + 1, operator_precedence);
                        assert(bag@ =~= old(bag)@ + (done + parsed.reports));
                        done = done + parsed.reports;
                    }
                    left = AstExpression::binary(operator, left, right);
                },
            }
        }
        left
    }

    fn parse_binary_operator(&self) -> (operator: Option<AstBinaryOperator>)
        requires
            self.wf(),
        ensures
            match operator {
                None => operator_kind(current_at(self.tokens(), self.position()).kind) is None,
                Some(operator) => operator_kind(current_at(self.tokens(), self.position()).kind)
                    == Some(operator.kind) && operator.token == current_at(
                    self.tokens(),
                    self.position(),
                ),
            },
    {
        let token = self.current();
        let kind = match token.kind {
            TokenKind::OpAddition => AstBinaryOperatorKind::Plus,
            TokenKind::OpSubtraction => AstBinaryOperatorKind::Minus,
            TokenKind::OpMultiplication => AstBinaryOperatorKind::Multiply,
            TokenKind::OpDivision => AstBinaryOperatorKind::Divide,
            TokenKind::OpPercent => AstBinaryOperatorKind::Mod,
            _ => {
                return None;
            },
        };
        Some(AstBinaryOperator::new(kind, token.clone()))
    }

    fn parse_primary_expression(&mut self, bag: &mut DiagnosticBag) -> (expression: AstExpression)
        requires
            old(self).wf(),
        ensures
            final(self).follows(old(self), primary_at(old(self).tokens(), old(self).position()).pos),
            expression == primary_at(old(self).tokens(), old(self).position()).expression,
            final(bag)@ == old(bag)@ + primary_at(
                old(self).tokens(),
                old(self).position(),
            ).reports,
        decreases old(self).tokens().len() - old(self).position(), 0int,
    {
        let ghost tokens = self.tokens();
        let ghost start = self.position();
        let token = self.consume();
        match &token.kind {
            TokenKind::LiteralInteger(number) => {
                assert(bag@ =~= old(bag)@ + Seq::<DiagnosticView>::empty());
                AstExpression::number(*number)
            },
            TokenKind::LeftParen => {
                let expr = self.parse_expression(bag);
                let ghost inner = binary_at(tokens, start + 1, 0);
                self.consume_and_check(bag, TokenKind::RightParen);
                proof {
                    assert(bag@ =~= old(bag)@ + (inner.reports + mismatch(
                        TokenKind::RightParen,
                        current_at(tokens, inner.pos),
                    )));
                }
                AstExpression::parenthesized(expr)
            },
            _ => {
                bag.report_expected_expression(&token);
                proof {
                    assert(bag@ =~= old(bag)@ + error_primary(tokens, start).reports);
                }
                AstExpression::error(token.span.clone())
            },
        }
    }

    /// The token `offset` places from the cursor; outside the sequence, the
    /// last token.
    fn peek(&self, offset: isize) -> (token: &Token)
        requires
            self.wf(),
        ensures
            *token == current_at(self.tokens(), self.position() + offset),
    {
        let len = self.tokens.len();
        let cursor = self.current.get_value();
        let index = if offset >= 0 {
            let forward = offset as usize;
            if forward < len && cursor < len - forward {
                cursor + forward
            } else {
                len - 1
            }
        } else {
            let back = (-(offset + 1)) as usize;
            if back < cursor && cursor - back - 1 < len {
                cursor - back - 1
            } else {
                len - 1
            }
        };
        &self.tokens[index]
    }

    fn current(&self) -> (token: &Token)
        requires
            self.wf(),
        ensures
            *token == current_at(self.tokens(), self.position()),
    {
        self.peek(0)
    }

    /// Moves the cursor over the current token and hands the token out.
    fn consume(&mut self) -> (token: Token)
        requires
            old(self).wf(),
        ensures
            final(self).follows(old(self), step(old(self).tokens(), old(self).position())),
            token == current_at(old(self).tokens(), old(self).position()),
    {
        if self.current.get_value() < self.tokens.len() {
            self.current.increment();
        }
        self.peek(-1).clone()
    }

    /// Consumes the current token whatever it is, and reports it where it is
    /// not of the kind required.
    fn consume_and_check(&mut self, bag: &mut DiagnosticBag, kind: TokenKind) -> (token: Token)
        requires
            old(self).wf(),
        ensures
            final(self).follows(old(self), step(old(self).tokens(), old(self).position())),
            token == current_at(old(self).tokens(), old(self).position()),
            final(bag)@ == old(bag)@ + mismatch(kind, token),
    {
        let token = self.consume();
        if token.kind != kind {
            bag.report_unexpected_token(&kind, &token);
        }
        assert(bag@ =~= old(bag)@ + mismatch(kind, token));
        token
    }
}

/// `expression` holds an error node with the span `span`.
pub open spec fn holds_error(expression: AstExpression, span: Span) -> bool
    decreases expression,
{
    match expression.kind {
        AstExpressionKind::Error(at) => at == span,
        AstExpressionKind::Binary(binary) => holds_error(*binary.left, span) || holds_error(
            *binary.right,
            span,
        ),
        AstExpressionKind::Parenthesized(inner) => holds_error(*inner.expression, span),
        _ => false,
    }
}

/// One of the diagnostics stands at `span`.
pub open spec fn reported_at(reports: Seq<DiagnosticView>, span: SpanView) -> bool {
    exists|i: int| 0 <= i < reports.len() && (#[trigger] reports[i]).span == span
}

/// Every error node of the expression has a diagnostic at its span.
pub open spec fn errors_reported(expression: AstExpression, reports: Seq<DiagnosticView>) -> bool {
    forall|span: Span| #[trigger] holds_error(expression, span) ==> reported_at(reports, span@)
}

/// The expression of a statement: what it evaluates or assigns.
pub open spec fn statement_expression(statement: AstStatement) -> AstExpression {
    match statement.kind {
        AstStatementKind::Expression(expression) => expression,
        AstStatementKind::AssignStatement(assign) => assign.initializer,
    }
}

proof fn lemma_reported_in_parts(
    first: Seq<DiagnosticView>,
    second: Seq<DiagnosticView>,
    span: SpanView,
)
    requires
        reported_at(first, span) || reported_at(second, span),
    ensures
        reported_at(first + second, span),
{
    if reported_at(first, span) {
        let i = choose|i: int| 0 <= i < first.len() && (#[trigger] first[i]).span == span;
        assert((first + second)[i] == first[i]);
    } else {
        let i = choose|i: int| 0 <= i < second.len() && (#[trigger] second[i]).span == span;
        assert((first + second)[first.len() + i] == second[i]);
    }
}

/// Every error node that the parser puts into an expression comes with a
/// diagnostic at the same span.
pub proof fn lemma_error_nodes_are_reported(tokens: Seq<Token>, pos: int, precedence: u8)
    requires
        well_formed(tokens),
        0 <= pos <= tokens.len(),
    ensures
        errors_reported(
            binary_at(tokens, pos, precedence).expression,
            binary_at(tokens, pos, precedence).reports,
        ),
    decreases tokens.len() - pos, 2int,
{
    lemma_primary_errors_are_reported(tokens, pos);
    lemma_expression_advances(tokens, pos, precedence);
    lemma_climb_errors_are_reported(tokens, precedence, primary_at(tokens, pos));
}

proof fn lemma_primary_errors_are_reported(tokens: Seq<Token>, pos: int)
    requires
        well_formed(tokens),
        0 <= pos <= tokens.len(),
    ensures
        errors_reported(primary_at(tokens, pos).expression, primary_at(tokens, pos).reports),
    decreases tokens.len() - pos, 0int,
{
    let token = current_at(tokens, pos);
    let parsed = primary_at(tokens, pos);
    if token.kind is LiteralInteger {
    } else if token.kind is LeftParen && pos + 1 < tokens.len() {
        lemma_error_nodes_are_reported(tokens, pos + 1, 0);
        let inner = binary_at(tokens, pos + 1, 0);
        let check = mismatch(TokenKind::RightParen, current_at(tokens, inner.pos));
        assert forall|span: Span| #[trigger]
            holds_error(parsed.expression, span) implies reported_at(parsed.reports, span@) by {
            assert(holds_error(inner.expression, span));
            lemma_reported_in_parts(inner.reports, check, span@);
        }
    } else {
        assert(parsed == error_primary(tokens, pos));
        assert forall|span: Span| #[trigger]
            holds_error(parsed.expression, span) implies reported_at(parsed.reports, span@) by {
            assert(parsed.reports[0].span == span@);
        }
    }
}

proof fn lemma_climb_errors_are_reported(tokens: Seq<Token>, precedence: u8, left: Parsed)
    requires
        well_formed(tokens),
        0 <= left.pos <= tokens.len(),
        errors_reported(left.expression, left.reports),
    ensures
        errors_reported(
            climb(tokens, precedence, left).expression,
            climb(tokens, precedence, left).reports,
        ),
    decreases tokens.len() - left.pos, 1int,
{
    let token = current_at(tokens, left.pos);
    match operator_kind(token.kind) {
        None => {},
        Some(kind) => {
            if !(kind.precedence() < precedence || left.pos + 1 >= tokens.len()) {
                lemma_expression_advances(tokens, left.pos + 1, kind.precedence());
                lemma_error_nodes_are_reported(tokens, left.pos + 1, kind.precedence());
                let right = binary_at(tokens, left.pos + 1, kind.precedence());
                let joined = Parsed {
                    expression: AstExpression::binary(
                        AstBinaryOperator { kind, token },
                        left.expression,
                        right.expression,
                    ),
                    pos: right.pos,
                    reports: left.reports + right.reports,
                };
                assert forall|span: Span| #[trigger]
                    holds_error(joined.expression, span) implies reported_at(
                    joined.reports,
                    span@,
                ) by {
                    assert(holds_error(left.expression, span) || holds_error(
                        right.expression,
                        span,
                    ));
                    lemma_reported_in_parts(left.reports, right.reports, span@);
                }
                lemma_climb_errors_are_reported(tokens, precedence, joined);
            }
        },
    }
}

/// Every error node in the tree of a statement has at least one diagnostic,
/// among those that parsing the statement reports, whose span is the node's
/// span.
pub proof fn lemma_statement_errors_are_reported(tokens: Seq<Token>, pos: int)
    requires
        well_formed(tokens),
        0 <= pos <= tokens.len(),
    ensures
        errors_reported(
            statement_expression(statement_at(tokens, pos).statement),
            statement_at(tokens, pos).reports,
        ),
{
    let token = current_at(tokens, pos);
    let parsed = statement_at(tokens, pos);
    if token.kind is Identifier {
        let assign = step(tokens, pos);
        let from = step(tokens, assign);
        lemma_error_nodes_are_reported(tokens, from, 0);
        let value = binary_at(tokens, from, 0);
        let before = mismatch(TokenKind::OpAssign, current_at(tokens, assign));
        let behind = mismatch(TokenKind::Semicolon, current_at(tokens, value.pos));
        assert forall|span: Span| #[trigger]
            holds_error(value.expression, span) implies reported_at(parsed.reports, span@) by {
            lemma_reported_in_parts(before, value.reports, span@);
            lemma_reported_in_parts(before + value.reports, behind, span@);
        }
    } else {
        lemma_error_nodes_are_reported(tokens, pos, 0);
    }
}

/// A statement that is parsed where tokens are left moves the cursor
/// forward, and never out of the token sequence.
pub proof fn lemma_statement_advances(tokens: Seq<Token>, pos: int)
    requires
        well_formed(tokens),
        0 <= pos <= tokens.len(),
        !at_end(tokens, pos),
    ensures
        pos < statement_at(tokens, pos).pos <= tokens.len(),
{
    let token = current_at(tokens, pos);
    if token.kind is Identifier {
        let from = step(tokens, step(tokens, pos));
        lemma_expression_advances(tokens, from, 0);
    } else {
        lemma_expression_advances(tokens, pos, 0);
    }
}

/// Where the cursor stands after the given number of calls for the next
/// statement: each call parses one statement, and at the end token nothing.
pub open spec fn position_after(tokens: Seq<Token>, pos: int, calls: nat) -> int
    decreases calls,
{
    if calls == 0 {
        pos
    } else {
        let before = position_after(tokens, pos, (calls - 1) as nat);
        if at_end(tokens, before) {
            before
        } else {
            statement_at(tokens, before).pos
        }
    }
}

proof fn lemma_position_after(tokens: Seq<Token>, pos: int, calls: nat)
    requires
        well_formed(tokens),
        0 <= pos <= tokens.len(),
    ensures
        pos <= position_after(tokens, pos, calls) <= tokens.len(),
        at_end(tokens, position_after(tokens, pos, calls)) || pos + calls <= position_after(
            tokens,
            pos,
            calls,
        ),
    decreases calls,
{
    if calls > 0 {
        lemma_position_after(tokens, pos, (calls - 1) as nat);
        let before = position_after(tokens, pos, (calls - 1) as nat);
        if !at_end(tokens, before) {
            lemma_statement_advances(tokens, before);
        }
    }
}

/// Parsing always ends: on any well-formed token sequence, from any cursor,
/// the cursor stands at the end token after as many calls as tokens are
/// left, and every call from then on finds it there.
pub proof fn lemma_parsing_ends(tokens: Seq<Token>, pos: int, calls: nat)
    requires
        well_formed(tokens),
        0 <= pos <= tokens.len(),
        calls >= tokens.len() - pos,
    ensures
        at_end(tokens, position_after(tokens, pos, calls)),
    decreases calls,
{
    lemma_position_after(tokens, pos, calls);
}

} // verus!

use vstd::prelude::*;
use vstd::string::StringExecFns;
use crate::ast::visitor::{expression_height, node_height, visited_all, AstNode, AstVisitor};
use crate::ast::{
    Ast, AstAssignStatement, AstBinaryExpression, AstExpression, AstExpressionKind,
    AstNumberExpression, AstParenthesizedExpression, AstStatement, AstStatementKind,
    AstVariableExpression,
};
use crate::text::color::{is_painted, paint, Ink};
use crate::text::render::{decimal_string, decimal_text};
use crate::text::span::Span;

verus! {

/// `after` is `before` with something written behind it.
pub open spec fn extends(before: Seq<char>, after: Seq<char>) -> bool {
    before.len() <= after.len() && after.subrange(0, before.len() as int) == before
}

/// What `after` holds behind `before`.
pub open spec fn written(before: Seq<char>, after: Seq<char>) -> Seq<char> {
    after.subrange(before.len() as int, after.len() as int)
}

/// Writing `piece` behind `before` extends it by exactly `piece`.
pub proof fn lemma_written(before: Seq<char>, piece: Seq<char>)
    ensures
        extends(before, before + piece),
        written(before, before + piece) == piece,
{
    assert((before + piece).subrange(0, before.len() as int) =~= before);
    assert(written(before, before + piece) =~= piece);
}

/// The highlighted texts of an expression's leaves, in the shape of the
/// expression: what the colours made of each number, variable, operator and
/// error node.
pub enum Inked {
    /// A number, a variable or an error node.
    Leaf(Seq<char>),
    /// A binary expression: left operand, operator, right operand.
    Pair(Box<Inked>, Seq<char>, Box<Inked>),
    /// A parenthesized expression.
    Wrapped(Box<Inked>),
}

/// The text that the highlighted leaves make: a binary expression as its
/// left operand, a space, the operator, a space, its right operand; a
/// parenthesized expression between parentheses.
pub open spec fn layout(inked: Inked) -> Seq<char>
    decreases inked,
{
    match inked {
        Inked::Leaf(text) => text,
        Inked::Pair(left, sign, right) => layout(*left) + " "@ + sign + " "@ + layout(*right),
        Inked::Wrapped(inner) => "("@ + layout(*inner) + ")"@,
    }
}

/// `inked` highlights the leaves of `expression`: a number is its decimal
/// text in cyan, a variable its identifier's lexeme in green, an operator
/// its lexeme in white, an error node the text of its span in red.
pub open spec fn inks(expression: AstExpression, inked: Inked) -> bool
    decreases expression,
{
    match expression.kind {
        AstExpressionKind::Number(number) => inked matches Inked::Leaf(text) && is_painted(
            decimal_text(number.number as int),
            Ink::Cyan,
            text,
        ),
        AstExpressionKind::Binary(binary) => inked matches Inked::Pair(left, sign, right) && inks(
            *binary.left,
            *left,
        ) && is_painted(binary.operator.token.lexeme@, Ink::White, sign) && inks(
            *binary.right,
            *right,
        ),
        AstExpressionKind::Parenthesized(inner) => inked matches Inked::Wrapped(body) && inks(
            *inner.expression,
            *body,
        ),
        AstExpressionKind::Variable(variable) => inked matches Inked::Leaf(text) && is_painted(
            variable.identifier.lexeme@,
            Ink::Green,
            text,
        ),
        AstExpressionKind::Error(span) => inked matches Inked::Leaf(text) && is_painted(
            span.literal@,
            Ink::Red,
            text,
        ),
    }
}

/// `out` is the expression written out, its leaves highlighted.
pub open spec fn shows_expression(expression: AstExpression, out: Seq<char>) -> bool {
    exists|inked: Inked| #[trigger] inks(expression, inked) && out == layout(inked)
}

/// `out` is the assignment written out: the identifier in green, ` := `, the
/// initializer, `;`.
pub open spec fn shows_assign(assign: AstAssignStatement, out: Seq<char>) -> bool {
    exists|name: Seq<char>, value: Seq<char>|
        #![trigger is_painted(assign.identifier.lexeme@, Ink::Green, name), shows_expression(assign.initializer, value)]
        {
            &&& out == name + " "@ + ":="@ + " "@ + value + ";"@
            &&& is_painted(assign.identifier.lexeme@, Ink::Green, name)
            &&& shows_expression(assign.initializer, value)
        }
}

/// `out` is the statement written out, without the line end behind it.
pub open spec fn shows_statement_body(statement: AstStatement, out: Seq<char>) -> bool {
    match statement.kind {
        AstStatementKind::Expression(expression) => shows_expression(expression, out),
        AstStatementKind::AssignStatement(assign) => shows_assign(assign, out),
    }
}

/// `out` is the node written out. A statement ends its line.
pub open spec fn shows(node: AstNode, out: Seq<char>) -> bool {
    match node {
        AstNode::Statement(statement) => exists|body: Seq<char>|
            #![trigger shows_statement_body(statement, body)]
            out == body + "\n"@ && shows_statement_body(statement, body),
        AstNode::Expression(expression) => shows_expression(expression, out),
        AstNode::Assign(assign) => shows_assign(assign, out),
        AstNode::Binary(binary) => shows_expression(
            AstExpression { kind: AstExpressionKind::Binary(binary) },
            out,
        ),
        AstNode::Parenthesized(inner) => shows_expression(
            AstExpression { kind: AstExpressionKind::Parenthesized(inner) },
            out,
        ),
        AstNode::Variable(variable) => shows_expression(
            AstExpression { kind: AstExpressionKind::Variable(variable) },
            out,
        ),
        AstNode::Error(span) => shows_expression(
            AstExpression { kind: AstExpressionKind::Error(span) },
            out,
        ),
        AstNode::Number(number) => shows_expression(
            AstExpression { kind: AstExpressionKind::Number(number) },
            out,
        ),
    }
}

/// Writes a tree out as source text, one statement to a line, with colours.
pub struct AstPrinter {
    result: String,
}

impl AstPrinter {
    /// What has been written so far.
    pub closed spec fn text(&self) -> Seq<char> {
        self.result@
    }

    pub fn new() -> (printer: Self)
        ensures
            printer.text() == Seq::<char>::empty(),
    {
        Self { result: String::new() }
    }

    /// Hands out what has been written.
    pub fn finish(self) -> (text: String)
        ensures
            text@ == self.text(),
    {
        self.result
    }

    fn add(&mut self, piece: &str)
        ensures
            final(self).text() == old(self).text() + piece@,
    {
        self.result.append(piece);
    }

    fn add_whitespace(&mut self)
        ensures
            final(self).text() == old(self).text() + " "@,
    {
        self.result.append(" ")
    }

    fn add_newline(&mut self)
        ensures
            final(self).text() == old(self).text() + "\n"@,
    {
        self.result.append("\n")
    }
}

impl AstVisitor for AstPrinter {
    /// The printer visits every node.
    open spec fn accepts(node: AstNode) -> bool {
        true
    }

    /// A visit writes the node out behind what was written before.
    open spec fn visited(before: Self, node: AstNode, after: Self) -> bool {
        extends(before.text(), after.text()) && shows(node, written(before.text(), after.text()))
    }

    fn visit_statement(&mut self, statement: &AstStatement)
    {
        let ghost start = self.text();
        self.do_visit_statement(statement);
        let ghost body = written(start, self.text());
        proof {
            assert(self.text() =~= start + body);
        }
        self.add_newline();
        proof {
            assert(self.text() =~= start + (body + "\n"@));
            lemma_written(start, body + "\n"@);
            assert(shows_statement_body(*statement, body));
        }
    }

    /// The forwarding of the trait, written out once more: it lies on the
    /// recursion of the walk, and only an operation of the consumer itself
    /// can say by what measure the walk ends.
    fn do_visit_expression(&mut self, expression: &AstExpression)
        decreases expression_height(*expression), 1int,
    {
        match &expression.kind {
            AstExpressionKind::Number(number) => {
                self.visit_number(number);
            },
            AstExpressionKind::Binary(expr) => {
                self.visit_binary_expression(expr);
            },
            AstExpressionKind::Parenthesized(expr) => {
                self.visit_parenthesized_expression(expr);
            },
            AstExpressionKind::Error(span) => self.visit_error(span),
            AstExpressionKind::Variable(variable) => self.visit_variable(variable),
        }
    }

    fn visit_expression(&mut self, expression: &AstExpression)
        decreases expression_height(*expression), 2int,
    {
        self.do_visit_expression(expression);
    }

    fn visit_number(&mut self, number: &AstNumberExpression) {
        let painted = paint(decimal_string(number.number).as_str(), Ink::Cyan);
        self.add(painted.as_str());
        proof {
            lemma_written(old(self).text(), painted@);
            let whole = AstExpression { kind: AstExpressionKind::Number(*number) };
            assert(inks(whole, Inked::Leaf(painted@)));
            assert(layout(Inked::Leaf(painted@)) == painted@);
        }
    }

    fn visit_binary_expression(&mut self, binary_expression: &AstBinaryExpression)
        decreases node_height(AstNode::Binary(*binary_expression)), 0int,
    {
        let ghost start = self.text();
        self.visit_expression(&binary_expression.left);
        let ghost left = written(start, self.text());
        proof {
            assert(self.text() =~= start + left);
        }
        self.add_whitespace();
        let sign = paint(binary_expression.operator.token.lexeme.as_str(), Ink::White);
        self.add(sign.as_str());
        self.add_whitespace();
        let ghost middle = self.text();
        self.visit_expression(&binary_expression.right);
        let ghost right = written(middle, self.text());
        proof {
            assert(middle =~= start + left + " "@ + sign@ + " "@);
            assert(self.text() =~= middle + right);
            assert(self.text() =~= start + (left + " "@ + sign@ + " "@ + right));
            lemma_written(start, left + " "@ + sign@ + " "@ + right);
            let first = choose|inked: Inked|
                #[trigger] inks(*binary_expression.left, inked) && left == layout(inked);
            let second = choose|inked: Inked|
                #[trigger] inks(*binary_expression.right, inked) && right == layout(inked);
            let whole = AstExpression { kind: AstExpressionKind::Binary(*binary_expression) };
            let both = Inked::Pair(Box::new(first), sign@, Box::new(second));
            assert(inks(whole, both));
            assert(layout(both) == left + " "@ + sign@ + " "@ + right);
        }
    }

    fn visit_parenthesized_expression(
        &mut self,
        parenthesized_expression: &AstParenthesizedExpression,
    )
        decreases node_height(AstNode::Parenthesized(*parenthesized_expression)), 0int,
    {
        let ghost start = self.text();
        self.add("(");
        let ghost opened = self.text();
        self.visit_expression(&parenthesized_expression.expression);
        let ghost body = written(opened, self.text());
        proof {
            assert(self.text() =~= opened + body);
        }
        self.add(")");
        proof {
            assert(self.text() =~= start + ("("@ + body + ")"@));
            lemma_written(start, "("@ + body + ")"@);
            let inner = choose|inked: Inked|
                #[trigger] inks(*parenthesized_expression.expression, inked) && body == layout(
                    inked,
                );
            let whole = AstExpression {
                kind: AstExpressionKind::Parenthesized(*parenthesized_expression),
            };
            assert(inks(whole, Inked::Wrapped(Box::new(inner))));
            assert(layout(Inked::Wrapped(Box::new(inner))) == "("@ + body + ")"@);
        }
    }

    fn visit_variable(&mut self, variable: &AstVariableExpression) {
        let painted = paint(variable.identifier(), Ink::Green);
        self.add(painted.as_str());
        proof {
            lemma_written(old(self).text(), painted@);
            let whole = AstExpression { kind: AstExpressionKind::Variable(*variable) };
            assert(inks(whole, Inked::Leaf(painted@)));
            assert(layout(Inked::Leaf(painted@)) == painted@);
        }
    }

    fn visit_error(&mut self, span: &Span) {
        let painted = paint(span.literal.as_str(), Ink::Red);
        self.add(painted.as_str());
        proof {
            lemma_written(old(self).text(), painted@);
            let whole = AstExpression { kind: AstExpressionKind::Error(*span) };
            assert(inks(whole, Inked::Leaf(painted@)));
            assert(layout(Inked::Leaf(painted@)) == painted@);
        }
    }

    fn visit_assign_statement(&mut self, statement: &AstAssignStatement)
    {
        let ghost start = self.text();
        let name = paint(statement.identifier.lexeme.as_str(), Ink::Green);
        self.add(name.as_str());
        self.add_whitespace();
        self.add(":=");
        self.add_whitespace();
        let ghost middle = self.text();
        self.visit_expression(&statement.initializer);
        let ghost value = written(middle, self.text());
        proof {
            assert(self.text() =~= middle + value);
        }
        self.add(";");
        proof {
            assert(middle =~= start + name@ + " "@ + ":="@ + " "@);
            assert(self.text() =~= start + (name@ + " "@ + ":="@ + " "@ + value + ";"@));
            lemma_written(start, name@ + " "@ + ":="@ + " "@ + value + ";"@);
            assert(is_painted(statement.identifier.lexeme@, Ink::Green, name@));
            assert(shows_expression(statement.initializer, value));
        }
    }
}

impl Ast {
    /// Writes the whole tree out, one statement to a line.
    pub fn visualize(&self) -> (text: String)
        ensures
            exists|blank: AstPrinter, done: AstPrinter|
                {
                    &&& blank.text() == Seq::<char>::empty()
                    &&& #[trigger] visited_all(blank, self.statements@, done)
                    &&& done.text() == text@
                },
    {
        let mut printer = AstPrinter::new();
        let ghost blank = printer;
        self.visit(&mut printer);
        let ghost done = printer;
        assert(visited_all(blank, self.statements@, done));
        printer.finish()
    }
}

} // verus!

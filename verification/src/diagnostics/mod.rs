pub mod printer;

use vstd::prelude::*;
use vstd::string::StringExecFns;
use crate::ast::lexer::{Token, TokenKind, TokenKindView};
use crate::text::span::{Span, SpanView};

verus! {

#[derive(Debug, Clone, Copy, PartialEq, Eq, Structural)]
pub enum DiagnosticKind {
    Error,
    Warning,
}

/// Mathematical model of a [`Diagnostic`].
pub struct DiagnosticView {
    pub message: Seq<char>,
    pub span: SpanView,
    pub kind: DiagnosticKind,
}

/// One recorded problem: what went wrong, where, and how severe it is.
#[derive(Debug)]
pub struct Diagnostic {
    pub message: String,
    pub span: Span,
    pub kind: DiagnosticKind,
}

impl View for Diagnostic {
    type V = DiagnosticView;

    open spec fn view(&self) -> DiagnosticView {
        DiagnosticView { message: self.message@, span: self.span@, kind: self.kind }
    }
}

impl Diagnostic {
    pub fn new(message: String, span: Span, kind: DiagnosticKind) -> (diagnostic: Self)
        ensures
            diagnostic.message == message,
            diagnostic.span == span,
            diagnostic.kind == kind,
    {
        Self { message, span, kind }
    }
}

/// Message for a structural token that is missing or of the wrong kind.
pub open spec fn unexpected_token_message(expected: TokenKindView, found: TokenKindView) -> Seq<
    char,
> {
    "Expected <"@ + expected.debug_text() + ">, found <"@ + found.debug_text() + ">"@
}

/// Message for a token that cannot start an expression.
pub open spec fn expected_expression_message(found: TokenKindView) -> Seq<char> {
    "Expected expression, found <"@ + found.debug_text() + ">"@
}

/// Message for source text that no lexical rule matches.
pub open spec fn unknown_token_message(text: Seq<char>) -> Seq<char> {
    "Unknown token finded <"@ + text + ">"@
}

/// The error record with the given message at the given place.
pub open spec fn error_at(message: Seq<char>, span: SpanView) -> DiagnosticView {
    DiagnosticView { message, span, kind: DiagnosticKind::Error }
}

/// Append-only, ordered collection of diagnostics.
#[derive(Debug)]
pub struct DiagnosticBag {
    pub diagnostics: Vec<Diagnostic>,
}

impl View for DiagnosticBag {
    type V = Seq<DiagnosticView>;

    open spec fn view(&self) -> Seq<DiagnosticView> {
        self.diagnostics@.map_values(|d: Diagnostic| d@)
    }
}

impl DiagnosticBag {
    pub fn new() -> (bag: Self)
        ensures
            bag@ == Seq::<DiagnosticView>::empty(),
    {
        Self { diagnostics: Vec::new() }
    }

    /// Appends one record of the given severity and keeps all earlier ones.
    fn report(&mut self, message: String, span: Span, kind: DiagnosticKind)
        ensures
            final(self)@ == old(self)@.push(
                DiagnosticView { message: message@, span: span@, kind },
            ),
    {
        let ghost before = self.diagnostics@;
        let entry = Diagnostic::new(message, span, kind);
        self.diagnostics.push(entry);
        assert(self.diagnostics@ == before.push(entry));
        assert(self@ =~= old(self)@.push(entry@));
    }

    pub fn report_error(&mut self, message: String, span: Span)
        ensures
            final(self)@ == old(self)@.push(
                DiagnosticView { message: message@, span: span@, kind: DiagnosticKind::Error },
            ),
    {
        self.report(message, span, DiagnosticKind::Error);
    }

    pub fn report_warning(&mut self, message: String, span: Span)
        ensures
            final(self)@ == old(self)@.push(
                DiagnosticView { message: message@, span: span@, kind: DiagnosticKind::Warning },
            ),
    {
        self.report(message, span, DiagnosticKind::Warning);
    }

    /// Records that `expected` was required where the token `actual` stands.
    pub fn report_unexpected_token(&mut self, expected: &TokenKind, actual: &Token)
        ensures
            final(self)@ == old(self)@.push(
                error_at(unexpected_token_message(expected@, actual.kind@), actual.span@),
            ),
    {
        let mut message = String::from_str("Expected <");
        message.append(expected.debug_string().as_str());
        message.append(">, found <");
        message.append(actual.kind.debug_string().as_str());
        message.append(">");
        self.report_error(message, actual.span.clone());
    }

    /// Records that an expression was required where the token `actual` stands.
    pub fn report_expected_expression(&mut self, actual: &Token)
        ensures
            final(self)@ == old(self)@.push(
                error_at(expected_expression_message(actual.kind@), actual.span@),
            ),
    {
        let mut message = String::from_str("Expected expression, found <");
        message.append(actual.kind.debug_string().as_str());
        message.append(">");
        self.report_error(message, actual.span.clone());
    }

    /// Records that the source text `text` at `span` matches no lexical rule.
    pub fn report_unknown_token(&mut self, text: &str, span: Span)
        ensures
            final(self)@ == old(self)@.push(error_at(unknown_token_message(text@), span@)),
    {
        let mut message = String::from_str("Unknown token finded <");
        message.append(text);
        message.append(">");
        self.report_error(message, span);
    }
}

} // verus!

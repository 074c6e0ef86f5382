use vstd::prelude::*;
use vstd::string::{StringExecFns, StringSliceAdditionalSpecFns};
use vstd::utf8::*;
use crate::diagnostics::{Diagnostic, DiagnosticView};
use crate::text::color::{is_painted, paint, Ink};
use crate::text::render::{repeat_string, repeated};
use crate::text::slice::{cut, cut_at, lemma_cut, lemma_cut_monotone, lexeme_text, slice_str};
use crate::text::{lemma_line_holds_offset, line_end, line_of, start_of_line, SourceText};

verus! {

/// How many bytes of the line are shown before and behind the span, at most.
pub const PREFIX_LENGTH: usize = 80;

/// The three stretches of a line around a span: what stands before it, the
/// span itself, what stands behind it.
pub struct TextSpans {
    pub prefix: Seq<char>,
    pub span: Seq<char>,
    pub suffix: Seq<char>,
}

/// The stretches of `line` around the span that starts at byte `column` and
/// is `length` bytes long.
///
/// Every border is brought inside the line and back to where a character
/// starts. The prefix starts at most [`PREFIX_LENGTH`] bytes before the
/// column, the suffix ends at most as many bytes behind the span.
pub open spec fn text_spans(line: Seq<u8>, column: int, length: int) -> TextSpans {
    let prefix_start = cut(line, column - PREFIX_LENGTH);
    let prefix_end = cut(line, column);
    let suffix_start = cut(line, column + length);
    let suffix_end = cut(line, suffix_start + PREFIX_LENGTH);
    TextSpans {
        prefix: lexeme_text(line, prefix_start, prefix_end),
        span: lexeme_text(line, prefix_end, suffix_start),
        suffix: lexeme_text(line, suffix_start, suffix_end),
    }
}

/// How far the lines under the source line are indented: as far as the
/// column, but no further than [`PREFIX_LENGTH`].
pub open spec fn indent_of(column: int) -> nat {
    if column < PREFIX_LENGTH {
        column as nat
    } else {
        PREFIX_LENGTH as nat
    }
}

/// The line of carets: the indent, then one caret for each byte of the span.
pub open spec fn caret_line(indent: nat, length: nat) -> Seq<char> {
    repeated(' ', indent) + repeated('^', length)
}

/// Under a span of any length, at any column, the line of carets holds the
/// indent in spaces and then exactly one caret for each byte of the span.
pub proof fn lemma_caret_line(indent: nat, length: nat)
    ensures
        caret_line(indent, length).len() == indent + length,
        forall|i: int| 0 <= i < indent ==> caret_line(indent, length)[i] == ' ',
        forall|i: int| indent <= i < indent + length ==> caret_line(indent, length)[i] == '^',
{
}

/// The line that leads from the carets to the message.
pub open spec fn bar_line(indent: nat) -> Seq<char> {
    repeated(' ', indent) + "|"@
}

/// The line that holds the message.
pub open spec fn message_line(indent: nat, message: Seq<char>) -> Seq<char> {
    repeated(' ', indent) + "+-- "@ + message
}

/// The four lines of a report, put together.
pub open spec fn report_text(
    prefix: Seq<char>,
    highlighted: Seq<char>,
    suffix: Seq<char>,
    pointers: Seq<char>,
    line: Seq<char>,
    message: Seq<char>,
) -> Seq<char> {
    prefix + highlighted + suffix + "\n"@ + pointers + "\n"@ + line + "\n"@ + message
}

/// The line of the source that holds the start of the span.
pub open spec fn reported_line(source: Seq<u8>, start: int) -> Seq<u8> {
    let line_start = start_of_line(source, line_of(source, start));
    source.subrange(line_start, line_end(source, line_start))
}

/// The column of the span: how many bytes behind the start of its line it
/// starts.
pub open spec fn reported_column(source: Seq<u8>, start: int) -> int {
    start - start_of_line(source, line_of(source, start))
}

/// `out` is the report on `diagnostic` in a source text with the bytes
/// `source`: the line that holds the span with the span highlighted in red,
/// the carets under the span, the connecting line, and the message, the last
/// three indented alike.
pub open spec fn is_report(source: Seq<u8>, diagnostic: DiagnosticView, out: Seq<char>) -> bool {
    let column = reported_column(source, diagnostic.span.start);
    let length = diagnostic.span.end - diagnostic.span.start;
    let spans = text_spans(reported_line(source, diagnostic.span.start), column, length);
    let indent = indent_of(column);
    exists|highlighted: Seq<char>| #[trigger]
        is_painted(spans.span, Ink::Red, highlighted) && out == report_text(
            spans.prefix,
            highlighted,
            spans.suffix,
            caret_line(indent, length as nat),
            bar_line(indent),
            message_line(indent, diagnostic.message),
        )
}

/// `out` holds the reports on all the diagnostics, in order, each followed by
/// a line end.
pub open spec fn is_report_of_all(
    source: Seq<u8>,
    diagnostics: Seq<DiagnosticView>,
    out: Seq<char>,
) -> bool
    decreases diagnostics.len(),
{
    if diagnostics.len() == 0 {
        out == Seq::<char>::empty()
    } else {
        exists|before: Seq<char>, report: Seq<char>|
            {
                &&& is_report_of_all(source, diagnostics.drop_last(), before)
                &&& #[trigger] is_report(source, diagnostics.last(), report)
                &&& out == #[trigger] (before + report) + "\n"@
            }
    }
}

/// Puts the four lines of a report together.
pub fn assemble_report(
    prefix: &str,
    highlighted: &str,
    suffix: &str,
    pointers: &str,
    line: &str,
    message: &str,
) -> (report: String)
    ensures
        report@ == report_text(prefix@, highlighted@, suffix@, pointers@, line@, message@),
{
    let mut report = String::from_str(prefix);
    report.append(highlighted);
    report.append(suffix);
    report.append("\n");
    report.append(pointers);
    report.append("\n");
    report.append(line);
    report.append("\n");
    report.append(message);
    report
}

/// Renders diagnostics with the source line they point at.
pub struct DiagnosticsPrinter<'a> {
    text: &'a SourceText,
    diagnostics: &'a [Diagnostic],
}

impl<'a> DiagnosticsPrinter<'a> {
    /// The source text that the reports quote.
    pub closed spec fn source(&self) -> Seq<u8> {
        self.text.bytes()
    }

    /// The diagnostics to report.
    pub closed spec fn entries(&self) -> Seq<Diagnostic> {
        self.diagnostics@
    }

    pub fn new(text: &'a SourceText, diagnostics: &'a [Diagnostic]) -> (printer: Self)
        ensures
            printer.source() == text.bytes(),
            printer.entries() == diagnostics@,
    {
        Self { text, diagnostics }
    }

    /// The report on one diagnostic.
    pub fn stringify_diagnostic(&self, diagnostic: &Diagnostic) -> (report: String)
        requires
            diagnostic.span.wf(),
        ensures
            is_report(self.source(), diagnostic@, report@),
    {
        let line_index = self.text.line_index(diagnostic.span.start);
        let line = self.text.get_line(line_index);
        let line_start = self.text.line_start(line_index);
        proof {
            lemma_line_holds_offset(self.source(), diagnostic.span.start as int);
        }
        let column = diagnostic.span.start - line_start;
        let (prefix, span, suffix) = Self::get_text_spans(column, diagnostic, line);

        let indent = if PREFIX_LENGTH < column {
            PREFIX_LENGTH
        } else {
            column
        };
        let (arrow_pointers, arrow_line) = Self::format_arrow(diagnostic, indent);
        proof {
            reveal_strlit(" ");
        }
        let mut error_message = repeat_string(" ", indent);
        error_message.append("+-- ");
        error_message.append(diagnostic.message.as_str());
        let highlighted = paint(span, Ink::Red);
        let report = assemble_report(
            prefix,
            highlighted.as_str(),
            suffix,
            arrow_pointers.as_str(),
            arrow_line.as_str(),
            error_message.as_str(),
        );
        proof {
            let length = diagnostic.span.end - diagnostic.span.start;
            let spans = text_spans(line.spec_bytes(), column as int, length);
            assert(line.spec_bytes() == reported_line(self.source(), diagnostic@.span.start));
            assert(column == reported_column(self.source(), diagnostic@.span.start));
            assert(diagnostic@.span.end - diagnostic@.span.start == length);
            assert(is_painted(spans.span, Ink::Red, highlighted@));
        }
        report
    }

    /// The reports on all the diagnostics, one after the other, each followed
    /// by a line end.
    pub fn print(&self) -> (reports: String)
        requires
            forall|i: int| 0 <= i < self.entries().len() ==> (#[trigger] self.entries()[i]).span.wf(),
        ensures
            is_report_of_all(
                self.source(),
                self.entries().map_values(|d: Diagnostic| d@),
                reports@,
            ),
    {
        let ghost views = self.entries().map_values(|d: Diagnostic| d@);
        let mut reports = String::new();
        let mut i: usize = 0;
        while i < self.diagnostics.len()
            invariant
                i <= self.diagnostics@.len(),
                views == self.entries().map_values(|d: Diagnostic| d@),
                forall|i: int|
                    0 <= i < self.entries().len() ==> (#[trigger] self.entries()[i]).span.wf(),
                is_report_of_all(self.source(), views.take(i as int), reports@),
            decreases self.diagnostics@.len() - i,
        {
            let ghost before = reports@;
            let report = self.stringify_diagnostic(&self.diagnostics[i]);
            reports.append(report.as_str());
            reports.append("\n");
            proof {
                let done = views.take(i + 1);
                assert(done.drop_last() =~= views.take(i as int));
                assert(done.last() == self.diagnostics@[i as int]@);
                assert(is_report(self.source(), done.last(), report@));
                assert(reports@ == (before + report@) + "\n"@);
            }
            i += 1;
        }
        assert(views.take(i as int) =~= views);
        reports
    }

    /// Cuts the line into what stands before the span, the span, and what
    /// stands behind it.
    pub fn get_text_spans(column: usize, diagnostic: &Diagnostic, line: &'a str) -> (spans: (
        &'a str,
        &'a str,
        &'a str,
    ))
        requires
            diagnostic.span.wf(),
        ensures
            ({
                let expected = text_spans(
                    line.spec_bytes(),
                    column as int,
                    diagnostic.span.end - diagnostic.span.start,
                );
                &&& spans.0@ == expected.prefix
                &&& spans.1@ == expected.span
                &&& spans.2@ == expected.suffix
            }),
    {
        let ghost bytes = line.spec_bytes();
        let length = diagnostic.span.len();
        let limit = line.as_bytes().len();
        let before = if column > PREFIX_LENGTH {
            column - PREFIX_LENGTH
        } else {
            0
        };
        let behind = if length > usize::MAX - column {
            usize::MAX
        } else {
            column + length
        };
        proof {
            encode_utf8_valid_utf8(line@);
            lemma_cut(bytes, column as int + length as int);
            lemma_cut(bytes, behind as int);
            lemma_cut_monotone(bytes, column as int - PREFIX_LENGTH as int, column as int);
            lemma_cut_monotone(bytes, column as int, column as int + length as int);
            assert(cut(bytes, behind as int) == cut(bytes, column as int + length as int));
            assert(cut(bytes, before as int) == cut(bytes, column as int - PREFIX_LENGTH as int));
        }
        let prefix_start = cut_at(line, before);
        let prefix_end = cut_at(line, column);
        let suffix_start = cut_at(line, behind);
        let reach = if suffix_start > usize::MAX - PREFIX_LENGTH {
            usize::MAX
        } else {
            suffix_start + PREFIX_LENGTH
        };
        proof {
            lemma_cut(bytes, suffix_start as int + PREFIX_LENGTH as int);
            lemma_cut(bytes, reach as int);
            lemma_cut_monotone(
                bytes,
                suffix_start as int,
                suffix_start as int + PREFIX_LENGTH as int,
            );
            assert(cut(bytes, reach as int) == cut(
                bytes,
                suffix_start as int + PREFIX_LENGTH as int,
            ));
            lemma_cut(bytes, suffix_start as int);
        }
        let suffix_end = cut_at(line, reach);

        let prefix = slice_str(line, prefix_start, prefix_end);
        let span = slice_str(line, prefix_end, suffix_start);
        let suffix = slice_str(line, suffix_start, suffix_end);
        (prefix, span, suffix)
    }

    /// The line of carets under the span and the line that leads to the
    /// message, both indented by `indent`.
    pub fn format_arrow(diagnostic: &Diagnostic, indent: usize) -> (arrow: (String, String))
        requires
            diagnostic.span.wf(),
        ensures
            arrow.0@ == caret_line(
                indent as nat,
                (diagnostic.span.end - diagnostic.span.start) as nat,
            ),
            arrow.1@ == bar_line(indent as nat),
    {
        proof {
            reveal_strlit(" ");
            reveal_strlit("^");
        }
        let mut arrow_pointers = repeat_string(" ", indent);
        arrow_pointers.append(repeat_string("^", diagnostic.span.len()).as_str());
        let mut arrow_line = repeat_string(" ", indent);
        arrow_line.append("|");
        (arrow_pointers, arrow_line)
    }
}

} // verus!

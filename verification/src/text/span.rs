use vstd::prelude::*;

verus! {

/// Mathematical model of a [`Span`]: the byte range and the captured text.
pub struct SpanView {
    pub start: int,
    pub end: int,
    pub literal: Seq<char>,
}

/// A half-open byte range `[start, end)` of a source text, together with the
/// text that stood there when the span was made.
#[derive(Debug)]
pub struct Span {
    pub start: usize,
    pub end: usize,
    pub literal: String,
}

impl View for Span {
    type V = SpanView;

    open spec fn view(&self) -> SpanView {
        SpanView { start: self.start as int, end: self.end as int, literal: self.literal@ }
    }
}

impl Clone for Span {
    fn clone(&self) -> (copy: Self)
        ensures
            copy == *self,
    {
        Span { start: self.start, end: self.end, literal: self.literal.clone() }
    }
}

impl Span {
    /// A span is well formed when its range is not inverted.
    pub open spec fn wf(&self) -> bool {
        self.start <= self.end
    }

    pub fn new(start: usize, end: usize, literal: String) -> (span: Self)
        ensures
            span.start == start,
            span.end == end,
            span.literal == literal,
    {
        Self { start, end, literal }
    }

    /// Number of bytes the span covers.
    pub fn len(&self) -> (n: usize)
        requires
            self.wf(),
        ensures
            n == self.end - self.start,
    {
        self.end - self.start
    }
}

} // verus!

pub mod color;
pub mod render;
pub mod slice;
pub mod span;

use vstd::prelude::*;
use vstd::string::StringSliceAdditionalSpecFns;
use vstd::utf8::*;
use crate::text::slice::{lemma_boundary_after_ascii, lexeme_text, slice_str};

verus! {

pub const LINE_FEED: u8 = 0x0a;

/// The places where a line starts, among the first `upto` bytes and right
/// behind them, in order: the start of the text, and the place behind every
/// line feed.
pub open spec fn line_starts_upto(s: Seq<u8>, upto: int) -> Seq<int>
    decreases upto,
{
    if upto <= 0 {
        seq![0int]
    } else if upto <= s.len() && s[upto - 1] == LINE_FEED {
        line_starts_upto(s, upto - 1).push(upto)
    } else {
        line_starts_upto(s, upto - 1)
    }
}

/// All the places where a line of the text starts, in order.
pub open spec fn line_starts(s: Seq<u8>) -> Seq<int> {
    line_starts_upto(s, s.len() as int)
}

/// The number of the line that holds the byte at `offset`, counted from 0; a
/// place behind the text belongs to the last line.
pub open spec fn line_of(s: Seq<u8>, offset: int) -> int {
    line_starts_upto(s, if offset < s.len() {
        offset
    } else {
        s.len() as int
    }).len() - 1
}

/// Where the line with the given number starts; beyond the last line, where
/// the last line starts.
pub open spec fn start_of_line(s: Seq<u8>, line: int) -> int {
    if 0 <= line < line_starts(s).len() {
        line_starts(s)[line]
    } else {
        line_starts(s).last()
    }
}

/// Where the line that starts at `from` ends: at its line feed, or at the
/// end of the text.
pub open spec fn line_end(s: Seq<u8>, from: int) -> int
    decreases s.len() - from,
{
    if 0 <= from < s.len() && s[from] != LINE_FEED {
        line_end(s, from + 1)
    } else {
        from
    }
}

/// The line starts up to a place are not empty, end at or before that place,
/// and are the first of the line starts up to any later place.
pub proof fn lemma_line_starts(s: Seq<u8>, upto: int, later: int)
    requires
        upto <= later,
    ensures
        line_starts_upto(s, upto).len() >= 1,
        line_starts_upto(s, upto).last() <= (if upto < 0 {
            0
        } else {
            upto
        }),
        0 <= line_starts_upto(s, upto).last(),
        line_starts_upto(s, upto).len() <= line_starts_upto(s, later).len(),
        line_starts_upto(s, later).subrange(0, line_starts_upto(s, upto).len() as int)
            == line_starts_upto(s, upto),
    decreases later - upto, upto,
{
    if upto > 0 {
        lemma_line_starts(s, upto - 1, upto - 1);
    }
    if upto < later {
        lemma_line_starts(s, upto, later - 1);
        if later > 0 {
            assert(line_starts_upto(s, later).subrange(
                0,
                line_starts_upto(s, upto).len() as int,
            ) =~= line_starts_upto(s, later - 1).subrange(
                0,
                line_starts_upto(s, upto).len() as int,
            ));
        }
    } else {
        assert(line_starts_upto(s, later).subrange(0, line_starts_upto(s, upto).len() as int)
            =~= line_starts_upto(s, upto));
    }
}

/// A line starts at or before every byte that it holds.
pub proof fn lemma_line_holds_offset(s: Seq<u8>, offset: int)
    requires
        0 <= offset,
    ensures
        0 <= start_of_line(s, line_of(s, offset)) <= offset,
        start_of_line(s, line_of(s, offset)) <= s.len(),
{
    let upto = if offset < s.len() {
        offset
    } else {
        s.len() as int
    };
    lemma_line_starts(s, upto, s.len() as int);
    let some = line_starts_upto(s, upto);
    assert(line_starts(s).subrange(0, some.len() as int)[some.len() - 1] == some.last());
}

/// A source text that knows its lines.
pub struct SourceText {
    text: String,
}

impl SourceText {
    /// The bytes of the text.
    pub closed spec fn bytes(&self) -> Seq<u8> {
        encode_utf8(self.text@)
    }

    /// The text itself.
    pub closed spec fn view(&self) -> Seq<char> {
        self.text@
    }

    pub fn new(text: String) -> (source: Self)
        ensures
            source.view() == text@,
            source.bytes() == encode_utf8(text@),
    {
        Self { text }
    }

    /// The number of the line that holds the byte at `position`.
    pub fn line_index(&self, position: usize) -> (line: usize)
        ensures
            line == line_of(self.bytes(), position as int),
    {
        let bytes = self.text.as_str().as_bytes();
        let upto = if position < bytes.len() {
            position
        } else {
            bytes.len()
        };
        let mut line: usize = 0;
        let mut at: usize = 0;
        while at < upto
            invariant
                at <= upto <= bytes@.len(),
                line <= at,
                line == line_starts_upto(bytes@, at as int).len() - 1,
            decreases upto - at,
        {
            if bytes[at] == LINE_FEED {
                line += 1;
            }
            at += 1;
        }
        line
    }

    /// Where the line with the given number starts.
    pub fn line_start(&self, line_index: usize) -> (start: usize)
        ensures
            start == start_of_line(self.bytes(), line_index as int),
            start <= self.bytes().len(),
    {
        let bytes = self.text.as_str().as_bytes();
        let len = bytes.len();
        let mut line: usize = 0;
        let mut start: usize = 0;
        let mut at: usize = 0;
        while at < len && line < line_index
            invariant
                start <= at <= len,
                len == bytes@.len(),
                line <= at,
                line <= line_index,
                line == line_starts_upto(bytes@, at as int).len() - 1,
                start == line_starts_upto(bytes@, at as int).last(),
            decreases len - at,
        {
            if bytes[at] == LINE_FEED {
                line += 1;
                start = at + 1;
            }
            at += 1;
        }
        proof {
            lemma_line_starts(bytes@, at as int, len as int);
            let some = line_starts_upto(bytes@, at as int);
            assert(line_starts(bytes@).subrange(0, some.len() as int)[some.len() - 1]
                == some.last());
        }
        start
    }

    /// The text of the line with the given number, without its line feed.
    pub fn get_line(&self, index: usize) -> (line: &str)
        ensures
            ({
                let start = start_of_line(self.bytes(), index as int);
                let end = line_end(self.bytes(), start);
                &&& line.spec_bytes() == self.bytes().subrange(start, end)
                &&& line@ == lexeme_text(self.bytes(), start, end)
            }),
    {
        let start = self.line_start(index);
        let text = self.text.as_str();
        let bytes = text.as_bytes();
        let len = bytes.len();
        let mut end = start;
        while end < len && bytes[end] != LINE_FEED
            invariant
                start <= end <= len,
                len == bytes@.len(),
                line_end(bytes@, start as int) == line_end(bytes@, end as int),
            decreases len - end,
        {
            end += 1;
        }
        proof {
            let s = bytes@;
            encode_utf8_valid_utf8(self.text@);
            is_char_boundary_start_end_of_seq(s);
            lemma_start_follows_line_feed(s, index as int);
            if start > 0 {
                lemma_boundary_after_ascii(s, start - 1);
            }
            if end < len {
                is_char_boundary_iff_not_is_continuation_byte(s, end as int);
            }
        }
        slice_str(text, start, end)
    }
}

/// Every line but the first starts right behind a line feed.
pub proof fn lemma_start_follows_line_feed(s: Seq<u8>, line: int)
    ensures
        ({
            let start = start_of_line(s, line);
            start == 0 || (0 < start <= s.len() && s[start - 1] == LINE_FEED)
        }),
{
    lemma_starts_follow_line_feeds(s, s.len() as int);
}

proof fn lemma_starts_follow_line_feeds(s: Seq<u8>, upto: int)
    requires
        upto <= s.len(),
    ensures
        line_starts_upto(s, upto).len() >= 1,
        forall|k: int|
            0 <= k < line_starts_upto(s, upto).len() ==> {
                let start = #[trigger] line_starts_upto(s, upto)[k];
                start == 0 || (0 < start <= s.len() && s[start - 1] == LINE_FEED)
            },
    decreases upto,
{
    if upto > 0 {
        lemma_starts_follow_line_feeds(s, upto - 1);
    }
}

} // verus!

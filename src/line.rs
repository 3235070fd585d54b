//! Finding the next line in the bytes received so far.
use vstd::prelude::*;
use crate::bytes::{find, find_byte, lemma_find_byte_bounds, CR, LF};

verus! {

/// What the bytes from a given position hold.
#[derive(Debug, Clone, Copy, PartialEq, Eq, Structural)]
pub enum LineStep {
    /// A complete line: its content is `[start, end)`, without the `\n` or `\r\n`
    /// terminator; the following line starts at `next`.
    Line { end: usize, next: usize },
    /// No terminator yet; more bytes may complete the line.
    NeedMore,
    /// The stream ended before a terminator came.
    End,
    /// The line is longer than the maximum.
    TooLong,
}

/// Where the content of a line that starts at `start` and whose `\n` stands at
/// `lf` ends: a `\r` just before the `\n` belongs to the terminator.
pub open spec fn content_end(s: Seq<u8>, start: int, lf: int) -> int {
    if lf > start && s[lf - 1] == CR {
        lf - 1
    } else {
        lf
    }
}

/// The next line of `s` from `start`. A line may hold at most `max_line` bytes,
/// not counting its terminator. Without a `\n` yet, a final `\r` may still
/// turn out to be part of the terminator and is not counted either.
pub open spec fn spec_next_line(s: Seq<u8>, start: int, at_eof: bool, max_line: int) -> LineStep {
    let lf = find_byte(s, LF, start);
    if lf < s.len() {
        if content_end(s, start, lf) - start > max_line {
            LineStep::TooLong
        } else {
            LineStep::Line { end: content_end(s, start, lf) as usize, next: (lf + 1) as usize }
        }
    } else if content_end(s, start, s.len() as int) - start > max_line {
        LineStep::TooLong
    } else if at_eof {
        LineStep::End
    } else {
        LineStep::NeedMore
    }
}

/// A found line lies inside the input and past its start.
pub proof fn lemma_next_line_bounds(s: Seq<u8>, start: int, at_eof: bool, max_line: int)
    requires
        0 <= start <= s.len(),
        s.len() <= usize::MAX,
    ensures
        spec_next_line(s, start, at_eof, max_line) matches LineStep::Line { end, next } ==> start
            <= end < next <= s.len() && next - start <= max_line + 2 && s[next - 1] == LF,
{
    lemma_find_byte_bounds(s, LF, start);
}

/// Where the content of the unterminated bytes from `start` ends, a final `\r` left out.
fn partial_end(s: &[u8], start: usize) -> (r: usize)
    requires
        start <= s@.len(),
    ensures
        r as int == content_end(s@, start as int, s@.len() as int),
{
    let n = s.len();
    if n > start && s[n - 1] == CR {
        n - 1
    } else {
        n
    }
}

/// Reads the next line of `s` from `start`; `at_eof` says that no more bytes will come.
pub fn next_line(s: &[u8], start: usize, at_eof: bool, max_line: usize) -> (r: LineStep)
    requires
        start <= s@.len(),
    ensures
        r == spec_next_line(s@, start as int, at_eof, max_line as int),
{
    let lf = find(s, LF, start);
    proof {
        lemma_find_byte_bounds(s@, LF, start as int);
    }
    if lf < s.len() {
        let end: usize = if lf > start && s[lf - 1] == CR {
            lf - 1
        } else {
            lf
        };
        if end - start > max_line {
            LineStep::TooLong
        } else {
            LineStep::Line { end, next: lf + 1 }
        }
    } else if partial_end(s, start) - start > max_line {
        LineStep::TooLong
    } else if at_eof {
        LineStep::End
    } else {
        LineStep::NeedMore
    }
}

} // verus!

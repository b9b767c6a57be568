//! Where an error is shown in its source text: a window of the text around
//! the error's span, and a line of carets under it.

use crate::span::Span;
use vstd::prelude::*;

verus! {

/// The most bytes of source text that are shown with an error.
pub const MAX_WIDTH: usize = 50;

/// The part of a source text that is shown with an error, and where the
/// carets stand under it.
#[derive(Debug, Clone, Copy, PartialEq, Eq, Structural)]
pub struct Window {
    /// The first byte that is shown.
    pub start: usize,
    /// The byte behind the last that is shown.
    pub end: usize,
    /// The column of the caret under the start of the span.
    pub caret_start: usize,
    /// The column of the caret under the end of the span.
    pub caret_end: usize,
}

/// The smaller of two numbers.
pub open spec fn least(a: int, b: int) -> int {
    if a <= b {
        a
    } else {
        b
    }
}

/// `a - b`, or 0 where that is negative.
pub open spec fn difference(a: int, b: int) -> int {
    if a >= b {
        a - b
    } else {
        0
    }
}

/// The last byte of a span, or the largest position for a span that ends at 0.
pub open spec fn last_byte(span: Span) -> int {
    if span.end == 0 {
        usize::MAX as int
    } else {
        span.end - 1
    }
}

/// The window for a span in a text of `len` bytes: at most [`MAX_WIDTH`]
/// bytes around the middle of the span, moved to the left where the text
/// ends before the window is full.
pub open spec fn window_of(len: int, span: Span) -> Window {
    let first = least(span.start as int, len);
    let last = least(last_byte(span), len);
    let middle = (first + last) / 2;
    let wanted = difference(middle, MAX_WIDTH as int / 2);
    let end = least(wanted + MAX_WIDTH, len);
    let start = if end - wanted < MAX_WIDTH {
        difference(end, MAX_WIDTH as int)
    } else {
        wanted
    };
    Window {
        start: start as usize,
        end: end as usize,
        caret_start: difference(first, start) as usize,
        caret_end: least(difference(last, start), end - start) as usize,
    }
}

/// The window of source text to show for an error over `span`.
pub fn error_window(len: usize, span: Span) -> (w: Window)
    requires
        len <= usize::MAX / 2,
    ensures
        w == window_of(len as int, span),
        w.start <= w.end <= len,
        w.end - w.start <= MAX_WIDTH,
        w.caret_end <= w.end - w.start,
{
    let first = if span.start <= len { span.start } else { len };
    let last_of_span = if span.end == 0 { usize::MAX } else { span.end - 1 };
    let last = if last_of_span <= len { last_of_span } else { len };
    let middle = (first + last) / 2;
    let half = MAX_WIDTH / 2;
    let wanted = if middle >= half { middle - half } else { 0 };
    let end = if wanted + MAX_WIDTH <= len { wanted + MAX_WIDTH } else { len };
    let start = if end - wanted < MAX_WIDTH {
        if end >= MAX_WIDTH {
            end - MAX_WIDTH
        } else {
            0
        }
    } else {
        wanted
    };
    let caret_start = if first >= start { first - start } else { 0 };
    let caret_end_at = if last >= start { last - start } else { 0 };
    let caret_end = if caret_end_at <= end - start { caret_end_at } else { end - start };
    Window { start, end, caret_start, caret_end }
}

/// The line of carets under a window: a caret in the column of the start of
/// the span and, where it is another column, in that of its end; spaces
/// elsewhere.
pub open spec fn marker_of(w: Window) -> Seq<char> {
    Seq::new(
        (w.end - w.start) as nat,
        |i: int|
            if i == w.caret_start || (i == w.caret_end && w.caret_start != w.caret_end) {
                '^'
            } else {
                ' '
            },
    )
}

/// The line of carets to print under the window.
pub fn marker(w: &Window) -> (r: String)
    requires
        w.start <= w.end,
    ensures
        r@ == marker_of(*w),
{
    let mut out = String::new();
    let width = w.end - w.start;
    let mut i: usize = 0;
    while i < width
        invariant
            i <= width,
            width == w.end - w.start,
            out@.len() == i,
            forall|j: int| 0 <= j < i ==> out@[j] == marker_of(*w)[j],
        decreases width - i,
    {
        if i == w.caret_start || (i == w.caret_end && w.caret_start != w.caret_end) {
            out.push('^');
        } else {
            out.push(' ');
        }
        i = i + 1;
    }
    assert(out@ =~= marker_of(*w));
    out
}

} // verus!

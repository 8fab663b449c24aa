//! Where the transcript view is scrolled to, and how many of its rows the
//! screen leaves for it.
use vstd::prelude::*;

verus! {

/// The transcript's scroll position: following the newest line, or held
/// with `top_line` at the top of the view.
#[derive(Clone, Copy, Debug, PartialEq, Eq, Structural)]
pub enum HistoryScroll {
    Bottom,
    Manual { top_line: usize },
}

/// `a - b`, or zero when `b` is larger.
pub open spec fn minus(a: int, b: int) -> int {
    if a > b {
        a - b
    } else {
        0
    }
}

/// The smaller of two numbers.
pub open spec fn least(a: int, b: int) -> int {
    if a <= b {
        a
    } else {
        b
    }
}

/// The last top line that still fills a view of `height` rows over
/// `len` lines.
pub open spec fn max_start(len: int, height: int) -> int {
    minus(len, height)
}

/// The scroll position that puts `top` at the top of the view: following
/// the bottom once `top` reaches the last full view.
pub open spec fn scroll_for_top(len: int, height: int, top: int) -> HistoryScroll {
    if top >= max_start(len, height) {
        HistoryScroll::Bottom
    } else {
        HistoryScroll::Manual { top_line: top as usize }
    }
}

/// The first line shown, for a view of `height` rows over `len` lines.
pub open spec fn visible_start(s: HistoryScroll, len: int, height: int) -> int {
    match s {
        HistoryScroll::Bottom => max_start(len, height),
        HistoryScroll::Manual { top_line } => least(top_line as int, max_start(len, height)),
    }
}

/// The scroll position for top line `top_line` (see `scroll_for_top`).
pub fn scroll_state_for_top_line(history_len: usize, history_height: usize, top_line: usize) -> (s: HistoryScroll)
    ensures
        s == scroll_for_top(history_len as int, history_height as int, top_line as int),
{
    if top_line >= history_len.saturating_sub(history_height) {
        HistoryScroll::Bottom
    } else {
        HistoryScroll::Manual { top_line }
    }
}

/// The first line shown (see `visible_start`).
pub fn visible_history_start(scroll: HistoryScroll, history_len: usize, height: usize) -> (start: usize)
    ensures
        start == visible_start(scroll, history_len as int, height as int),
{
    let max_start = history_len.saturating_sub(height);
    match scroll {
        HistoryScroll::Bottom => max_start,
        HistoryScroll::Manual { top_line } => if top_line <= max_start {
            top_line
        } else {
            max_start
        },
    }
}

/// The first line shown and how many rows show lines: while a turn is
/// `loading` at the bottom, the last row is kept for the spinner.
pub fn visible_history_window(scroll: HistoryScroll, loading: bool, history_len: usize, height: usize) -> (r: (
    usize,
    usize,
))
    ensures
        r.1 == (if loading && scroll is Bottom { minus(height as int, 1) } else { height as int }),
        r.0 == visible_start(scroll, history_len as int, r.1 as int),
{
    let count = if loading && scroll == HistoryScroll::Bottom {
        height.saturating_sub(1)
    } else {
        height
    };
    (visible_history_start(scroll, history_len, count), count)
}

/// The rows left for the transcript on a screen of `height` rows, below
/// which stand the composer (`composer_lines`), a divider above it when
/// there is room, the command suggestions, a divider and the status line
/// (`statusline_height` rows); the status line, its divider and the
/// suggestions are placed first, then the composer.
pub open spec fn history_rows(height: int, statusline_height: int, composer_lines: int, command_lines: int) -> int {
    let status = least(statusline_height, height);
    let bottom_divider = if height > status {
        1int
    } else {
        0
    };
    let commands = least(command_lines, minus(height, status + bottom_divider));
    let above_bottom = minus(height, bottom_divider + status + commands);
    let top_divider = if above_bottom > 1 && composer_lines > 0 {
        1int
    } else {
        0
    };
    let composer = least(composer_lines, minus(above_bottom, top_divider));
    minus(above_bottom, top_divider + composer)
}

/// The rows left for the transcript (see `history_rows`).
pub fn history_height_from_line_counts(
    height: usize,
    statusline_height: usize,
    composer_line_count: usize,
    command_line_count: usize,
) -> (rows: usize)
    ensures
        rows == history_rows(
            height as int,
            statusline_height as int,
            composer_line_count as int,
            command_line_count as int,
        ),
        rows <= height,
{
    let status = if statusline_height <= height {
        statusline_height
    } else {
        height
    };
    let bottom_divider: usize = if height > status {
        1
    } else {
        0
    };
    let room = height - (status + bottom_divider);
    let commands = if command_line_count <= room {
        command_line_count
    } else {
        room
    };
    let above_bottom = height - (bottom_divider + status + commands);
    let top_divider: usize = if above_bottom > 1 && composer_line_count > 0 {
        1
    } else {
        0
    };
    let budget = above_bottom.saturating_sub(top_divider);
    let composer = if composer_line_count <= budget {
        composer_line_count
    } else {
        budget
    };
    above_bottom.saturating_sub(top_divider + composer)
}

/// `current` moved by `delta`, kept within `0..=usize::MAX`.
pub open spec fn moved_by(current: int, delta: int) -> int {
    if current + delta < 0 {
        0
    } else if current + delta > usize::MAX {
        usize::MAX as int
    } else {
        current + delta
    }
}

/// The scroll position after moving the view by `delta` lines (up when
/// negative) over `len` lines with `height` rows: the new top line is kept
/// between the first line and the last full view, and reaching that
/// follows the bottom again.
pub open spec fn scrolled_by(s: HistoryScroll, len: int, height: int, delta: int) -> HistoryScroll {
    let top = least(moved_by(visible_start(s, len, height), delta), max_start(len, height));
    scroll_for_top(len, height, top)
}

/// Moves the view by `delta` lines (see `scrolled_by`).
pub fn scroll_history_lines(scroll: HistoryScroll, history_len: usize, history_height: usize, delta: isize) -> (s:
    HistoryScroll)
    ensures
        s == scrolled_by(scroll, history_len as int, history_height as int, delta as int),
{
    let max_start = history_len.saturating_sub(history_height);
    let current = visible_history_start(scroll, history_len, history_height);
    let moved = if delta >= 0 {
        current.saturating_add(delta as usize)
    } else {
        let back = (-(delta + 1)) as usize + 1;
        current.saturating_sub(back)
    };
    let next = if moved <= max_start {
        moved
    } else {
        max_start
    };
    scroll_state_for_top_line(history_len, history_height, next)
}

/// The scroll position kept within the lines there are now: a held view
/// past the last full view follows the bottom again.
pub open spec fn clamped(s: HistoryScroll, len: int, height: int) -> HistoryScroll {
    match s {
        HistoryScroll::Bottom => HistoryScroll::Bottom,
        HistoryScroll::Manual { top_line } => scroll_for_top(len, height, least(top_line as int, max_start(len, height))),
    }
}

/// Keeps the scroll position within the lines there are now (see
/// `clamped`).
pub fn clamp_history_scroll(scroll: HistoryScroll, history_len: usize, history_height: usize) -> (s: HistoryScroll)
    ensures
        s == clamped(scroll, history_len as int, history_height as int),
{
    match scroll {
        HistoryScroll::Bottom => HistoryScroll::Bottom,
        HistoryScroll::Manual { top_line } => {
            let max_start = history_len.saturating_sub(history_height);
            let top = if top_line <= max_start {
                top_line
            } else {
                max_start
            };
            scroll_state_for_top_line(history_len, history_height, top)
        },
    }
}

/// The view never starts past the last full view, and a scroll position
/// made for a top line shows that line at the top, or the last full view
/// when the line is past it.
pub proof fn lemma_scroll_for_top_shows_it(len: usize, height: usize, top: usize)
    ensures
        0 <= visible_start(scroll_for_top(len as int, height as int, top as int), len as int, height as int)
            <= max_start(len as int, height as int),
        visible_start(scroll_for_top(len as int, height as int, top as int), len as int, height as int) == least(
            top as int,
            max_start(len as int, height as int),
        ),
{
}

/// Scrolling shows the old first line moved by `delta`, kept between the
/// first line and the last full view; and scrolling the other way by as
/// much from a held view in the middle comes back to it.
pub proof fn lemma_scroll_moves_the_view(s: HistoryScroll, len: usize, height: usize, delta: isize)
    ensures
        visible_start(scrolled_by(s, len as int, height as int, delta as int), len as int, height as int) == least(
            moved_by(visible_start(s, len as int, height as int), delta as int),
            max_start(len as int, height as int),
        ),
        ({
            let start = visible_start(s, len as int, height as int);
            let back = scrolled_by(s, len as int, height as int, delta as int);
            0 <= start + delta < max_start(len as int, height as int) && -delta <= isize::MAX ==> visible_start(
                scrolled_by(back, len as int, height as int, -delta),
                len as int,
                height as int,
            ) == start
        }),
{
}

} // verus!

//! What a mouse event does to the transcript view.
use vstd::prelude::*;
use crate::history_scroll::{scroll_history_lines, scrolled_by, HistoryScroll};

verus! {

/// Lines the wheel moves the transcript per notch.
pub const WHEEL_LINES: isize = 3;

/// What lies under the pointer when the left button goes down.
#[derive(Clone, Copy, Debug, PartialEq, Eq)]
pub struct PointerHits {
    /// The transcript's scrollbar, while it is shown.
    pub on_scrollbar: bool,
    /// The "jump to bottom" button.
    pub on_jump_button: bool,
    /// The copy target of a code block, by its line.
    pub code_block: Option<usize>,
    /// A place in the transcript text (line and column).
    pub history_position: Option<(usize, usize)>,
}

/// What a press of the left button does.
#[derive(Clone, Copy, Debug, PartialEq, Eq)]
pub enum PressAction {
    /// Start dragging the scrollbar; any selection ends.
    BeginScrollbarDrag,
    /// Follow the newest line again; any selection and drag end.
    JumpToBottom,
    /// Copy the code block at this line; any selection ends.
    CopyCodeBlock(usize),
    /// Start selecting text here; a scrollbar drag ends.
    StartSelection(usize, usize),
    /// Nothing is under the pointer: any selection ends.
    ClearSelection,
}

/// The first of the scrollbar, the jump button, a code block and the
/// transcript text that lies under the pointer decides the press.
pub open spec fn press_action(h: PointerHits) -> PressAction {
    if h.on_scrollbar {
        PressAction::BeginScrollbarDrag
    } else if h.on_jump_button {
        PressAction::JumpToBottom
    } else if h.code_block is Some {
        PressAction::CopyCodeBlock(h.code_block->0)
    } else if h.history_position is Some {
        let (line, column) = h.history_position->0;
        PressAction::StartSelection(line, column)
    } else {
        PressAction::ClearSelection
    }
}

/// What a press of the left button does (see `press_action`).
pub fn left_press_action(hits: PointerHits) -> (a: PressAction)
    ensures
        a == press_action(hits),
{
    if hits.on_scrollbar {
        PressAction::BeginScrollbarDrag
    } else if hits.on_jump_button {
        PressAction::JumpToBottom
    } else if let Some(line) = hits.code_block {
        PressAction::CopyCodeBlock(line)
    } else if let Some((line, column)) = hits.history_position {
        PressAction::StartSelection(line, column)
    } else {
        PressAction::ClearSelection
    }
}

/// The scroll position after one notch of the wheel, up or down, over
/// `history_len` lines shown in `history_height` rows.
pub fn wheel_scroll(scroll: HistoryScroll, up: bool, history_len: usize, history_height: usize) -> (s: HistoryScroll)
    ensures
        s == scrolled_by(scroll, history_len as int, history_height as int, if up { -3 } else { 3 }),
{
    let delta = if up {
        -WHEEL_LINES
    } else {
        WHEEL_LINES
    };
    scroll_history_lines(scroll, history_len, history_height, delta)
}

} // verus!

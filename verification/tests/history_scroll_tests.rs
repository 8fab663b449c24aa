use rho_tui::mouse::{left_press_action, wheel_scroll, PointerHits, PressAction};
use rho_tui::history_scroll::{
    clamp_history_scroll, history_height_from_line_counts, scroll_history_lines, scroll_state_for_top_line,
    visible_history_start, visible_history_window, HistoryScroll,
};

#[test]
fn bottom_position_uses_bottom_scroll_state() {
    assert_eq!(scroll_state_for_top_line(100, 10, 90), HistoryScroll::Bottom);
    assert_eq!(scroll_state_for_top_line(100, 10, 200), HistoryScroll::Bottom);
    assert_eq!(scroll_state_for_top_line(100, 10, 89), HistoryScroll::Manual { top_line: 89 });
}

#[test]
fn scrolling_moves_within_the_transcript() {
    let up = scroll_history_lines(HistoryScroll::Bottom, 100, 10, -3);
    assert_eq!(up, HistoryScroll::Manual { top_line: 87 });
    assert_eq!(visible_history_start(up, 100, 10), 87);
    assert_eq!(scroll_history_lines(up, 100, 10, 3), HistoryScroll::Bottom);
    assert_eq!(scroll_history_lines(up, 100, 10, -500), HistoryScroll::Manual { top_line: 0 });
    assert_eq!(scroll_history_lines(up, 100, 10, isize::MIN), HistoryScroll::Manual { top_line: 0 });
    assert_eq!(scroll_history_lines(HistoryScroll::Bottom, 5, 10, -3), HistoryScroll::Bottom);
}

#[test]
fn held_views_follow_the_bottom_once_the_transcript_shrinks() {
    assert_eq!(clamp_history_scroll(HistoryScroll::Manual { top_line: 40 }, 100, 10), HistoryScroll::Manual { top_line: 40 });
    assert_eq!(clamp_history_scroll(HistoryScroll::Manual { top_line: 40 }, 45, 10), HistoryScroll::Bottom);
    assert_eq!(visible_history_start(HistoryScroll::Manual { top_line: 40 }, 45, 10), 35);
}

#[test]
fn the_loading_row_is_kept_only_at_the_bottom() {
    assert_eq!(visible_history_window(HistoryScroll::Bottom, true, 100, 10), (91, 9));
    assert_eq!(visible_history_window(HistoryScroll::Bottom, false, 100, 10), (90, 10));
    assert_eq!(visible_history_window(HistoryScroll::Manual { top_line: 4 }, true, 100, 10), (4, 10));
}

#[test]
fn transcript_rows_are_what_the_fixed_rows_leave() {
    // 30 rows: 2 status rows, 1 divider, 3 suggestions, 1 divider, 4 composer rows.
    assert_eq!(history_height_from_line_counts(30, 2, 4, 3), 19);
    assert_eq!(history_height_from_line_counts(3, 2, 4, 3), 0);
    assert_eq!(history_height_from_line_counts(10, 2, 0, 0), 7);
}

#[test]
fn a_left_press_goes_to_what_lies_on_top() {
    let nothing = PointerHits { on_scrollbar: false, on_jump_button: false, code_block: None, history_position: None };
    assert_eq!(left_press_action(nothing), PressAction::ClearSelection);
    let text = PointerHits { history_position: Some((4, 2)), ..nothing };
    assert_eq!(left_press_action(text), PressAction::StartSelection(4, 2));
    let code = PointerHits { code_block: Some(7), ..text };
    assert_eq!(left_press_action(code), PressAction::CopyCodeBlock(7));
    let jump = PointerHits { on_jump_button: true, ..code };
    assert_eq!(left_press_action(jump), PressAction::JumpToBottom);
    let bar = PointerHits { on_scrollbar: true, ..jump };
    assert_eq!(left_press_action(bar), PressAction::BeginScrollbarDrag);
}

#[test]
fn the_wheel_moves_three_lines() {
    let up = wheel_scroll(HistoryScroll::Bottom, true, 100, 10);
    assert_eq!(up, HistoryScroll::Manual { top_line: 87 });
    assert_eq!(wheel_scroll(up, false, 100, 10), HistoryScroll::Bottom);
}

use rho_tui::width::{display_width, truncate_one_line, wrap_line_hard};
use rho_tui::wrap::{
    complete_visual_prefix, complete_visual_prefix_byte_index, text_lines, wrap_line_at_whitespace,
    wrapped_text_rows,
};

#[test]
fn display_width_counts_wide_characters_twice() {
    assert_eq!(display_width("abc"), 3);
    assert_eq!(display_width("你好"), 4);
    assert_eq!(display_width(""), 0);
}

#[test]
fn hard_wrap_keeps_every_character() {
    let chunks = wrap_line_hard("abcdefg", 3);
    assert_eq!(chunks, vec!["abc", "def", "g"]);
    assert_eq!(chunks.concat(), "abcdefg");
    assert_eq!(wrap_line_hard("你好吗", 3), vec!["你", "好", "吗"]);
}

#[test]
fn whitespace_wrap_breaks_after_spaces() {
    assert_eq!(wrap_line_at_whitespace("hello world again", 8), vec!["hello ", "world ", "again"]);
}

#[test]
fn lines_follow_str_lines() {
    assert_eq!(text_lines("a\r\nb\n\nc\n"), vec!["a", "b", "", "c"]);
    assert!(text_lines("").is_empty());
}

#[test]
fn wrapped_rows_of_an_empty_text_is_one_empty_row() {
    assert_eq!(wrapped_text_rows("", 10), vec![""]);
}

#[test]
fn truncating_to_one_line_fits_the_width() {
    let t = truncate_one_line("a long line of text", 8);
    assert!(display_width(&t) <= 8);
}

#[test]
fn visual_prefix_stops_after_the_last_complete_line() {
    let p = complete_visual_prefix("done\npartial", 40);
    assert_eq!(p.char_index, 5);
    assert!(!p.ends_with_wrap);
    assert_eq!(complete_visual_prefix_byte_index("é\nx", 40), 3);
}

#[test]
fn hard_wrap_cuts_as_late_as_it_can() {
    assert_eq!(rho_tui::width::wrap_line_hard("abcdef", 4), vec!["abcd", "ef"]);
    assert_eq!(rho_tui::width::wrap_line_hard("中文字", 3), vec!["中", "文", "字"]);
    assert_eq!(rho_tui::width::wrap_line_hard("a中b", 3), vec!["a中", "b"]);
    // A character wider than the width stands alone.
    assert_eq!(rho_tui::width::wrap_line_hard("中a", 1), vec!["中", "a"]);
}

#[test]
fn whitespace_wrap_keeps_each_line_within_the_width() {
    let lines = wrap_line_at_whitespace("ab 中文 cd", 4);
    assert_eq!(lines, vec!["ab ", "中文", " cd"]);
    assert!(lines.iter().all(|line| display_width(line) <= 4));
    assert_eq!(wrap_line_at_whitespace("中", 1), vec!["中"]);
}

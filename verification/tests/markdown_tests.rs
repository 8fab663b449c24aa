use rho_tui::markdown::{complete_delimiter_ranges, complete_hard_wrap_prefix};
use rho_tui::width::wrap_line_hard;
use rho_tui::markdown::SegmentStyle;
use rho_tui::markdown_render::{
    line_text, markdown_lines, markdown_preview_width, render_markdown, try_render_markdown,
    CodeBlockCopyButton, SpanStyle, StyledLine,
};
use rho_tui::width::display_width;

fn line_styles(line: &StyledLine) -> Vec<SpanStyle> {
    line.spans.iter().map(|span| span.style).collect()
}

#[test]
fn styles_inline_code_bold_italic_and_links_without_markers() {
    let mut in_code_block = false;
    let lines = markdown_lines(
        "use `cargo test`, then **ship** the *fix*, [docs](https://example.com), and https://example.com",
        120,
        &mut in_code_block,
    );

    assert_eq!(
        line_text(&lines[0]),
        "use cargo test, then ship the fix, docs: https://example.com, and https://example.com"
    );
    let styles = line_styles(&lines[0]);
    assert!(styles.contains(&SpanStyle::Inline(SegmentStyle::InlineCode)));
    assert!(styles.contains(&SpanStyle::Inline(SegmentStyle::Bold)));
    assert!(styles.contains(&SpanStyle::Inline(SegmentStyle::Italic)));
    assert!(styles.contains(&SpanStyle::Inline(SegmentStyle::Link)));
    assert_eq!(
        styles
            .iter()
            .filter(|style| **style == SpanStyle::Inline(SegmentStyle::Link))
            .count(),
        2
    );
}

#[test]
fn preserves_underscores_inside_identifiers() {
    let mut in_code_block = false;
    let lines = markdown_lines(
        "keep foo_bar_baz literal but style _this_",
        120,
        &mut in_code_block,
    );

    assert_eq!(
        line_text(&lines[0]),
        "keep foo_bar_baz literal but style this"
    );
    assert!(line_styles(&lines[0]).contains(&SpanStyle::Inline(SegmentStyle::Italic)));
}

#[test]
fn renders_code_blocks_with_closed_borders() {
    let mut in_code_block = false;
    let lines = markdown_lines("```rust\nlet x = 1;\n```", 20, &mut in_code_block);

    assert_eq!(line_text(&lines[0]), "╭──────────── COPY ╮");
    assert_eq!(line_text(&lines[1]), "│ let x = 1;       │");
    assert_eq!(line_text(&lines[2]), "╰──────────────────╯");
    assert_eq!(lines[0].spans[1].text, " COPY ");
    assert_eq!(lines[0].spans[1].style, SpanStyle::CopyButton);
    assert_eq!(lines[1].spans[0].style, SpanStyle::CodeBlock);
}

#[test]
fn code_block_padding_uses_display_width() {
    let mut in_code_block = false;
    let lines = markdown_lines("```\n你\n```", 6, &mut in_code_block);

    assert_eq!(line_text(&lines[1]), "│ 你 │");
    assert_eq!(display_width(&line_text(&lines[1])), 6);
}

#[test]
fn code_blocks_preserve_markdown_markers_as_literal_text() {
    let mut in_code_block = false;
    let lines = markdown_lines(
        "```rust\nfn __init__() { println!(\"*ok*\"); }\n```",
        80,
        &mut in_code_block,
    );

    assert!(line_text(&lines[1]).contains("fn __init__() { println!(\"*ok*\"); }"));
    assert_eq!(line_styles(&lines[1]), vec![SpanStyle::CodeBlock]);
}

#[test]
fn renders_divider_lines() {
    let mut in_code_block = false;
    let lines = markdown_lines("before\n---\nafter", 20, &mut in_code_block);

    assert_eq!(line_text(&lines[0]), "before");
    assert_eq!(line_text(&lines[1]), "─".repeat(20));
    assert_eq!(lines[1].spans[0].style, SpanStyle::Dim);
    assert_eq!(line_text(&lines[2]), "after");
}

#[test]
fn tables_are_drawn_with_borders_and_alignment() {
    let mut in_code_block = false;
    let lines = markdown_lines("| a | b |\n|---|---:|\n| 1 | 22 |", 30, &mut in_code_block);
    let texts = lines.iter().map(line_text).collect::<Vec<_>>();
    assert_eq!(
        texts,
        vec![
            "┌───┬────┐",
            "│ a │  b │",
            "├───┼────┤",
            "│ 1 │ 22 │",
            "└───┴────┘",
        ]
    );
    assert!(lines[1].spans.iter().any(|span| span.text == "a" && span.bold));
    assert!(lines[3].spans.iter().all(|span| !span.bold));
}

#[test]
fn open_code_block_carries_over_between_calls() {
    let mut in_code_block = false;
    let first = markdown_lines("```\nfirst", 20, &mut in_code_block);
    assert!(in_code_block);
    assert_eq!(first.len(), 2);
    let second = markdown_lines("*not italic*\n```", 20, &mut in_code_block);
    assert!(!in_code_block);
    assert_eq!(line_text(&second[0]), "│ *not italic*     │");
    assert_eq!(line_text(&second[1]), "╰──────────────────╯");
}

#[test]
fn code_blocks_with_a_copy_button_are_recorded() {
    let mut in_code_block = false;
    let rendered = render_markdown("intro\n```\nline one\nline two\n```", 20, &mut in_code_block);
    assert_eq!(rendered.code_blocks.len(), 1);
    assert_eq!(rendered.code_blocks[0].top_line, 1);
    assert_eq!(rendered.code_blocks[0].copy_columns, 13..19);
    assert_eq!(rendered.code_blocks[0].text, "line one\nline two");
}

#[test]
fn hidden_copy_button_records_no_block() {
    let (rendered, open) =
        try_render_markdown("```\ncode\n```", 20, false, CodeBlockCopyButton::Hidden).unwrap();
    assert!(!open);
    assert!(rendered.code_blocks.is_empty());
    assert_eq!(line_text(&rendered.lines[0]), "╭──────────────────╮");
}

#[test]
fn empty_text_is_one_empty_row() {
    let mut in_code_block = false;
    let lines = markdown_lines("", 20, &mut in_code_block);
    assert_eq!(lines.len(), 1);
    assert_eq!(line_text(&lines[0]), "");
    assert_eq!(lines[0].spans[0].style, SpanStyle::Text);
}

#[test]
fn a_lone_bar_row_under_a_table_header_cannot_be_drawn() {
    assert!(try_render_markdown("| a | b |\n|", 30, false, CodeBlockCopyButton::Visible).is_none());
    assert!(try_render_markdown("hello\n|", 30, false, CodeBlockCopyButton::Visible).is_some());
}

#[test]
fn preview_width_skips_unfinished_inline_markdown() {
    assert_eq!(markdown_preview_width("done\n**bol", 40, false), 0);
    assert_eq!(markdown_preview_width("done\nplain words", 40, false), 11);
    assert_eq!(markdown_preview_width("done\n", 40, false), 0);
}

#[test]
fn hard_wrap_prefix_agrees_with_the_wrapped_chunks() {
    assert_eq!(wrap_line_hard("abcdef", 4), vec!["abcd", "ef"]);
    let p = complete_hard_wrap_prefix("abcdef", 4);
    assert_eq!(p.char_index, 4);
    assert!(p.ends_with_wrap);
    let full = complete_hard_wrap_prefix("abcdefgh", 4);
    assert_eq!(full.char_index, 8);
    let short = complete_hard_wrap_prefix("ab", 4);
    assert_eq!(short.char_index, 0);
    assert!(!short.ends_with_wrap);
}

#[test]
fn delimiter_ranges_open_and_close_on_the_marker() {
    assert_eq!(complete_delimiter_ranges("**b**", "**", &[]), Some(vec![0..5]));
    assert_eq!(complete_delimiter_ranges("x *y*z *w*", "*", &[]), Some(vec![2..5, 7..10]));
    assert_eq!(complete_delimiter_ranges("*open", "*", &[]), None);
    assert_eq!(complete_delimiter_ranges("`a` and `b`", "`", &[0..3]), Some(vec![8..11]));
}

use rho_tui::stream::AppendOnlyStream;

#[test]
fn complete_lines_are_drained_and_the_rest_waits() {
    let mut stream = AppendOnlyStream::new();
    assert!(stream.is_empty());
    stream.push_delta("hello world\nsec");
    stream.push_delta("ond");
    let fragment = stream.drain_renderable(80).unwrap();
    assert_eq!(fragment.render_text(), "hello world\n");
    assert!(fragment.include_leading_blank());
    assert_eq!(stream.pending_text(), "second");
    assert!(stream.drain_renderable(80).is_none());

    let last = stream.finish().unwrap();
    assert!(!last.include_leading_blank());
    assert_eq!(last.into_text(), "second");
    assert_eq!(stream.emitted_text(), "hello world\nsecond");
    assert!(stream.finish().is_none());
    assert!(!stream.is_empty());

    stream.reset();
    assert!(stream.is_empty());
}

#[test]
fn line_break_after_a_wrap_is_not_drawn_twice() {
    let mut stream = AppendOnlyStream::new();
    stream.previous_emission_ended_at_wrap = true;
    stream.leading_blank_emitted = true;
    stream.push_delta("\nnext\n");
    let fragment = stream.drain_renderable(80).unwrap();
    assert!(fragment.skip_leading_newline);
    assert_eq!(fragment.text, "\nnext\n");
    assert_eq!(fragment.render_text(), "next\n");
    assert!(!fragment.include_leading_blank());
}

#[test]
fn preview_hands_out_the_unfinished_first_line() {
    let mut stream = AppendOnlyStream::new();
    stream.push_delta("partial");
    let fragment = stream.drain_preview().unwrap();
    assert_eq!(fragment.render_text(), "partial");
    assert_eq!(stream.pending_text(), "");

    stream.push_delta("\nlater");
    assert!(stream.drain_preview().is_none());
    assert_eq!(stream.pending_text(), "\nlater");
}

#[test]
fn markdown_drain_keeps_the_open_last_line() {
    let mut stream = AppendOnlyStream::new();
    stream.push_delta("**bold** text\nmore");
    let fragment = stream.drain_renderable_markdown(80, false).unwrap();
    assert_eq!(fragment.render_text(), "**bold** text\n");
    assert_eq!(stream.pending_text(), "more");
}

#[test]
fn markdown_preview_shows_an_unsettled_line() {
    let mut stream = AppendOnlyStream::new();
    stream.push_delta("# Title");
    let fragment = stream.drain_preview_markdown(80, false).unwrap();
    assert_eq!(fragment.render_text(), "# Title");
    assert_eq!(stream.emitted_text(), "# Title");
}

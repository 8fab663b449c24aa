use rho_tui::composer::slash_command_args;
use rho_tui::prompt_input::{
    queued_message_notice, queued_messages_status, queued_steer_notice, queued_steers_status,
    ComposerKeyAction, HistoryDirection, InputSubmissionMode, KeyCode, KeyPress, PromptInput, QueuedPrompt,
    SubmitStart,
};

fn key(code: KeyCode) -> KeyPress {
    KeyPress { code, control: false, alt: false, shift: false, other: false }
}

fn typed(text: &str) -> PromptInput {
    let mut input = PromptInput::new();
    for ch in text.chars() {
        input.insert_input_char(ch);
    }
    input
}

fn test_input() -> PromptInput {
    PromptInput::new()
}

#[test]
fn input_history_recalls_previous_messages_and_restores_draft() {
    let mut app = test_input();
    app.push_input_history("first message");
    app.push_input_history("second message");
    app.input = "draft".into();
    app.input_cursor = app.input_char_len();

    app.recall_input_history_or_move_cursor(HistoryDirection::Previous, 80);
    assert_eq!(app.input, "second message");
    assert_eq!(app.input_cursor, "second message".chars().count());

    app.recall_input_history_or_move_cursor(HistoryDirection::Previous, 80);
    assert_eq!(app.input, "first message");

    app.recall_input_history_or_move_cursor(HistoryDirection::Next, 80);
    assert_eq!(app.input, "second message");

    app.recall_input_history_or_move_cursor(HistoryDirection::Next, 80);
    assert_eq!(app.input, "draft");
    assert_eq!(app.input_history_cursor, None);
}

#[test]
fn editing_input_exits_history_navigation() {
    let mut app = test_input();
    app.push_input_history("previous");
    app.recall_input_history_or_move_cursor(HistoryDirection::Previous, 80);

    app.insert_input_char('!');

    assert_eq!(app.input, "previous!");
    assert_eq!(app.input_history_cursor, None);
    assert!(app.input_history_draft.is_none());
}

#[test]
fn input_history_clears_paste_segments_and_restores_draft_segments() {
    let mut app = test_input();
    app.push_input_history("previous message long enough for marker");
    app.insert_pasted_input_text("alpha\nbeta");

    app.recall_input_history_or_move_cursor(HistoryDirection::Previous, 80);
    assert_eq!(app.input, "previous message long enough for marker");
    assert!(app.paste_segments.is_empty());
    assert_eq!(
        app.expanded_input(),
        "previous message long enough for marker"
    );

    app.recall_input_history_or_move_cursor(HistoryDirection::Next, 80);
    assert_eq!(app.input, "[ pasted: 2 lines ]");
    assert_eq!(app.expanded_input(), "alpha\nbeta");
}

#[test]
fn paste_segment_is_removed_when_marker_is_edited() {
    let mut app = test_input();
    app.insert_pasted_input_text("alpha\nbeta");
    app.input_cursor = 1;
    app.delete_input();

    assert_eq!(app.input, "[pasted: 2 lines ]");
    assert!(app.paste_segments.is_empty());
    assert_eq!(app.expanded_input(), "[pasted: 2 lines ]");
}

#[test]
fn paste_segments_shift_after_edits_before_marker() {
    let mut app = test_input();
    app.insert_pasted_input_text("alpha\nbeta");
    app.input_cursor = 0;
    app.insert_input_text("prefix ");

    assert_eq!(app.input, "prefix [ pasted: 2 lines ]");
    assert_eq!(app.expanded_input(), "prefix alpha\nbeta");
}

#[test]
fn pasted_multiline_input_collapses_to_marker_and_expands() {
    let mut app = test_input();

    app.insert_pasted_input_text("alpha\nbeta\ngamma");

    assert_eq!(app.input, "[ pasted: 3 lines ]");
    assert_eq!(app.input_cursor, app.input.chars().count());
    assert_eq!(app.expanded_input(), "alpha\nbeta\ngamma");
}

#[test]
fn pasted_single_line_input_stays_literal_until_large() {
    let mut app = test_input();

    app.insert_pasted_input_text("hello world");

    assert_eq!(app.input, "hello world");
    assert!(app.paste_segments.is_empty());
    assert_eq!(app.expanded_input(), "hello world");
}

#[test]
fn queued_pasted_prompt_keeps_marker_when_recalled_for_editing() {
    let mut app = test_input();
    app.insert_pasted_input_text("alpha\nbeta");
    let queued = QueuedPrompt {
        prompt: app.expanded_input(),
        display_prompt: app.input.clone(),
        paste_segments: app.paste_segments.clone(),
    };
    app.input.clear();
    app.paste_segments.clear();
    app.input_cursor = 0;
    app.queued_prompts.push_back(queued);

    assert!(app.recall_last_queued_prompt());
    assert_eq!(app.input, "[ pasted: 2 lines ]");
    assert_eq!(app.expanded_input(), "alpha\nbeta");
}

#[test]
fn queued_pasted_prompt_preserves_leading_space_segment_offsets() {
    let mut app = test_input();
    app.insert_input_text(" ");
    app.insert_pasted_input_text("alpha\nbeta");
    let queued = QueuedPrompt {
        prompt: app.expanded_input().trim().to_string(),
        display_prompt: app.input.clone(),
        paste_segments: app.paste_segments.clone(),
    };
    app.input.clear();
    app.paste_segments.clear();
    app.input_cursor = 0;
    app.queued_prompts.push_back(queued);

    assert!(app.recall_last_queued_prompt());
    assert_eq!(app.input, " [ pasted: 2 lines ]");
    assert_eq!(app.expanded_input().trim(), "alpha\nbeta");
}

#[test]
fn slash_command_args_can_keep_collapsed_display_separate_from_expanded_prompt() {
    let mut app = test_input();
    app.insert_input_text("/skill:test ");
    app.insert_pasted_input_text("alpha\nbeta");

    let expanded_input = app.expanded_input();
    assert_eq!(slash_command_args(&expanded_input).trim(), "alpha\nbeta");
    assert_eq!(slash_command_args(&app.input).trim(), "[ pasted: 2 lines ]");
}

#[test]
fn alt_up_recalls_last_queued_message_for_editing() {
    let mut app = test_input();
    app.queued_prompts.push_back(QueuedPrompt::from_prompt("first queued"));
    app.queued_prompts.push_back(QueuedPrompt::from_prompt("second queued"));

    assert!(app.recall_last_queued_prompt());

    assert_eq!(app.input, "second queued");
    assert_eq!(app.input_cursor, "second queued".chars().count());
    assert_eq!(app.queued_prompts.len(), 1);
    assert_eq!(app.queued_prompts[0].prompt, "first queued");
    assert_eq!(app.queued_prompts[0].display_prompt, "first queued");
}

#[test]
fn alt_up_removed_queued_messages_do_not_enter_prompt_history() {
    let mut app = test_input();
    app.queued_prompts.push_back(QueuedPrompt::from_prompt("first queued"));
    app.queued_prompts.push_back(QueuedPrompt::from_prompt("second queued"));

    assert!(app.recall_last_queued_prompt());
    app.input.clear();
    app.input_cursor = 0;
    assert!(app.recall_last_queued_prompt());

    assert_eq!(app.input, "first queued");
    assert!(app.queued_prompts.is_empty());
    assert!(!app.recall_input_history(HistoryDirection::Previous));
}

#[test]
fn history_skips_empty_and_repeated_prompts() {
    let mut app = test_input();
    app.push_input_history("");
    app.push_input_history("same");
    app.push_input_history("same");
    app.push_input_history("other");
    app.push_input_history("same");
    assert_eq!(app.input_history, vec!["same", "other", "same"]);
}

#[test]
fn history_previous_stops_at_oldest_entry() {
    let mut app = test_input();
    app.push_input_history("only");
    assert!(app.recall_input_history(HistoryDirection::Previous));
    assert!(app.recall_input_history(HistoryDirection::Previous));
    assert_eq!(app.input, "only");
    assert_eq!(app.input_history_cursor, Some(0));
    assert!(app.recall_input_history(HistoryDirection::Next));
    assert_eq!(app.input, "");
    assert!(!app.recall_input_history(HistoryDirection::Next));
}

#[test]
fn up_inside_multiline_prompt_moves_cursor_instead_of_recalling() {
    let mut app = test_input();
    app.push_input_history("old");
    app.insert_input_text("first line\nsecond");
    app.recall_input_history_or_move_cursor(HistoryDirection::Previous, 80);
    assert_eq!(app.input, "first line\nsecond");
    assert_eq!(app.input_cursor, 6);
    assert_eq!(app.input_history_cursor, None);
}

#[test]
fn backspace_and_word_delete_edit_before_cursor() {
    let mut app = test_input();
    assert!(!app.backspace_input());
    app.insert_input_text("hello big world");
    assert!(app.backspace_input());
    assert_eq!(app.input, "hello big worl");
    app.delete_word_before_cursor();
    assert_eq!(app.input, "hello big ");
    assert_eq!(app.input_cursor, 10);
    app.replace_input_range(0, 5, "hi");
    assert_eq!(app.input, "hi big ");
    assert_eq!(app.input_cursor, 2);
}

#[test]
fn queue_prompt_after_turn_keeps_display_and_expands_prompt() {
    let mut app = test_input();
    app.insert_input_text("  look: ");
    app.insert_pasted_input_text("alpha\nbeta");
    assert!(app.queue_prompt_after_turn());
    assert_eq!(app.input, "");
    assert_eq!(app.queued_prompts.len(), 1);
    assert_eq!(app.queued_prompts[0].prompt, "look: alpha\nbeta");
    assert_eq!(app.queued_prompts[0].display_prompt, "  look: [ pasted: 2 lines ]");
    let next = app.take_next_queued_prompt().unwrap();
    assert_eq!(next.prompt, "look: alpha\nbeta");
    assert!(app.take_next_queued_prompt().is_none());

    app.insert_input_text("   ");
    assert!(!app.queue_prompt_after_turn());
    assert_eq!(app.input, "");
}

#[test]
fn steering_prompts_are_handed_over_in_order() {
    let mut app = test_input();
    app.insert_input_text("typed");
    app.queue_steering_prompt("first".to_string());
    app.queue_steering_prompt("second".to_string());
    assert_eq!(app.input, "");
    assert_eq!(app.take_steering_prompts(), vec!["first", "second"]);
    assert!(app.steering_prompts.is_empty());
}

#[test]
fn queue_notices_count_waiting_prompts() {
    assert_eq!(queued_message_notice(2), "queued message 2 for after the current turn");
    assert_eq!(queued_messages_status(2), "queued 2 message(s)");
    assert_eq!(queued_steer_notice(1), "queued steer 1 for after the current assistant turn");
    assert_eq!(queued_steers_status(3), "queued 3 steer(s)");
}

#[test]
fn interrupt_restores_all_pending_work_to_input() {
    let mut app = test_input();
    app.input = "draft".into();
    app.input_cursor = app.input_char_len();
    app.steering_prompts.push("local steer".into());
    app.queued_prompts.push_back(QueuedPrompt {
        prompt: "expanded next turn".into(),
        display_prompt: "next turn".into(),
        paste_segments: Vec::new(),
    });
    let active = vec!["active steer".to_string()];

    app.restore_pending_work_to_input(active);

    assert_eq!(
        app.input,
        "active steer\n\nlocal steer\n\nexpanded next turn\n\ndraft"
    );
    assert!(app.steering_prompts.is_empty());
    assert!(app.queued_prompts.is_empty());
    assert_eq!(app.input_cursor, app.input_char_len());
}

#[test]
fn interrupt_expands_pasted_draft_before_restoring_it() {
    let mut app = test_input();
    app.insert_pasted_input_text("alpha\nbeta");
    app.steering_prompts.push("steer".into());

    app.restore_pending_work_to_input(Vec::new());

    assert_eq!(app.input, "steer\n\nalpha\nbeta");
    assert!(app.paste_segments.is_empty());
}

#[test]
fn interrupt_without_pending_work_keeps_the_draft() {
    let mut app = test_input();
    app.insert_pasted_input_text("alpha\nbeta");
    app.restore_pending_work_to_input(Vec::new());
    assert_eq!(app.input, "[ pasted: 2 lines ]");
    assert_eq!(app.paste_segments.len(), 1);
}

#[test]
fn ctrl_c_clears_the_prompt_then_quits() {
    let mut input = typed("draft");
    let ctrl_c = KeyPress { control: true, ..key(KeyCode::Char('c')) };
    let first = input.handle_composer_key(ctrl_c, false, 80, false);
    assert!(matches!(
        first.action,
        ComposerKeyAction::InputCleared { ref status } if status == "input cleared; press ctrl-c again to quit"
    ));
    assert!(first.ctrl_c_pending);
    assert_eq!(input.input, "");
    assert_eq!(input.input_cursor, 0);
    let second = input.handle_composer_key(ctrl_c, true, 80, false);
    assert!(matches!(second.action, ComposerKeyAction::Quit));

    // Any other key ends the wait for a second ctrl-c.
    let other = input.handle_composer_key(key(KeyCode::Esc), true, 80, false);
    assert!(!other.ctrl_c_pending);
    assert!(matches!(other.action, ComposerKeyAction::Handled));
}

#[test]
fn composer_keys_edit_and_move_the_cursor() {
    let mut input = typed("hello brave world");
    let alt = |code| KeyPress { alt: true, ..key(code) };
    input.handle_composer_key(alt(KeyCode::Backspace), false, 80, false);
    assert_eq!(input.input, "hello brave ");
    input.handle_composer_key(alt(KeyCode::Left), false, 80, false);
    assert_eq!(input.input_cursor, 6);
    input.handle_composer_key(key(KeyCode::Left), false, 80, false);
    assert_eq!(input.input_cursor, 5);
    input.handle_composer_key(alt(KeyCode::Right), false, 80, false);
    assert_eq!(input.input_cursor, 11);
    input.handle_composer_key(key(KeyCode::Delete), false, 80, false);
    assert_eq!(input.input, "hello brave");
    input.handle_composer_key(key(KeyCode::Home), false, 80, false);
    assert_eq!(input.input_cursor, 0);
    input.handle_composer_key(key(KeyCode::Right), false, 80, false);
    assert_eq!(input.input_cursor, 1);
    input.handle_composer_key(key(KeyCode::End), false, 80, false);
    assert_eq!(input.input_cursor, 11);
    input.handle_composer_key(key(KeyCode::Backspace), false, 80, false);
    assert_eq!(input.input, "hello brav");
}

#[test]
fn enter_sends_unless_shift_or_alt_breaks_the_line() {
    let mut input = typed("a");
    let shifted = input.handle_composer_key(KeyPress { shift: true, ..key(KeyCode::Enter) }, false, 80, false);
    assert!(shifted.clear_paste_burst);
    assert!(matches!(shifted.action, ComposerKeyAction::Handled));
    assert_eq!(input.input, "a\n");
    let sent = input.handle_composer_key(key(KeyCode::Enter), false, 80, false);
    assert!(matches!(sent.action, ComposerKeyAction::Submit));
    assert!(!sent.clear_paste_burst);
    assert_eq!(input.input, "a\n");

    let control_char = input.handle_composer_key(KeyPress { control: true, ..key(KeyCode::Char('x')) }, false, 80, false);
    assert!(control_char.clear_paste_burst);
    assert_eq!(input.input, "a\n");
    input.handle_composer_key(KeyPress { shift: true, ..key(KeyCode::Char('B')) }, false, 80, false);
    assert_eq!(input.input, "a\nB");
}

#[test]
fn alt_up_brings_back_the_newest_queued_prompt() {
    let mut input = PromptInput::new();
    input.queue_prompt("first".to_string(), "first".to_string(), Vec::new());
    input.queue_prompt("second".to_string(), "second".to_string(), Vec::new());
    let step = input.handle_composer_key(KeyPress { alt: true, ..key(KeyCode::Up) }, false, 80, false);
    assert!(matches!(
        step.action,
        ComposerKeyAction::QueuedRecalled { ref status } if status == "editing queued message; 1 queued message(s) remain"
    ));
    assert_eq!(input.input, "second");
    assert_eq!(input.input_cursor, 6);
}

#[test]
fn keys_during_a_turn_queue_the_prompt_and_pass_escape_on() {
    let mut input = typed("  next step  ");
    let alt_enter = KeyPress { alt: true, ..key(KeyCode::Enter) };
    let step = input.handle_composer_key(alt_enter, false, 80, true);
    assert!(step.clear_paste_burst);
    assert!(matches!(
        step.action,
        ComposerKeyAction::Queued { ref notice, ref status }
            if notice == "queued message 1 for after the current turn" && status == "queued 1 message(s)"
    ));
    assert_eq!(input.input, "");
    assert_eq!(input.queued_prompts[0].prompt, "next step");

    let blank = input.handle_composer_key(alt_enter, false, 80, true);
    assert!(matches!(blank.action, ComposerKeyAction::Handled));
    assert_eq!(input.queued_prompts.len(), 1);

    let escape = input.handle_composer_key(key(KeyCode::Esc), false, 80, true);
    assert!(escape.clear_paste_burst);
    let ctrl_c = KeyPress { control: true, ..key(KeyCode::Char('c')) };
    let cleared = input.handle_composer_key(ctrl_c, false, 80, true);
    assert!(matches!(
        cleared.action,
        ComposerKeyAction::InputCleared { ref status } if status == "input cleared; press esc to interrupt model"
    ));
}

#[test]
fn submitting_sorts_shell_commands_slash_commands_and_prompts() {
    let mut blank = typed("   ");
    assert!(matches!(blank.begin_submit(false), SubmitStart::Empty));
    assert_eq!(blank.input, "");
    let mut with_image = typed("   ");
    assert!(matches!(with_image.begin_submit(true), SubmitStart::Command { ref prompt, .. } if prompt.is_empty()));

    let mut shell = typed("  !! ls -la ");
    assert!(matches!(
        shell.begin_submit(false),
        SubmitStart::Shell { mode: rho_tui::shell::InlineShellMode::ExcludeFromContext, ref command } if command == "ls -la"
    ));
    assert_eq!(shell.input, "");

    let mut pasted = typed("!cat ");
    pasted.insert_pasted_input_text("alpha\nbeta");
    assert_eq!(pasted.input, "!cat [ pasted: 2 lines ]");
    assert!(matches!(pasted.begin_submit(false), SubmitStart::PastedShellBlocked));
    assert_eq!(pasted.input, "!cat [ pasted: 2 lines ]");

    let mut command = typed(" /model gpt ");
    assert!(matches!(
        command.begin_submit(false),
        SubmitStart::Command { ref prompt, ref display } if prompt == "/model gpt" && display == "/model gpt"
    ));

    let mut prompt = typed("/not a command");
    prompt.submission_mode = InputSubmissionMode::Prompt;
    assert!(matches!(
        prompt.begin_submit(false),
        SubmitStart::Prompt { ref prompt, .. } if prompt == "/not a command"
    ));
    assert_eq!(prompt.submission_mode, InputSubmissionMode::ParseCommands);
    assert_eq!(prompt.input, "/not a command");
}

use rho_tui::composer::{
    complete_slash_command, final_answer_delta, normalize_paste, sanitize_session_title, slash_command_args,
    FinalAnswerDelta,
};

#[test]
fn sanitizes_generated_session_title() {
    assert_eq!(
        sanitize_session_title("\"Implement resume picker.\""),
        Some("Implement resume picker".into())
    );
    assert_eq!(sanitize_session_title("\n\n"), None);
}

#[test]
fn normalize_paste_converts_carriage_returns() {
    assert_eq!(normalize_paste("a\r\nb\rc"), "a\nb\nc");
}

#[test]
fn paste_normalization_converts_crlf_and_cr() {
    assert_eq!(normalize_paste("a\r\nb\rc"), "a\nb\nc");
}

#[test]
fn final_answer_delta_handles_unstreamed_suffix_and_mismatch() {
    assert_eq!(
        final_answer_delta("", "final"),
        FinalAnswerDelta::Append("final".to_string())
    );
    assert_eq!(
        final_answer_delta("hello", "hello world"),
        FinalAnswerDelta::Append(" world".to_string())
    );
    assert_eq!(final_answer_delta("hello", "hello"), FinalAnswerDelta::Nothing);
    assert_eq!(
        final_answer_delta("hello", "goodbye"),
        FinalAnswerDelta::Mismatch
    );
}

#[test]
fn slash_command_args_preserves_text_after_skill_command() {
    assert_eq!(
        slash_command_args("/skill:rust-review check this diff"),
        "check this diff"
    );
}

#[test]
fn complete_slash_command_inserts_prefixed_skill_command() {
    let (input, cursor) = complete_slash_command("/cav", 4, "skill:caveman");

    assert_eq!(input, "/skill:caveman");
    assert_eq!(cursor, 14);
}

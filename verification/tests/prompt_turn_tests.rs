use rho_tui::composer::Entry;
use rho_tui::prompt_turn::{
    interrupt_cancels, questionnaire_reply_error, turn_content, turn_end, QuestionnaireReply, StreamControl,
    TurnBlock, TurnOutcome, TurnResult, UserContent,
};

#[test]
fn completed_turns_report_ready_or_the_next_queued_message() {
    let end = turn_end(TurnResult::Completed, 0, false);
    assert_eq!(end.outcome, TurnOutcome::Completed);
    assert_eq!(end.status, "ready");
    assert!(end.entry.is_none());
    assert!(end.finish_streams);
    let end = turn_end(TurnResult::Completed, 2, true);
    assert_eq!(end.status, "running next queued message (2)");
}

#[test]
fn interrupted_turns_give_back_pending_work() {
    let end = turn_end(TurnResult::Interrupted, 0, false);
    assert_eq!(end.outcome, TurnOutcome::Interrupted);
    assert!(matches!(end.entry, Some(Entry::Notice(ref t)) if t == "model interrupted"));
    assert_eq!(end.status, "interrupted");
    assert!(end.restore_pending_work);
}

#[test]
fn cancelled_questionnaires_say_whether_the_goal_stays() {
    let cancelled = |goal| {
        turn_end(
            TurnResult::QuestionnaireFailed {
                message: "questionnaire answer was cancelled".into(),
                text: "questionnaire failed: questionnaire answer was cancelled".into(),
            },
            0,
            goal,
        )
    };
    let end = cancelled(true);
    assert_eq!(end.outcome, TurnOutcome::Cancelled);
    assert!(matches!(end.entry, Some(Entry::Notice(ref t)) if t == "questionnaire cancelled; goal left active"));
    assert_eq!(end.status, "questionnaire cancelled");
    assert!(matches!(cancelled(false).entry, Some(Entry::Notice(ref t)) if t == "questionnaire cancelled"));

    let unavailable = turn_end(
        TurnResult::QuestionnaireFailed {
            message: "questionnaire UI is unavailable".into(),
            text: "questionnaire failed: questionnaire UI is unavailable".into(),
        },
        0,
        true,
    );
    assert_eq!(unavailable.outcome, TurnOutcome::Failed);
    assert!(
        matches!(unavailable.entry, Some(Entry::Error(ref t)) if t == "questionnaire failed: questionnaire UI is unavailable")
    );
}

#[test]
fn failed_turns_show_the_error() {
    let end = turn_end(TurnResult::Failed("provider error: 500".into()), 3, false);
    assert_eq!(end.outcome, TurnOutcome::Failed);
    assert!(matches!(end.entry, Some(Entry::Error(ref t)) if t == "provider error: 500"));
    assert_eq!(end.status, "error");
    assert!(!end.finish_streams);
}

#[test]
fn turn_content_separates_what_the_model_gets_from_what_is_kept() {
    match turn_content("expanded prompt", None, 2) {
        UserContent::Same(blocks) => assert_eq!(
            blocks,
            vec![TurnBlock::Text("expanded prompt".into()), TurnBlock::Image(0), TurnBlock::Image(1)]
        ),
        UserContent::Separate { .. } => panic!("expected one content"),
    }
    match turn_content("", Some("/goal tests pass"), 1) {
        UserContent::Separate { model, display } => {
            assert_eq!(model, vec![TurnBlock::Image(0)]);
            assert_eq!(display, vec![TurnBlock::Text("/goal tests pass".into()), TurnBlock::Image(0)]);
        }
        UserContent::Same(_) => panic!("expected separate contents"),
    }
}

#[test]
fn interrupts_wait_for_running_tool_calls() {
    assert!(interrupt_cancels(StreamControl::Interrupt, false));
    assert!(!interrupt_cancels(StreamControl::Interrupt, true));
    assert!(!interrupt_cancels(StreamControl::Continue, false));
    assert_eq!(questionnaire_reply_error(QuestionnaireReply::Answered), None);
    assert_eq!(
        questionnaire_reply_error(QuestionnaireReply::Cancelled).as_deref(),
        Some("questionnaire answer was cancelled")
    );
    assert_eq!(
        questionnaire_reply_error(QuestionnaireReply::Unavailable).as_deref(),
        Some("questionnaire UI is unavailable")
    );
}

use rho_tui::goal::{evaluation_json, format_elapsed, goal_evaluation, goal_step, initial_goal_prompt, is_goal_clear_alias, tail_chars, EvaluationError, EvaluationOutcome, GoalAction, GoalEvaluation, GoalState};

#[test]
fn transcript_tail_is_unicode_safe() {
    assert_eq!(
        tail_chars("a项目bc", 3),
        "[earlier transcript omitted]\n目bc"
    );
}

#[test]
fn formats_elapsed_time() {
    assert_eq!(format_elapsed(9), "9s");
    assert_eq!(format_elapsed(125), "2m 5s");
    assert_eq!(format_elapsed(3_720), "1h 2m");
}

#[test]
fn initial_prompt_identifies_goal_setting_action() {
    assert_eq!(
        initial_goal_prompt("all tests pass"),
        "The user invoked Rho's `/goal` command to set the following completion goal. Treat this as a goal-setting action, not as an ordinary conversational message or a claim that the goal is already complete.\n\nGoal:\nall tests pass\n\nBegin working toward the goal now. Make concrete progress, use tools as needed, and verify the completion condition before stopping."
    );
}

#[test]
fn clear_aliases_are_case_insensitive() {
    for alias in ["clear", "STOP", "off", "reset", "none", "cancel"] {
        assert!(is_goal_clear_alias(alias), "{alias}");
    }
    assert!(!is_goal_clear_alias("finish the work"));
}

#[test]
fn evaluation_json_keeps_a_plain_object() {
    assert_eq!(
        evaluation_json(r#"  {"met":true,"reason":"tests pass"}  "#).unwrap(),
        r#"{"met":true,"reason":"tests pass"}"#
    );
}

#[test]
fn evaluation_json_cuts_a_fenced_object() {
    assert_eq!(
        evaluation_json("```json\n{\"met\":false,\"reason\":\"lint still fails\"}\n```").unwrap(),
        "{\"met\":false,\"reason\":\"lint still fails\"}"
    );
}

#[test]
fn evaluation_json_without_braces_is_refused() {
    assert_eq!(
        evaluation_json("no verdict here").unwrap_err(),
        EvaluationError::MissingJsonObject
    );
    assert_eq!(
        evaluation_json("{ only an opening brace").unwrap_err(),
        EvaluationError::MissingJsonObject
    );
}

#[test]
fn goal_evaluation_trims_the_reason() {
    let evaluation = goal_evaluation(true, "  tests pass \n").unwrap();
    assert!(evaluation.met);
    assert_eq!(evaluation.reason, "tests pass");
}

#[test]
fn goal_evaluation_without_a_reason_is_refused() {
    assert_eq!(
        goal_evaluation(false, "  ").unwrap_err(),
        EvaluationError::EmptyReason
    );
}

fn active_goal(turns: usize) -> GoalState {
    GoalState {
        condition: "tests pass".to_string(),
        turns,
        last_reason: None,
        started_at: 1_000_000_000,
    }
}

#[test]
fn goal_step_continues_until_the_goal_is_met() {
    let verdict = GoalEvaluation { met: false, reason: "one test fails".to_string() };
    let (goal, action) = goal_step(Some(active_goal(0)), EvaluationOutcome::Answered(verdict), 5_000_000_000);
    let goal = goal.expect("goal stays active");
    assert_eq!(goal.turns, 1);
    assert_eq!(goal.last_reason.as_deref(), Some("one test fails"));
    let GoalAction::Continue { notice, prompt } = action else {
        panic!("expected another turn");
    };
    assert_eq!(notice, "goal not yet met: one test fails");
    assert_eq!(
        prompt,
        "Continue working toward this goal:\n\ntests pass\n\nThe goal evaluator says it is not yet met: one test fails\n\nMake concrete progress and verify the completion condition before stopping."
    );

    let verdict = GoalEvaluation { met: true, reason: "all green".to_string() };
    let (goal, action) = goal_step(Some(goal), EvaluationOutcome::Answered(verdict), 126_000_000_000);
    assert!(goal.is_none());
    assert!(matches!(
        action,
        GoalAction::Achieved { notice, status }
            if notice == "goal achieved after 2 turn(s) and 2m 5s: all green" && status == "goal achieved"
    ));
}

#[test]
fn goal_step_keeps_the_goal_when_evaluation_fails() {
    let (goal, action) =
        goal_step(Some(active_goal(3)), EvaluationOutcome::Failed("goal evaluation timed out".to_string()), 0);
    assert_eq!(goal.map(|g| g.turns), Some(3));
    assert!(matches!(
        action,
        GoalAction::Fail { error, status }
            if error == "goal evaluation failed; goal remains active: goal evaluation timed out"
                && status == "goal evaluation failed"
    ));
}

#[test]
fn goal_step_stops_when_cancelled_or_without_a_goal() {
    let (goal, action) = goal_step(Some(active_goal(1)), EvaluationOutcome::Cancelled, 0);
    assert!(goal.is_none());
    assert!(matches!(action, GoalAction::Stop));
    let (goal, action) = goal_step(None, EvaluationOutcome::Failed("x".to_string()), 0);
    assert!(goal.is_none());
    assert!(matches!(action, GoalAction::Stop));
}

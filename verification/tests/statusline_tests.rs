use rho_tui::statusline::{goal_indicator, render_row, statusline_rows, BillingInfo, GoalStatus, StatusLineState};
use rho_tui::usage::{ModelMetadata, ModelUsage};
use rho_tui::width::display_width;

fn test_state(usage: ModelUsage) -> StatusLineState {
    StatusLineState {
        cwd: "/tmp/project".into(),
        branch: None,
        status: "ready".into(),
        usage: Some(usage),
        latest_usage: Some(usage),
        context_usage: None,
        provider: "openai".into(),
        model: "gpt-test".into(),
        reasoning: "low".into(),
        billing: BillingInfo::Metered,
        model_metadata: Some(ModelMetadata::default()),
        model_metadata_loading: false,
    }
}

#[test]
fn statusline_statusline_rows_use_display_width_for_alignment() {
    let text = render_row("项目", "模型", 10);

    assert_eq!(display_width(&text), 10);
}

#[test]
fn statusline_tests_statusline_rows_use_display_width_for_alignment() {
    let text = render_row("项目", "模型", 10);

    assert_eq!(display_width(&text), 10);
}

#[test]
fn statusline_shows_active_goal_indicator() {
    let state = test_state(ModelUsage::default());
    let goal = GoalStatus {
        turns: 2,
        elapsed_seconds: 65,
    };

    let lines = statusline_rows(&state, "", 80, Some(goal));
    let text = &lines[0];

    assert!(text.contains("◎ /goal active • 2 turns • 1m 5s"), "{text}");
}

#[test]
fn rows_space_out_or_cut_their_texts() {
    assert_eq!(render_row("left", "right", 12), "left   right");
    assert_eq!(render_row("left", "", 3), "le…");
    let cut = render_row("a long left text", "right side", 12);
    assert_eq!(cut, "a lo… right…");
    assert_eq!(goal_indicator(GoalStatus { turns: 1, elapsed_seconds: 7 }), "◎ /goal active • 1 turns • 7s");
}

#[test]
fn statusline_rows_show_directory_usage_and_status() {
    let state = test_state(ModelUsage::default());
    let rows = statusline_rows(&state, "↑1.0k", 40, None);
    assert_eq!(rows.len(), 3);
    assert_eq!(rows[0], "/tmp/project");
    assert!(rows[1].starts_with("↑1.0k"));
    assert!(rows[1].ends_with("(openai) gpt-test • low"));
    assert_eq!(display_width(&rows[1]), 40);
    assert_eq!(rows[2], "ready");
}

use rho_tui::config_picker::{config_number_key_action, config_number_saved_notice, ConfigNumberSave, NumberKeyAction};
use rho_tui::prompt_input::{KeyCode, KeyPress};
use rho_tui::model_picker::{model_picker, title_model_picker, ModelEntry};
use rho_tui::composer::LoginTarget;
use rho_tui::picker::{
    fuzzy_match_score, fuzzy_rank, logout_provider_picker, provider_picker_for_targets, PickerAction, PickerItem,
    UiPicker,
};

fn item(value: &str) -> PickerItem {
    PickerItem {
        label: value.into(),
        detail: None,
        preview: None,
        badge: None,
        value: value.into(),
    }
}

#[test]
fn picker_selection_wraps() {
    let mut picker = UiPicker::new(
        "select model",
        "enter confirm",
        vec![
            PickerItem {
                label: "model-a".into(),
                detail: None,
                preview: None,
                badge: None,
                value: "model-a".into(),
            },
            PickerItem {
                label: "model-b".into(),
                detail: None,
                preview: None,
                badge: None,
                value: "model-b".into(),
            },
        ],
        PickerAction::SelectModel,
    );

    picker.select_previous();
    assert_eq!(picker.selected_item().unwrap().value, "model-b");
    picker.select_next();
    assert_eq!(picker.selected_item().unwrap().value, "model-a");
}

#[test]
fn selecting_forward_then_back_returns_to_the_same_item() {
    let mut picker = UiPicker::new(
        "pick",
        "help",
        vec![item("one"), item("two"), item("three")],
        PickerAction::SelectModel,
    );
    for _ in 0..4 {
        let before = picker.selected_item().unwrap().value.clone();
        picker.select_next();
        picker.select_previous();
        assert_eq!(picker.selected_item().unwrap().value, before);
        picker.select_next();
    }
}

#[test]
fn filter_keeps_only_matching_items() {
    let mut picker = UiPicker::new(
        "pick",
        "help",
        vec![item("alpha"), item("beta"), item("gamma")],
        PickerAction::SelectModel,
    );
    picker.push_filter_char('b');
    assert_eq!(picker.matching_indices(), vec![1]);
    picker.pop_filter_char();
    assert_eq!(picker.matching_indices(), vec![0, 1, 2]);
}

#[test]
fn completing_the_filter_escapes_the_selected_value() {
    let mut picker = UiPicker::new(
        "pick",
        "help",
        vec![item("gpt-4.1"), item("other")],
        PickerAction::SelectModel,
    );
    picker.complete_filter();
    assert_eq!(picker.filter, "gpt\\-4\\.1");
    assert_eq!(picker.matching_indices(), vec![0]);
}

#[test]
fn fuzzy_scores_need_every_query_character_in_order() {
    assert!(fuzzy_match_score("model_picker.rs", "mpr").is_some());
    assert_eq!(fuzzy_match_score("model_picker.rs", "rpm"), None);
    assert_eq!(fuzzy_match_score("abc", "abcd"), None);
}

#[test]
fn fuzzy_rank_orders_best_first() {
    let texts = vec!["xxaxxbxx".to_string(), "ab".to_string(), "zzz".to_string()];
    let ranked = fuzzy_rank(&texts, "ab");
    assert_eq!(ranked, vec![1, 0]);
}

#[test]
fn provider_picker_lists_each_target() {
    let picker = provider_picker_for_targets(
        "login",
        PickerAction::LoginProvider,
        vec![
            LoginTarget {
                provider: "openai".into(),
                label: "OpenAI".into(),
            },
            LoginTarget {
                provider: "anthropic".into(),
                label: "Anthropic".into(),
            },
        ],
    );
    assert_eq!(picker.title, "select provider to login");
    let values = picker.items.iter().map(|item| item.value.as_str()).collect::<Vec<_>>();
    assert_eq!(values, vec!["openai", "anthropic"]);
    assert_eq!(picker.items[1].detail.as_deref(), Some("Anthropic"));
}

fn targets() -> Vec<LoginTarget> {
    ["openai", "openai-codex", "anthropic"]
        .iter()
        .map(|name| LoginTarget {
            provider: name.to_string(),
            label: name.to_uppercase(),
        })
        .collect()
}

#[test]
fn logout_provider_picker_uses_only_providers_with_stored_credentials() {
    let picker = logout_provider_picker::<String>(targets(), vec![Ok(true), Ok(false), Ok(true)]).unwrap();
    let values = picker.items.iter().map(|item| item.value.as_str()).collect::<Vec<_>>();
    assert_eq!(values, vec!["openai", "anthropic"]);
    assert_eq!(picker.title, "select provider to logout");
    assert_eq!(picker.action, PickerAction::LogoutProvider);
}

#[test]
fn logout_provider_picker_propagates_credential_store_errors() {
    // A store that fails every lookup.
    let failing: Vec<Result<bool, String>> = targets().iter().map(|_| Err("credential store unavailable: test failure".to_string())).collect();
    let error = logout_provider_picker(targets(), failing).unwrap_err();
    assert_eq!(error, "credential store unavailable: test failure");
}

#[test]
fn logout_picker_hands_back_the_first_store_failure() {
    let error = logout_provider_picker(
        targets(),
        vec![Ok(true), Err("store unavailable".to_string()), Err("later".to_string())],
    )
    .unwrap_err();
    assert_eq!(error, "store unavailable");
}

fn model_entry(provider: &str, model: &str, pinned: bool) -> ModelEntry {
    ModelEntry {
        provider: provider.to_string(),
        model: model.to_string(),
        pinned,
    }
}

#[test]
fn model_picker_selects_current_model_after_pinned_rows() {
    let entries = vec![
        model_entry("openai-codex", "gpt-5.4-mini", true),
        model_entry("openai-codex", "gpt-5.6-sol", false),
        model_entry("mistral", "large-test", false),
    ];
    let picker = model_picker("openai-codex", "gpt-5.6-sol", entries);
    assert_eq!(picker.title, "select model");
    assert_eq!(picker.items[0].value, "openai-codex/gpt-5.4-mini");
    assert_eq!(picker.selected_item().unwrap().value, "openai-codex/gpt-5.6-sol");
    assert_eq!(picker.items[0].badge.as_ref().unwrap().text, "pinned");
    assert_eq!(picker.items[1].badge.as_ref().unwrap().text, "selected");
    assert!(picker.items[2].badge.is_none());
    assert_eq!(
        picker.items[0].detail.as_deref(),
        Some("Press Ctrl-P to unpin this model.")
    );
    assert_eq!(
        picker.items[2].detail.as_deref(),
        Some("Press Ctrl-P to pin this model to the top of model pickers.")
    );
}

#[test]
fn title_model_picker_marks_pinned_selected_model() {
    let entries = vec![
        model_entry("mistral", "large-test", false),
        model_entry("openai-codex", "gpt-5.4-mini", true),
    ];
    let picker = title_model_picker("openai-codex", "gpt-5.4-mini", entries);
    assert_eq!(picker.title, "select title model");
    assert_eq!(picker.selected, 1);
    assert_eq!(picker.items[1].badge.as_ref().unwrap().text, "pinned, selected");
}

#[test]
fn model_picker_without_current_model_selects_first_row() {
    let entries = vec![model_entry("mistral", "large-test", false)];
    let picker = model_picker("openai", "missing", entries);
    assert_eq!(picker.selected, 0);
    assert!(picker.items[0].badge.is_none());
}

fn press(code: KeyCode) -> KeyPress {
    KeyPress { code, control: false, alt: false, shift: false, other: false }
}

#[test]
fn number_field_keys_save_edit_and_go_back() {
    assert_eq!(config_number_key_action(press(KeyCode::Enter)), NumberKeyAction::Save);
    assert_eq!(config_number_key_action(KeyPress { alt: true, ..press(KeyCode::Enter) }), NumberKeyAction::Ignore);
    assert_eq!(config_number_key_action(press(KeyCode::Char('7'))), NumberKeyAction::Insert('7'));
    assert_eq!(config_number_key_action(KeyPress { shift: true, ..press(KeyCode::Char('%')) }), NumberKeyAction::Insert('%'));
    assert_eq!(config_number_key_action(KeyPress { control: true, ..press(KeyCode::Char('a')) }), NumberKeyAction::Ignore);
    assert_eq!(config_number_key_action(press(KeyCode::Backspace)), NumberKeyAction::Backspace);
    assert_eq!(config_number_key_action(KeyPress { control: true, ..press(KeyCode::Home) }), NumberKeyAction::Home);
    assert_eq!(config_number_key_action(press(KeyCode::Esc)), NumberKeyAction::Back);
    assert_eq!(config_number_key_action(press(KeyCode::Up)), NumberKeyAction::Ignore);
}

#[test]
fn saved_number_settings_are_announced() {
    assert_eq!(
        config_number_saved_notice(ConfigNumberSave::MaxOutputBytes(65536)),
        "max output bytes set to 65536; applies next session"
    );
    assert_eq!(config_number_saved_notice(ConfigNumberSave::MaxToolOutputLines(12)), "max tool output lines set to 12");
    assert_eq!(config_number_saved_notice(ConfigNumberSave::CompactThresholdPercent(80)), "compact threshold set to 80%");
    assert_eq!(config_number_saved_notice(ConfigNumberSave::CompactTargetPercent(40)), "compact target set to 40%");
}

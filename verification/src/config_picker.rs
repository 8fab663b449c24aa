//! Helpers of the configuration picker.
use vstd::prelude::*;
use crate::picker::{PickerAction, PickerBadge, PickerBadgeTone, PickerItem, UiPicker};
use crate::text::{decimal, decimal_string, push_str, str_eq, trim_seq, trimmed};
use crate::prompt_input::{KeyCode, KeyPress};

verus! {

/// The web search backend that follows `current` in the cycle
/// auto → openai → exa → brave → disabled → auto; an unknown name goes to
/// auto.
pub open spec fn next_provider(current: Seq<char>) -> Seq<char> {
    if current == "auto"@ {
        "openai"@
    } else if current == "openai"@ {
        "exa"@
    } else if current == "exa"@ {
        "brave"@
    } else if current == "brave"@ {
        "disabled"@
    } else {
        "auto"@
    }
}

/// The web search backend selected after `current` when the setting is
/// cycled.
pub fn next_web_search_provider(current: &str) -> (next: &'static str)
    ensures
        next@ == next_provider(current@),
{
    if str_eq(current, "auto") {
        "openai"
    } else if str_eq(current, "openai") {
        "exa"
    } else if str_eq(current, "exa") {
        "brave"
    } else if str_eq(current, "brave") {
        "disabled"
    } else {
        "auto"
    }
}

/// Whether a stored secret counts as set: present and not blank.
pub open spec fn secret_is_set(value: Option<Seq<char>>) -> bool {
    value matches Some(v) && trim_seq(v).len() > 0
}

pub open spec fn opt_view(value: Option<&str>) -> Option<Seq<char>> {
    match value {
        Some(v) => Some(v@),
        None => None,
    }
}

/// The badge of a secret setting: "set" when a non-blank value is stored,
/// else "unset".
pub fn secret_badge(value: Option<&str>) -> (b: PickerBadge)
    ensures
        b.text@ == if secret_is_set(opt_view(value)) {
            "set"@
        } else {
            "unset"@
        },
        b.tone == PickerBadgeTone::Selected,
{
    let set = match value {
        Some(v) => trimmed(v).len() > 0,
        None => false,
    };
    PickerBadge {
        text: if set {
            String::from_str("set")
        } else {
            String::from_str("unset")
        },
        tone: PickerBadgeTone::Selected,
    }
}

/// The value of the reasoning row.
pub const REASONING_VALUE: &'static str = "reasoning";
/// The value of the row that shows or hides reasoning output.
pub const SHOW_REASONING_OUTPUT_VALUE: &'static str = "show_reasoning_output";
/// The value of the update-check row.
pub const CHECK_FOR_UPDATES_VALUE: &'static str = "check_for_updates";
/// The value of the output-size row.
pub const MAX_OUTPUT_BYTES_VALUE: &'static str = "max_output_bytes";
/// The value of the collapsed-output row.
pub const MAX_TOOL_OUTPUT_LINES_VALUE: &'static str = "max_tool_output_lines";
/// The value of the row that opens the web search settings.
pub const WEB_SEARCH_VALUE: &'static str = "web_search";
/// The value of the row that goes back to the main settings.
pub const WEB_SEARCH_BACK_VALUE: &'static str = "web_search_back";
/// The value of the web search backend row.
pub const WEB_SEARCH_PROVIDER_VALUE: &'static str = "web_search_provider";
/// The value of the OpenAI key row.
pub const WEB_SEARCH_OPENAI_KEY_VALUE: &'static str = "web_search_openai_api_key";
/// The value of the Exa key row.
pub const WEB_SEARCH_EXA_KEY_VALUE: &'static str = "web_search_exa_api_key";
/// The value of the Brave key row.
pub const WEB_SEARCH_BRAVE_KEY_VALUE: &'static str = "web_search_brave_api_key";

/// Whether `item` is the row with this label, detail, badge text (in the
/// selected tone) and value, and no preview.
pub open spec fn row_is(
    item: PickerItem,
    label: Seq<char>,
    detail: Option<Seq<char>>,
    badge: Option<Seq<char>>,
    value: Seq<char>,
) -> bool {
    &&& item.label@ == label
    &&& match detail {
        Some(d) => item.detail matches Some(t) && t@ == d,
        None => item.detail is None,
    }
    &&& item.preview is None
    &&& match badge {
        Some(b) => item.badge matches Some(x) && x.text@ == b && x.tone == PickerBadgeTone::Selected,
        None => item.badge is None,
    }
    &&& item.value@ == value
}

fn row(label: &str, detail: Option<String>, badge: Option<String>, value: &str) -> (item: PickerItem)
    ensures
        row_is(
            item,
            label@,
            match detail {
                Some(d) => Some(d@),
                None => None,
            },
            match badge {
                Some(b) => Some(b@),
                None => None,
            },
            value@,
        ),
{
    PickerItem {
        label: String::from_str(label),
        detail,
        preview: None,
        badge: match badge {
            Some(text) => Some(PickerBadge { text, tone: PickerBadgeTone::Selected }),
            None => None,
        },
        value: String::from_str(value),
    }
}

/// The settings picker: reasoning (with the level after it), whether
/// reasoning output is shown, the update check, the tool output limits and
/// the web search backend, each with its current value as a badge.
pub fn config_picker(
    reasoning: &str,
    next_reasoning: &str,
    show_reasoning_output: bool,
    check_for_updates: bool,
    max_output_bytes: usize,
    max_tool_output_lines: usize,
    web_search_provider: &str,
) -> (p: UiPicker)
    ensures
        p.title@ == "Config"@,
        p.help@ == "type regex filter, enter change, esc cancel"@,
        p.action == PickerAction::Config,
        p.selected == 0,
        p.filter@.len() == 0,
        p.items@.len() == 6,
        row_is(
            p.items@[0],
            "Reasoning"@,
            Some("Controls model reasoning. Current: "@ + reasoning@ + "; Enter cycles to "@ + next_reasoning@ + "."@),
            Some(reasoning@),
            "reasoning"@,
        ),
        row_is(
            p.items@[1],
            "Show reasoning output"@,
            Some("Controls whether model reasoning text is shown in the TUI. Applies next turn."@),
            Some(if show_reasoning_output { "shown"@ } else { "hidden"@ }),
            "show_reasoning_output"@,
        ),
        row_is(
            p.items@[2],
            "Check for updates"@,
            Some("Checks GitHub releases at startup and shows an update notice in the header when available."@),
            Some(if check_for_updates { "on"@ } else { "off"@ }),
            "check_for_updates"@,
        ),
        row_is(
            p.items@[3],
            "Max output bytes"@,
            Some("Maximum tool output retained in context. Saved for next session."@),
            Some(decimal(max_output_bytes as nat)),
            "max_output_bytes"@,
        ),
        row_is(
            p.items@[4],
            "Max tool output lines"@,
            Some("Maximum collapsed tool output lines shown in the TUI."@),
            Some(decimal(max_tool_output_lines as nat)),
            "max_tool_output_lines"@,
        ),
        row_is(
            p.items@[5],
            "Web search"@,
            Some("Configure web_search backend and API keys."@),
            Some(web_search_provider@),
            "web_search"@,
        ),
{
    let mut detail = String::from_str("Controls model reasoning. Current: ");
    push_str(&mut detail, reasoning);
    push_str(&mut detail, "; Enter cycles to ");
    push_str(&mut detail, next_reasoning);
    push_str(&mut detail, ".");
    let mut items: Vec<PickerItem> = Vec::new();
    items.push(row("Reasoning", Some(detail), Some(String::from_str(reasoning)), REASONING_VALUE));
    items.push(
        row(
            "Show reasoning output",
            Some(String::from_str("Controls whether model reasoning text is shown in the TUI. Applies next turn.")),
            Some(
                String::from_str(
                    if show_reasoning_output {
                        "shown"
                    } else {
                        "hidden"
                    },
                ),
            ),
            SHOW_REASONING_OUTPUT_VALUE,
        ),
    );
    items.push(
        row(
            "Check for updates",
            Some(
                String::from_str(
                    "Checks GitHub releases at startup and shows an update notice in the header when available.",
                ),
            ),
            Some(
                String::from_str(
                    if check_for_updates {
                        "on"
                    } else {
                        "off"
                    },
                ),
            ),
            CHECK_FOR_UPDATES_VALUE,
        ),
    );
    items.push(
        row(
            "Max output bytes",
            Some(String::from_str("Maximum tool output retained in context. Saved for next session.")),
            Some(decimal_string(max_output_bytes as u64)),
            MAX_OUTPUT_BYTES_VALUE,
        ),
    );
    items.push(
        row(
            "Max tool output lines",
            Some(String::from_str("Maximum collapsed tool output lines shown in the TUI.")),
            Some(decimal_string(max_tool_output_lines as u64)),
            MAX_TOOL_OUTPUT_LINES_VALUE,
        ),
    );
    items.push(
        row(
            "Web search",
            Some(String::from_str("Configure web_search backend and API keys.")),
            Some(String::from_str(web_search_provider)),
            WEB_SEARCH_VALUE,
        ),
    );
    proof {
        reveal_strlit("reasoning");
        reveal_strlit("show_reasoning_output");
        reveal_strlit("check_for_updates");
        reveal_strlit("max_output_bytes");
        reveal_strlit("max_tool_output_lines");
        reveal_strlit("web_search");
    }
    UiPicker::new("Config", "type regex filter, enter change, esc cancel", items, PickerAction::Config)
}

/// The web search settings: a row back to the main settings, the backend
/// (with the one after it) and the three API keys, shown as set or unset.
pub fn web_search_config_picker(
    provider: &str,
    openai_api_key: Option<&str>,
    exa_api_key: Option<&str>,
    brave_api_key: Option<&str>,
) -> (p: UiPicker)
    ensures
        p.title@ == "Web search config"@,
        p.help@ == "type regex filter, enter change, esc back"@,
        p.action == PickerAction::Config,
        p.selected == 0,
        p.filter@.len() == 0,
        p.items@.len() == 5,
        row_is(p.items@[0], "Back to config"@, Some("Return to the main config menu."@), None, "web_search_back"@),
        row_is(
            p.items@[1],
            "Provider"@,
            Some("Backend for web_search. Current: "@ + provider@ + "; Enter cycles to "@ + next_provider(provider@) + "."@),
            Some(provider@),
            "web_search_provider"@,
        ),
        row_is(
            p.items@[2],
            "OpenAI API key"@,
            Some("Optional key for OpenAI web search. Codex login is used automatically when available."@),
            Some(if secret_is_set(opt_view(openai_api_key)) { "set"@ } else { "unset"@ }),
            "web_search_openai_api_key"@,
        ),
        row_is(
            p.items@[3],
            "Exa API key"@,
            Some("Optional Exa API key. Without one, Exa hosted MCP is used."@),
            Some(if secret_is_set(opt_view(exa_api_key)) { "set"@ } else { "unset"@ }),
            "web_search_exa_api_key"@,
        ),
        row_is(
            p.items@[4],
            "Brave API key"@,
            Some("Optional Brave Search API key used by the brave backend."@),
            Some(if secret_is_set(opt_view(brave_api_key)) { "set"@ } else { "unset"@ }),
            "web_search_brave_api_key"@,
        ),
{
    let mut detail = String::from_str("Backend for web_search. Current: ");
    push_str(&mut detail, provider);
    push_str(&mut detail, "; Enter cycles to ");
    push_str(&mut detail, next_web_search_provider(provider));
    push_str(&mut detail, ".");
    let mut items: Vec<PickerItem> = Vec::new();
    items.push(row("Back to config", Some(String::from_str("Return to the main config menu.")), None, WEB_SEARCH_BACK_VALUE));
    items.push(row("Provider", Some(detail), Some(String::from_str(provider)), WEB_SEARCH_PROVIDER_VALUE));
    items.push(
        row(
            "OpenAI API key",
            Some(
                String::from_str(
                    "Optional key for OpenAI web search. Codex login is used automatically when available.",
                ),
            ),
            Some(secret_badge(openai_api_key).text),
            WEB_SEARCH_OPENAI_KEY_VALUE,
        ),
    );
    items.push(
        row(
            "Exa API key",
            Some(String::from_str("Optional Exa API key. Without one, Exa hosted MCP is used.")),
            Some(secret_badge(exa_api_key).text),
            WEB_SEARCH_EXA_KEY_VALUE,
        ),
    );
    items.push(
        row(
            "Brave API key",
            Some(String::from_str("Optional Brave Search API key used by the brave backend.")),
            Some(secret_badge(brave_api_key).text),
            WEB_SEARCH_BRAVE_KEY_VALUE,
        ),
    );
    proof {
        reveal_strlit("web_search_back");
        reveal_strlit("web_search_provider");
        reveal_strlit("web_search_openai_api_key");
        reveal_strlit("web_search_exa_api_key");
        reveal_strlit("web_search_brave_api_key");
    }
    UiPicker::new("Web search config", "type regex filter, enter change, esc back", items, PickerAction::Config)
}

/// What a key does in the number field of a setting.
#[derive(Clone, Copy, Debug, PartialEq, Eq)]
pub enum NumberKeyAction {
    /// Save the number.
    Save,
    Backspace,
    Insert(char),
    Left,
    Right,
    Home,
    End,
    /// Go back to the settings list without saving.
    Back,
    /// Nothing.
    Ignore,
}

/// Whether no modifier is held.
pub open spec fn no_modifiers(k: KeyPress) -> bool {
    !k.control && !k.alt && !k.shift && !k.other
}

/// What `key` does in a number field: Enter saves and Backspace deletes
/// (with no modifier held), a character is typed (with at most shift
/// held), the arrows, Home and End move whatever is held, Esc goes back;
/// anything else does nothing.
pub open spec fn number_key_action(k: KeyPress) -> NumberKeyAction {
    match k.code {
        KeyCode::Enter => if no_modifiers(k) {
            NumberKeyAction::Save
        } else {
            NumberKeyAction::Ignore
        },
        KeyCode::Backspace => if no_modifiers(k) {
            NumberKeyAction::Backspace
        } else {
            NumberKeyAction::Ignore
        },
        KeyCode::Char(ch) => if !k.control && !k.alt && !k.other {
            NumberKeyAction::Insert(ch)
        } else {
            NumberKeyAction::Ignore
        },
        KeyCode::Left => NumberKeyAction::Left,
        KeyCode::Right => NumberKeyAction::Right,
        KeyCode::Home => NumberKeyAction::Home,
        KeyCode::End => NumberKeyAction::End,
        KeyCode::Esc => NumberKeyAction::Back,
        _ => NumberKeyAction::Ignore,
    }
}

/// What `key` does in the number field of a setting (see
/// `number_key_action`).
pub fn config_number_key_action(key: KeyPress) -> (a: NumberKeyAction)
    ensures
        a == number_key_action(key),
{
    let none = !key.control && !key.alt && !key.shift && !key.other;
    match key.code {
        KeyCode::Enter => if none {
            NumberKeyAction::Save
        } else {
            NumberKeyAction::Ignore
        },
        KeyCode::Backspace => if none {
            NumberKeyAction::Backspace
        } else {
            NumberKeyAction::Ignore
        },
        KeyCode::Char(ch) => if !key.control && !key.alt && !key.other {
            NumberKeyAction::Insert(ch)
        } else {
            NumberKeyAction::Ignore
        },
        KeyCode::Left => NumberKeyAction::Left,
        KeyCode::Right => NumberKeyAction::Right,
        KeyCode::Home => NumberKeyAction::Home,
        KeyCode::End => NumberKeyAction::End,
        KeyCode::Esc => NumberKeyAction::Back,
        _ => NumberKeyAction::Ignore,
    }
}

/// A number setting that was saved, with its new value.
#[derive(Clone, Copy, Debug, PartialEq, Eq)]
pub enum ConfigNumberSave {
    MaxOutputBytes(u64),
    MaxToolOutputLines(u64),
    CompactThresholdPercent(u64),
    CompactTargetPercent(u64),
}

/// The notice shown once a number setting is saved.
pub open spec fn saved_notice(saved: ConfigNumberSave) -> Seq<char> {
    match saved {
        ConfigNumberSave::MaxOutputBytes(v) => "max output bytes set to "@ + decimal(v as nat) + "; applies next session"@,
        ConfigNumberSave::MaxToolOutputLines(v) => "max tool output lines set to "@ + decimal(v as nat),
        ConfigNumberSave::CompactThresholdPercent(v) => "compact threshold set to "@ + decimal(v as nat) + "%"@,
        ConfigNumberSave::CompactTargetPercent(v) => "compact target set to "@ + decimal(v as nat) + "%"@,
    }
}

/// The notice shown once a number setting is saved (see `saved_notice`).
pub fn config_number_saved_notice(saved: ConfigNumberSave) -> (t: String)
    ensures
        t@ == saved_notice(saved),
{
    let mut t = String::new();
    match saved {
        ConfigNumberSave::MaxOutputBytes(v) => {
            push_str(&mut t, "max output bytes set to ");
            push_str(&mut t, decimal_string(v).as_str());
            push_str(&mut t, "; applies next session");
        },
        ConfigNumberSave::MaxToolOutputLines(v) => {
            push_str(&mut t, "max tool output lines set to ");
            push_str(&mut t, decimal_string(v).as_str());
        },
        ConfigNumberSave::CompactThresholdPercent(v) => {
            push_str(&mut t, "compact threshold set to ");
            push_str(&mut t, decimal_string(v).as_str());
            push_str(&mut t, "%");
        },
        ConfigNumberSave::CompactTargetPercent(v) => {
            push_str(&mut t, "compact target set to ");
            push_str(&mut t, decimal_string(v).as_str());
            push_str(&mut t, "%");
        },
    }
    t
}

} // verus!

use rho_tui::composer::{ContentBlock, ToolCall};
use rho_tui::message_history::{transcript_entries_from_messages, AbortedCall, HistoryMessage, RecoveredEntry};
use rho_tui::doctor::{clipboard_candidates, report, writability_line, AuthStatus, DoctorFacts};
use rho_tui::history::recovered_history_tail;
use rho_tui::wrap::{padded_inner_width, wrapped_text_rows};
use rho_tui::shell::{executable_name, shell_args_for_name, shell_command_args};
use rho_tui::transcript::{preview_lines, render_message_blocks, render_user_entry, MessageBlock};

fn facts() -> DoctorFacts {
    DoctorFacts {
        auths: vec![
            ("openai".to_string(), AuthStatus::Stored),
            ("anthropic".to_string(), AuthStatus::Missing),
            ("gemini".to_string(), AuthStatus::Environment),
            ("other".to_string(), AuthStatus::StoreError),
        ],
        provider: "openai".into(),
        model: "gpt-5".into(),
        model_available: true,
        config_path: "/home/me/.config/rho/config.toml".into(),
        config_writable: true,
        session_root: "/home/me/.local/rho".into(),
        sessions_writable: false,
        model_caches: vec![("ollama".to_string(), 1), ("lmstudio".to_string(), 0), ("vllm".to_string(), 12)],
        clipboard_helpers: vec!["wl-paste".to_string(), "xclip".to_string()],
        rtk_available: false,
        herdr_enabled: true,
        herdr_socket_reachable: Some(false),
    }
}

#[test]
fn doctor_report_lists_every_check() {
    assert_eq!(
        report(&facts()),
        vec![
            "rho doctor",
            "[ok] auth openai: ok (credential store)",
            "[warn] auth anthropic: missing",
            "[ok] auth gemini: ok (environment)",
            "[warn] auth other: error reading credential store",
            "[ok] selected model: openai/gpt-5 (available)",
            "[ok] config writable: yes (/home/me/.config/rho/config.toml)",
            "[warn] sessions writable: no (/home/me/.local/rho)",
            "[ok] model cache ollama: 1 model",
            "[warn] model cache lmstudio: 0 models",
            "[ok] model cache vllm: 12 models",
            "[ok] clipboard image helper: wl-paste, xclip",
            "[warn] rtk: unavailable",
            "[warn] Herdr: configured but socket missing",
        ]
    );
}

#[test]
fn doctor_report_without_helpers_or_herdr() {
    let mut f = facts();
    f.clipboard_helpers.clear();
    f.herdr_enabled = false;
    f.herdr_socket_reachable = None;
    f.rtk_available = true;
    let lines = report(&f);
    let n = lines.len();
    assert_eq!(lines[n - 3], "[warn] clipboard image helper: not found");
    assert_eq!(lines[n - 2], "[ok] rtk: available");
    assert_eq!(lines[n - 1], "[ok] Herdr: not configured");
}

#[test]
fn writability_line_reports_path() {
    assert_eq!(writability_line("config", false, "/x"), "[warn] config writable: no (/x)");
}

#[test]
fn clipboard_candidates_follow_the_platform() {
    assert_eq!(clipboard_candidates("linux"), vec!["wl-paste", "xclip"]);
    assert_eq!(clipboard_candidates("macos"), vec!["pngpaste"]);
    assert_eq!(clipboard_candidates("windows"), vec!["powershell"]);
    assert!(clipboard_candidates("freebsd").is_empty());
}

#[test]
fn shell_arguments_depend_on_the_program() {
    assert_eq!(shell_args_for_name("bash", "ls -la"), vec!["-lc", "ls -la"]);
    assert_eq!(shell_args_for_name("PowerShell.EXE", "dir"), vec!["-NoLogo", "-NoProfile", "-Command", "dir"]);
    assert_eq!(shell_args_for_name("cmd", "dir"), vec!["/C", "dir"]);
    assert_eq!(shell_command_args("/usr/bin/pwsh", "ls"), vec!["-NoLogo", "-NoProfile", "-Command", "ls"]);
    assert_eq!(shell_command_args("/bin/zsh", "ls"), vec!["-lc", "ls"]);
}

#[test]
fn recovered_history_tail_limits_initial_redraw() {
    let entries: Vec<String> = (0..10).map(|index| format!("message {index}")).collect();
    // A user entry draws its wrapped rows between two blank lines.
    let counts: Vec<usize> = entries
        .iter()
        .map(|text| wrapped_text_rows(text, padded_inner_width(80)).len() + 2)
        .collect();
    let tools = vec![false; entries.len()];

    let omitted = recovered_history_tail(&counts, &tools, 9);

    assert_eq!(omitted, 7);
    assert_eq!(&entries[omitted..], &["message 7", "message 8", "message 9"]);
}

#[test]
fn history_tail_keeps_the_newest_entries_that_fit() {
    let counts = vec![3; 10];
    let tools = vec![false; 10];
    assert_eq!(recovered_history_tail(&counts, &tools, 9), 7);
    assert_eq!(recovered_history_tail(&counts, &tools, 2), 9);
    assert_eq!(recovered_history_tail(&counts, &tools, 100), 0);
    assert_eq!(recovered_history_tail(&[], &[], 5), 0);
}

#[test]
fn history_tail_spaces_consecutive_tool_entries() {
    let counts = vec![2, 2, 2];
    let tools = vec![true, true, true];
    assert_eq!(recovered_history_tail(&counts, &tools, 4), 2);
    assert_eq!(recovered_history_tail(&counts, &tools, 5), 1);
    assert_eq!(recovered_history_tail(&counts, &tools, 8), 0);
}

#[test]
fn user_entries_list_their_images() {
    assert_eq!(
        render_user_entry("look at this", &["image/png, 3 KB".to_string(), "image/jpeg".to_string()]),
        "look at this\n[image 1: image/png, 3 KB]\n[image 2: image/jpeg]"
    );
    assert_eq!(render_user_entry("", &["x".to_string()]), "[image 1: x]");
    assert_eq!(render_user_entry("only text", &[]), "only text");
}

#[test]
fn message_blocks_skip_tool_calls() {
    let blocks = vec![
        MessageBlock::Text("hello".into()),
        MessageBlock::ToolCall,
        MessageBlock::Image("image/png".into()),
    ];
    assert_eq!(render_message_blocks(&blocks), "hello\n[image: image/png]");
}

#[test]
fn tool_previews_drop_blank_arguments() {
    assert_eq!(preview_lines("bash", "  "), vec!["bash"]);
    assert_eq!(preview_lines("bash", "{\"cmd\":\"ls\"}"), vec!["bash", "{\"cmd\":\"ls\"}"]);
}

#[test]
fn executable_name_takes_the_last_path_component() {
    assert_eq!(executable_name("/usr/bin/pwsh"), "pwsh");
    assert_eq!(executable_name("bash"), "bash");
    assert_eq!(executable_name(".."), "..");
    assert_eq!(shell_command_args("cmd.exe", "dir"), vec!["/C", "dir"]);
    assert_eq!(shell_command_args("pwsh", "ls"), vec!["-NoLogo", "-NoProfile", "-Command", "ls"]);
}

#[test]
fn saved_messages_become_transcript_entries() {
    let entries = transcript_entries_from_messages(&vec![
        HistoryMessage::System,
        HistoryMessage::User(vec![MessageBlock::Text("hello".into()), MessageBlock::Image("image/png 3 B".into())]),
        HistoryMessage::Assistant(vec![ContentBlock::Text("hi".into())]),
        HistoryMessage::Assistant(vec![ContentBlock::ToolCall(ToolCall {
            id: "call_1".into(),
            name: "read_file".into(),
            arguments: "{\"path\":\"src/main.rs\"}".into(),
        })]),
        HistoryMessage::ToolResult { ok: false, content: "missing file".into() },
    ]);

    assert_eq!(entries.len(), 3);
    assert!(matches!(entries[0], RecoveredEntry::User(ref text) if text == "hello\n[image: image/png 3 B]"));
    assert!(matches!(entries[1], RecoveredEntry::Assistant(ref text) if text == "hi"));
    assert!(matches!(
        entries[2],
        RecoveredEntry::ToolResult { ok: false, ref display_lines }
            if display_lines == &vec!["read_file".to_string(), "missing file".to_string()]
    ));
}

#[test]
fn interrupted_replies_and_unmatched_results_are_kept() {
    let entries = transcript_entries_from_messages(&vec![
        HistoryMessage::AbortedAssistant {
            content: vec![ContentBlock::Text("working".into())],
            last_tool_call: Some(AbortedCall { name: None, arguments: "{\"pa".into() }),
        },
        HistoryMessage::ToolResult { ok: true, content: "  ".into() },
    ]);
    assert_eq!(entries.len(), 4);
    assert!(matches!(entries[0], RecoveredEntry::Assistant(ref text) if text == "working"));
    assert!(matches!(entries[1], RecoveredEntry::AbortedTool(ref lines) if lines == &vec!["tool call", "{\"pa"]));
    assert!(matches!(entries[2], RecoveredEntry::Notice(ref text) if text == "model interrupted"));
    assert!(matches!(
        entries[3],
        RecoveredEntry::ToolResult { ok: true, ref display_lines } if display_lines == &vec!["tool"]
    ));
}

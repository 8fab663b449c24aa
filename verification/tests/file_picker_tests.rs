use rho_tui::file_picker::{display_dir_prefix, typed_scope_form, user_path_plan, PathPart, ScopeForm, UserPathPlan};
use rho_tui::file_picker::{
    active_file_mention, file_palette_scroll_counts, file_palette_scroll_footer, fuzzy_matching_paths,
    path_is_before, scoped_file_matches, sort_file_paths, FileMention, MAX_RANKED_FILE_MATCHES,
};

#[test]
fn finds_mention_at_cursor() {
    assert_eq!(
        active_file_mention("review @src/tu please", 14),
        Some(FileMention {
            start: 7,
            end: 14,
            query: "src/tu".into(),
        })
    );
}

#[test]
fn mention_at_mid_token_replaces_through_token_end() {
    assert_eq!(
        active_file_mention("review @src/lib.rs later", 11),
        Some(FileMention {
            start: 7,
            end: 18,
            query: "src".into(),
        })
    );
}

#[test]
fn mention_starts_after_newline() {
    assert_eq!(
        active_file_mention("review\n@src", 11),
        Some(FileMention {
            start: 7,
            end: 11,
            query: "src".into(),
        })
    );
}

#[test]
fn text_after_mention_is_not_part_of_query() {
    assert_eq!(active_file_mention("review @src later", 17), None);
}

#[test]
fn email_like_tokens_do_not_open_file_mentions() {
    assert_eq!(active_file_mention("email a@b", 9), None);
}

#[test]
fn fuzzy_matching_prefers_path_component_boundaries() {
    let paths = vec![
        "src/tui/model_picker.rs".to_string(),
        "AGENTS.md".to_string(),
    ];
    let matches = fuzzy_matching_paths(&paths, "tmd");
    assert_eq!(
        matches,
        vec![
            "src/tui/model_picker.rs".to_string(),
            "AGENTS.md".to_string()
        ]
    );
}

#[test]
fn ranked_matches_are_capped_for_weak_queries() {
    let paths = (0..(MAX_RANKED_FILE_MATCHES + 50))
        .map(|index| format!("file-{index:04}.rs"))
        .collect::<Vec<_>>();
    let matches = fuzzy_matching_paths(&paths, "file");
    assert_eq!(matches.len(), MAX_RANKED_FILE_MATCHES);
    assert!(matches[0].starts_with("file-"));
}

#[test]
fn scroll_counts_track_hidden_rows_above_and_below() {
    assert_eq!(file_palette_scroll_counts(12, 0, 5), (0, 0, 7));
    assert_eq!(file_palette_scroll_counts(12, 4, 5), (0, 0, 7));
    assert_eq!(file_palette_scroll_counts(12, 5, 5), (1, 1, 6));
    assert_eq!(file_palette_scroll_counts(12, 11, 5), (7, 7, 0));
}

#[test]
fn scroll_footer_only_when_overflow_exists() {
    assert_eq!(file_palette_scroll_footer(0, 0, 5), None);
    assert_eq!(
        file_palette_scroll_footer(2, 0, 7),
        Some("↑ 2 more · 7 total".into())
    );
    assert_eq!(
        file_palette_scroll_footer(0, 4, 9),
        Some("↓ 4 more · 9 total".into())
    );
    assert_eq!(
        file_palette_scroll_footer(3, 8, 16),
        Some("↑ 3 more · ↓ 8 more · 16 total".into())
    );
}

#[test]
fn blank_query_keeps_every_path() {
    let paths = vec!["b.rs".to_string(), "a.rs".to_string()];
    assert_eq!(fuzzy_matching_paths(&paths, "   "), paths);
}

#[test]
fn scoped_matches_carry_the_display_prefix() {
    let paths = vec!["lib.rs".to_string(), "main.rs".to_string(), "nested/mod.rs".to_string()];
    assert_eq!(
        scoped_file_matches(&paths, "", "src/"),
        vec!["src/lib.rs", "src/main.rs", "src/nested/mod.rs"]
    );
    assert_eq!(scoped_file_matches(&paths, "main", "src/"), vec!["src/main.rs"]);
}

#[test]
fn workspace_paths_sort_case_insensitively_then_by_text() {
    let paths = vec![
        "src/lib.rs".to_string(),
        "README.md".to_string(),
        "docs/guide.md".to_string(),
        "Cargo.toml".to_string(),
        "cargo.lock".to_string(),
        "a.rs".to_string(),
    ];
    let sorted = sort_file_paths(paths.clone());
    assert_eq!(
        sorted,
        vec!["a.rs", "cargo.lock", "Cargo.toml", "docs/guide.md", "README.md", "src/lib.rs"]
    );
    let mut again = sort_file_paths(sorted.clone());
    assert_eq!(again, sorted);
    again.reverse();
    assert_eq!(sort_file_paths(again), sorted);
}

#[test]
fn path_order_breaks_case_ties_by_text() {
    assert!(path_is_before("Abc", "abc"));
    assert!(!path_is_before("abc", "Abc"));
    assert!(!path_is_before("abc", "abc"));
    assert!(path_is_before("ab", "abc"));
    assert!(path_is_before("README", "src"));
}

fn parts(names: &[&str]) -> Vec<PathPart> {
    let mut v = vec![PathPart::Root];
    for name in names {
        v.push(PathPart::Normal(name.to_string()));
    }
    v
}

#[test]
fn scoped_prefix_keeps_the_form_the_query_was_typed_in() {
    let dir = parts(&["home", "me", "project", "src"]);
    let home_rel = vec![PathPart::Normal("project".into()), PathPart::Normal("src".into())];
    // relative query inside home stays relative
    let form = typed_scope_form("src", false);
    assert_eq!(form, ScopeForm::Relative);
    assert_eq!(display_dir_prefix(form, Some(&home_rel), Some("src"), &dir), "src/");
    // home query keeps the home form
    let form = typed_scope_form("~/project/src", false);
    assert_eq!(form, ScopeForm::Home);
    assert_eq!(display_dir_prefix(form, Some(&home_rel), Some("src"), &dir), "~/project/src/");
    // absolute query stays absolute
    let logs = parts(&["tmp", "root", "logs"]);
    let form = typed_scope_form("/tmp/root/logs", true);
    assert_eq!(form, ScopeForm::Absolute);
    assert_eq!(display_dir_prefix(form, None, Some("../logs"), &logs), "/tmp/root/logs/");
    // parent-relative query stays relative
    assert_eq!(display_dir_prefix(ScopeForm::Relative, None, Some("../sibling"), &dir), "../sibling/");
    // the working directory itself shows no prefix
    assert_eq!(display_dir_prefix(ScopeForm::Relative, None, Some("."), &dir), "");
    assert_eq!(typed_scope_form("~", false), ScopeForm::Home);
}

#[test]
fn typed_directories_resolve_against_home_or_the_working_directory() {
    assert!(matches!(user_path_plan("~", true, false), UserPathPlan::Home));
    assert!(matches!(user_path_plan("~", false, false), UserPathPlan::AsTyped));
    match user_path_plan("~/docs", true, false) {
        UserPathPlan::HomeJoin(rest) => assert_eq!(rest, "docs"),
        other => panic!("unexpected plan {other:?}"),
    }
    assert!(matches!(user_path_plan("~/docs", false, false), UserPathPlan::AsTyped));
    assert!(matches!(user_path_plan("/var/log", true, true), UserPathPlan::AsTyped));
    assert!(matches!(user_path_plan("src", true, false), UserPathPlan::CwdJoin));
}

#[test]
fn hidden_paths_are_offered_only_when_the_query_mentions_a_dot() {
    let paths: Vec<String> = [".cache/nested/tmp.bin", ".cache/secret.bin", ".gitignore", "docs/guide.md", "README.md"]
        .iter()
        .map(|p| p.to_string())
        .collect();
    assert_eq!(rho_tui::file_picker::skip_hidden_paths(&paths, ""), vec!["docs/guide.md", "README.md"]);
    assert_eq!(rho_tui::file_picker::skip_hidden_paths(&paths, "giti"), vec!["docs/guide.md", "README.md"]);
    assert_eq!(rho_tui::file_picker::skip_hidden_paths(&paths, ".giti"), paths);
    let nested: Vec<String> = vec!["docs/.draft/x.md".to_string(), "docs/a.b".to_string()];
    assert_eq!(rho_tui::file_picker::skip_hidden_paths(&nested, "doc"), vec!["docs/a.b"]);
    // Inside a scope such as `.cache/`, paths are taken relative to it.
    let scoped: Vec<String> = vec!["nested/tmp.bin".to_string(), "secret.bin".to_string()];
    assert_eq!(rho_tui::file_picker::skip_hidden_paths(&scoped, ""), scoped);
}

use rho_tui::event_adapter::{
    Completion, Operation, RunEvent, SdkEventAdapter, ToolFacts, ToolStyleOf, ViewEvent, ViewModelEvent,
};
use rho_tui::usage::ModelUsage;

fn facts(paths: &[&str], diff: Option<&str>, operation: Operation) -> ToolFacts {
    ToolFacts {
        command: None,
        paths: paths.iter().map(|p| p.to_string()).collect(),
        urls: Vec::new(),
        diff: diff.map(str::to_string),
        operation,
    }
}

#[test]
fn translates_streaming_and_usage_events_without_rendering_state() {
    let mut adapter = SdkEventAdapter::new();

    assert!(matches!(
        adapter.translate(RunEvent::<()>::AssistantTextDelta("hello".into())),
        ViewEvent::Update(ViewModelEvent::OutputDelta(text)) if text == "hello"
    ));
    let usage = ModelUsage {
        output_tokens: Some(3),
        ..ModelUsage::default()
    };
    assert!(matches!(
        adapter.translate(RunEvent::<()>::UsageUpdated(usage)),
        ViewEvent::Update(ViewModelEvent::Usage(translated)) if translated == usage
    ));
}

#[test]
fn retains_structured_tool_metadata_until_completion() {
    let mut adapter = SdkEventAdapter::new();
    let _ = adapter.translate(RunEvent::<()>::ToolProposed {
        id: "call-1".into(),
        name: "edit_file".into(),
        arguments: Some("{\"path\":\"src/lib.rs\"}".into()),
    });
    let _ = adapter.translate(RunEvent::<()>::ToolStarted {
        call_id: "call-1".into(),
        name: "edit_file".into(),
        facts: facts(&[], None, Operation::Other),
    });
    let output_facts = facts(
        &["src/lib.rs"],
        Some("--- a/src/lib.rs\n+++ b/src/lib.rs\n@@ -1 +1 @@\n-old\n+new\n"),
        Operation::Unset,
    );

    let ViewEvent::Update(ViewModelEvent::ToolFinished { ok, display_lines, .. }) =
        adapter.translate(RunEvent::<()>::ToolFinished {
            call_id: "call-1".into(),
            result: Completion::Success { content: "updated".into(), facts: output_facts },
        })
    else {
        panic!("expected translated tool completion");
    };

    assert!(ok);
    assert_eq!(display_lines, vec!["edit_file src/lib.rs", "-old\n+new"]);
}

#[test]
fn proposed_and_started_tools_show_their_arguments_until_they_finish() {
    let mut adapter = SdkEventAdapter::new();
    let proposed = adapter.translate(RunEvent::<()>::ToolProposed {
        id: "call-1".into(),
        name: "edit_file".into(),
        arguments: Some("{\"path\":\"src/lib.rs\"}".into()),
    });
    assert!(matches!(
        proposed,
        ViewEvent::Update(ViewModelEvent::ToolCallUpdated { display_lines })
            if display_lines == vec!["edit_file", "{\"path\":\"src/lib.rs\"}"]
    ));
    let started = adapter.translate(RunEvent::<()>::ToolStarted {
        call_id: "call-1".into(),
        name: "edit_file".into(),
        facts: facts(&[], None, Operation::Other),
    });
    assert!(matches!(
        started,
        ViewEvent::Update(ViewModelEvent::ToolStarted { name, command: None, style: ToolStyleOf::Named(style_name), display_lines })
            if name == "edit_file" && style_name == "edit_file"
                && display_lines == vec!["edit_file", "{\"path\":\"src/lib.rs\"}"]
    ));
    let _ = adapter.translate(RunEvent::<()>::ToolFinished {
        call_id: "call-1".into(),
        result: Completion::Success { content: "updated".into(), facts: ToolFacts::none() },
    });

    // The call is forgotten once it finished.
    let again = adapter.translate(RunEvent::<()>::ToolFinished {
        call_id: "call-1".into(),
        result: Completion::Unavailable,
    });
    assert!(matches!(
        again,
        ViewEvent::Update(ViewModelEvent::ToolFinished { ok: false, display_lines, .. })
            if display_lines == vec!["tool", "tool is unavailable"]
    ));
}

#[test]
fn diffs_lose_their_headers() {
    assert_eq!(
        rho_tui::event_adapter::compact_unified_diff("--- a/x\n+++ b/x\n@@ -1,2 +1,2 @@\n keep\n-old\n+new\n"),
        " keep\n-old\n+new"
    );
    assert_eq!(rho_tui::event_adapter::compact_unified_diff("@@ -0,0 +0,0 @@\n"), "");
}

#[test]
fn streamed_tool_calls_gather_their_arguments() {
    let mut adapter = SdkEventAdapter::new();
    let first = adapter.translate(RunEvent::<()>::ToolCallUpdated {
        index: 0,
        name: Some("read_file".into()),
        arguments_delta: "{\"pa".into(),
    });
    assert!(matches!(
        first,
        ViewEvent::Update(ViewModelEvent::ToolCallUpdated { display_lines })
            if display_lines == vec!["read_file", "{\"pa"]
    ));
    let second = adapter.translate(RunEvent::<()>::ToolCallUpdated {
        index: 0,
        name: None,
        arguments_delta: "th\":1}".into(),
    });
    assert!(matches!(
        second,
        ViewEvent::Update(ViewModelEvent::ToolCallUpdated { display_lines })
            if display_lines == vec!["read_file", "{\"path\":1}"]
    ));
    let other = adapter.translate(RunEvent::<()>::ToolCallUpdated {
        index: 1,
        name: None,
        arguments_delta: "  ".into(),
    });
    assert!(matches!(
        other,
        ViewEvent::Update(ViewModelEvent::ToolCallUpdated { display_lines }) if display_lines == vec!["tool"]
    ));
}

#[test]
fn tool_progress_lists_text_and_units() {
    let mut adapter = SdkEventAdapter::new();
    let _ = adapter.translate(RunEvent::<()>::ToolStarted {
        call_id: "c".into(),
        name: "fetch".into(),
        facts: facts(&[], None, Operation::Network),
    });
    let update = adapter.translate(RunEvent::<()>::ToolUpdated {
        call_id: "c".into(),
        facts: facts(&[], None, Operation::Network),
        text: "downloading".into(),
        completed: Some(3),
        total: Some(10),
    });
    assert!(matches!(
        update,
        ViewEvent::Update(ViewModelEvent::ToolUpdated { display_lines })
            if display_lines == vec!["fetch", "network request", "downloading", "progress: 3/10"]
    ));
    let unknown = adapter.translate(RunEvent::<()>::ToolUpdated {
        call_id: "missing".into(),
        facts: facts(&[], None, Operation::Unset),
        text: " ".into(),
        completed: Some(1),
        total: None,
    });
    assert!(matches!(
        unknown,
        ViewEvent::Update(ViewModelEvent::ToolUpdated { display_lines }) if display_lines == vec!["tool"]
    ));
}

#[test]
fn provider_activity_and_compaction_become_view_events() {
    let mut adapter = SdkEventAdapter::new();
    assert!(matches!(
        adapter.translate(RunEvent::<()>::ProviderActivity { kind: "web_search".into(), detail: "rust verus".into() }),
        ViewEvent::Update(ViewModelEvent::ToolFinished { ok: true, style: ToolStyleOf::Web, display_lines })
            if display_lines == vec!["web search", "rust verus"]
    ));
    assert!(matches!(
        adapter.translate(RunEvent::<()>::ProviderActivity { kind: "retry".into(), detail: "rate limited".into() }),
        ViewEvent::Notice(text) if text == "retry: rate limited"
    ));
    assert!(matches!(
        adapter.translate(RunEvent::<()>::CompactionCompleted { previous_messages: 40, current_messages: 6 }),
        ViewEvent::Notice(text) if text == "compacted conversation context (40 to 6 messages)"
    ));
    assert!(matches!(adapter.translate(RunEvent::<u8>::HostInputRequested(7)), ViewEvent::Questionnaire(7)));
    assert!(matches!(adapter.translate(RunEvent::<()>::Started), ViewEvent::Ignored));
    assert!(matches!(
        adapter.translate(RunEvent::<()>::Failed("boom".into())),
        ViewEvent::Failed(message) if message == "boom"
    ));
}

#[test]
fn started_facts_are_kept_until_the_tool_finishes() {
    let mut adapter = SdkEventAdapter::new();
    let _ = adapter.translate(RunEvent::<()>::ToolProposed {
        id: "c".into(),
        name: "bash".into(),
        arguments: Some("{\"command\":\"cargo test\"}".into()),
    });
    let _ = adapter.translate(RunEvent::<()>::ToolStarted {
        call_id: "c".into(),
        name: "bash".into(),
        facts: ToolFacts { command: Some("cargo test".into()), ..facts(&[], None, Operation::Other) },
    });
    let finished = adapter.translate(RunEvent::<()>::ToolFinished {
        call_id: "c".into(),
        result: Completion::Success { content: "ok".into(), facts: ToolFacts::none() },
    });
    assert!(matches!(
        finished,
        ViewEvent::Update(ViewModelEvent::ToolFinished { ok: true, display_lines, .. })
            if display_lines == vec!["bash", "cargo test", "ok"]
    ));
}

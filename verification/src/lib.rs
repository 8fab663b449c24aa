use vstd::prelude::*;

pub mod text;
pub mod width;
pub mod wrap;
pub mod paste_burst;
pub mod composer;
pub mod usage;
pub mod goal;
pub mod shell;
pub mod mouse_capture;
pub mod picker;
pub mod config_picker;
pub mod doctor;
pub mod questionnaire;
pub mod statusline;
pub mod markdown;
pub mod markdown_table;
pub mod file_picker;
pub mod markdown_render;
pub mod history;
pub mod transcript;
pub mod model_picker;
pub mod prompt_input;
pub mod stream;
pub mod questionnaire_composer;
pub mod questionnaire_render;
pub mod event_adapter;
pub mod history_scroll;
pub mod config_editor;
pub mod mouse;
pub mod prompt_turn;
pub mod message_history;

verus! {

/// What the terminal session hands back to its caller when it ends.
pub struct TuiResult {
    pub resume_session_id: Option<String>,
    pub exit_summary: Option<String>,
}

} // verus!

//! The decisions of a model turn: what is sent, when an interrupt cancels
//! the run, how a questionnaire reply reaches the agent, and what the
//! session shows once the turn ends.
use vstd::prelude::*;
use crate::composer::Entry;
use crate::text::{decimal, decimal_string, push_str, str_eq};

verus! {

/// A piece of the user's message: text, or the image at this index of
/// the images sent with it.
#[derive(Clone, Debug, PartialEq, Eq)]
pub enum TurnBlock {
    Text(String),
    Image(usize),
}

/// `TurnBlock` with its text as a sequence.
pub enum TurnBlockView {
    Text(Seq<char>),
    Image(usize),
}

/// A block as plain values.
pub open spec fn block_view(b: TurnBlock) -> TurnBlockView {
    match b {
        TurnBlock::Text(t) => TurnBlockView::Text(t@),
        TurnBlock::Image(i) => TurnBlockView::Image(i),
    }
}

/// Blocks as plain values.
pub open spec fn blocks_view(v: Seq<TurnBlock>) -> Seq<TurnBlockView> {
    Seq::new(v.len(), |i: int| block_view(v[i]))
}

/// The user's message as the model gets it and, when it differs, as the
/// session keeps it.
pub enum UserContent {
    Same(Vec<TurnBlock>),
    Separate { model: Vec<TurnBlock>, display: Vec<TurnBlock> },
}

/// The images `0..n` as blocks.
pub open spec fn image_blocks(n: nat) -> Seq<TurnBlockView> {
    Seq::new(n, |i: int| TurnBlockView::Image(i as usize))
}

/// What the model gets: the prompt's text unless it is empty, then every
/// image.
pub open spec fn model_blocks(model: Seq<char>, n_images: nat) -> Seq<TurnBlockView> {
    (if model.len() > 0 {
        seq![TurnBlockView::Text(model)]
    } else {
        Seq::empty()
    }) + image_blocks(n_images)
}

/// Whether `c` is the message of a turn: the model's blocks alone, or,
/// when a text is to be kept in the session in place of the prompt, the
/// model's blocks and that text followed by every image.
pub open spec fn turn_content_is(model: Seq<char>, persisted: Option<Seq<char>>, n_images: nat, c: UserContent) -> bool {
    match persisted {
        None => c matches UserContent::Same(m) && blocks_view(m@) == model_blocks(model, n_images),
        Some(d) => c matches UserContent::Separate { model: m, display } && blocks_view(m@) == model_blocks(
            model,
            n_images,
        ) && blocks_view(display@) == seq![TurnBlockView::Text(d)] + image_blocks(n_images),
    }
}

/// Appends the images `0..n` to `blocks`.
fn push_images(blocks: &mut Vec<TurnBlock>, n_images: usize)
    ensures
        blocks_view(final(blocks)@) == blocks_view(old(blocks)@) + image_blocks(n_images as nat),
{
    let ghost start = blocks_view(blocks@);
    let mut i: usize = 0;
    while i < n_images
        invariant
            i <= n_images,
            blocks_view(blocks@) == start + image_blocks(i as nat),
        decreases n_images - i,
    {
        let ghost before = blocks@;
        blocks.push(TurnBlock::Image(i));
        assert(blocks_view(blocks@) =~= blocks_view(before).push(TurnBlockView::Image(i)));
        i += 1;
        assert(blocks_view(blocks@) =~= start + image_blocks(i as nat));
    }
}

/// The message of a turn (see `turn_content_is`).
pub fn turn_content(model: &str, persisted_display: Option<&str>, n_images: usize) -> (c: UserContent)
    ensures
        turn_content_is(
            model@,
            match persisted_display {
                Some(d) => Some(d@),
                None => None,
            },
            n_images as nat,
            c,
        ),
{
    let mut content: Vec<TurnBlock> = Vec::new();
    if model.unicode_len() > 0 {
        content.push(TurnBlock::Text(String::from_str(model)));
    }
    assert(blocks_view(content@) =~= (if model@.len() > 0 {
        seq![TurnBlockView::Text(model@)]
    } else {
        Seq::<TurnBlockView>::empty()
    }));
    push_images(&mut content, n_images);
    match persisted_display {
        None => UserContent::Same(content),
        Some(d) => {
            let mut display: Vec<TurnBlock> = Vec::new();
            display.push(TurnBlock::Text(String::from_str(d)));
            assert(blocks_view(display@) =~= seq![TurnBlockView::Text(d@)]);
            push_images(&mut display, n_images);
            UserContent::Separate { model: content, display }
        },
    }
}

/// What the terminal asked for while a turn runs.
#[derive(Clone, Copy, Debug, PartialEq, Eq, Structural)]
pub enum StreamControl {
    Continue,
    Resize,
    Interrupt,
}

/// Whether a request ends the run now: an interrupt does, unless a tool
/// call is under way (it is then left to finish).
pub fn interrupt_cancels(control: StreamControl, tool_call_active: bool) -> (b: bool)
    ensures
        b == (control == StreamControl::Interrupt && !tool_call_active),
{
    control == StreamControl::Interrupt && !tool_call_active
}

/// How the user answered a questionnaire the agent asked.
#[derive(Clone, Copy, Debug, PartialEq, Eq)]
pub enum QuestionnaireReply {
    Answered,
    Cancelled,
    /// The questionnaire could not be shown, or its answer never came.
    Unavailable,
}

/// The message of a cancelled questionnaire.
pub open spec fn cancelled_message() -> Seq<char> {
    "questionnaire answer was cancelled"@
}

/// The error the agent gets for a reply: none for an answer.
pub open spec fn reply_error(r: QuestionnaireReply) -> Option<Seq<char>> {
    match r {
        QuestionnaireReply::Answered => None,
        QuestionnaireReply::Cancelled => Some(cancelled_message()),
        QuestionnaireReply::Unavailable => Some("questionnaire UI is unavailable"@),
    }
}

/// The error the agent gets for a questionnaire reply (see `reply_error`).
pub fn questionnaire_reply_error(reply: QuestionnaireReply) -> (e: Option<String>)
    ensures
        match e {
            Some(t) => reply_error(reply) == Some(t@),
            None => reply_error(reply) is None,
        },
{
    match reply {
        QuestionnaireReply::Answered => None,
        QuestionnaireReply::Cancelled => Some(String::from_str("questionnaire answer was cancelled")),
        QuestionnaireReply::Unavailable => Some(String::from_str("questionnaire UI is unavailable")),
    }
}

/// How the agent's run ended.
pub enum TurnResult {
    /// It answered.
    Completed,
    /// The model was interrupted.
    Interrupted,
    /// A questionnaire failed with `message`; `text` is the error as shown.
    QuestionnaireFailed { message: String, text: String },
    /// Any other failure, as shown.
    Failed(String),
}

/// What a finished turn comes to.
#[derive(Clone, Copy, Debug, PartialEq, Eq, Structural)]
pub enum TurnOutcome {
    Completed,
    Interrupted,
    Cancelled,
    Failed,
}

/// What the session does once a turn ends: the outcome, the entry added
/// to the transcript, the status, whether the streams are flushed before
/// (else they are dropped), and whether queued steering goes back into
/// the composer.
pub struct TurnEnd {
    pub outcome: TurnOutcome,
    pub entry: Option<Entry>,
    pub status: String,
    pub finish_streams: bool,
    pub restore_pending_work: bool,
}

/// Whether `e` is the end of a turn with `result`, `queued` prompts
/// waiting and a goal `goal_active` or not. An answer makes the session
/// ready (or says the next queued prompt runs); an interrupt is noted and
/// gives the unsent steering back; a cancelled questionnaire is noted
/// (saying when a goal stays active); any other failure is shown as an
/// error.
pub open spec fn turn_end_is(result: TurnResult, queued: nat, goal_active: bool, e: TurnEnd) -> bool {
    match result {
        TurnResult::Completed => {
            &&& e.outcome == TurnOutcome::Completed
            &&& e.entry is None
            &&& e.status@ == (if queued == 0 {
                "ready"@
            } else {
                "running next queued message ("@ + decimal(queued) + ")"@
            })
            &&& e.finish_streams
            &&& !e.restore_pending_work
        },
        TurnResult::Interrupted => {
            &&& e.outcome == TurnOutcome::Interrupted
            &&& e.entry matches Some(Entry::Notice(t)) && t@ == "model interrupted"@
            &&& e.status@ == "interrupted"@
            &&& e.finish_streams
            &&& e.restore_pending_work
        },
        TurnResult::QuestionnaireFailed { message, text } => if message@ == cancelled_message() {
            &&& e.outcome == TurnOutcome::Cancelled
            &&& e.entry matches Some(Entry::Notice(t)) && t@ == (if goal_active {
                "questionnaire cancelled; goal left active"@
            } else {
                "questionnaire cancelled"@
            })
            &&& e.status@ == "questionnaire cancelled"@
            &&& e.finish_streams
            &&& !e.restore_pending_work
        } else {
            failed_end(text@, e)
        },
        TurnResult::Failed(text) => failed_end(text@, e),
    }
}

/// A failed turn: the error is shown and the streams dropped.
pub open spec fn failed_end(text: Seq<char>, e: TurnEnd) -> bool {
    &&& e.outcome == TurnOutcome::Failed
    &&& e.entry matches Some(Entry::Error(t)) && t@ == text
    &&& e.status@ == "error"@
    &&& !e.finish_streams
    &&& !e.restore_pending_work
}

/// How a turn ends (see `turn_end_is`).
pub fn turn_end(result: TurnResult, queued: usize, goal_active: bool) -> (e: TurnEnd)
    ensures
        turn_end_is(result, queued as nat, goal_active, e),
{
    match result {
        TurnResult::Completed => {
            let status = if queued == 0 {
                String::from_str("ready")
            } else {
                let mut s = String::new();
                push_str(&mut s, "running next queued message (");
                push_str(&mut s, decimal_string(queued as u64).as_str());
                push_str(&mut s, ")");
                s
            };
            TurnEnd {
                outcome: TurnOutcome::Completed,
                entry: None,
                status,
                finish_streams: true,
                restore_pending_work: false,
            }
        },
        TurnResult::Interrupted => TurnEnd {
            outcome: TurnOutcome::Interrupted,
            entry: Some(Entry::Notice(String::from_str("model interrupted"))),
            status: String::from_str("interrupted"),
            finish_streams: true,
            restore_pending_work: true,
        },
        TurnResult::QuestionnaireFailed { message, text } => {
            if str_eq(message.as_str(), "questionnaire answer was cancelled") {
                let notice = if goal_active {
                    String::from_str("questionnaire cancelled; goal left active")
                } else {
                    String::from_str("questionnaire cancelled")
                };
                TurnEnd {
                    outcome: TurnOutcome::Cancelled,
                    entry: Some(Entry::Notice(notice)),
                    status: String::from_str("questionnaire cancelled"),
                    finish_streams: true,
                    restore_pending_work: false,
                }
            } else {
                failed(text)
            }
        },
        TurnResult::Failed(text) => failed(text),
    }
}

/// The end of a failed turn.
fn failed(text: String) -> (e: TurnEnd)
    ensures
        failed_end(text@, e),
{
    TurnEnd {
        outcome: TurnOutcome::Failed,
        entry: Some(Entry::Error(text)),
        status: String::from_str("error"),
        finish_streams: false,
        restore_pending_work: false,
    }
}

} // verus!

//! The transcript entries of a resumed session, rebuilt from its saved
//! messages.
use vstd::prelude::*;
use std::collections::VecDeque;
use crate::composer::{joined, text_blocks, text_parts, ContentBlock};
use crate::questionnaire::join_seqs;
use crate::text::{trim_seq, trimmed};
use crate::transcript::{render_message_blocks, shown_blocks, MessageBlock};
use crate::width::strings_view;

verus! {

/// The last tool call of a reply that was cut short: its name when it was
/// known, and its arguments so far.
pub struct AbortedCall {
    pub name: Option<String>,
    pub arguments: String,
}

/// A saved message of a session.
pub enum HistoryMessage {
    System,
    User(Vec<MessageBlock>),
    Assistant(Vec<ContentBlock>),
    /// A reply interrupted while it streamed.
    AbortedAssistant { content: Vec<ContentBlock>, last_tool_call: Option<AbortedCall> },
    /// The result of the oldest tool call still waiting for one.
    ToolResult { ok: bool, content: String },
}

/// A rebuilt transcript entry.
pub enum RecoveredEntry {
    User(String),
    Assistant(String),
    /// The tool call a reply was cut short in, shown as failed in the
    /// default tool style.
    AbortedTool(Vec<String>),
    Notice(String),
    /// A finished tool, drawn in the style of the tool named by its first
    /// line.
    ToolResult { ok: bool, display_lines: Vec<String> },
}

/// `RecoveredEntry` as plain values.
pub enum RecoveredView {
    User(Seq<char>),
    Assistant(Seq<char>),
    AbortedTool(Seq<Seq<char>>),
    Notice(Seq<char>),
    ToolResult(bool, Seq<Seq<char>>),
}

/// An entry as plain values.
pub open spec fn entry_view(e: RecoveredEntry) -> RecoveredView {
    match e {
        RecoveredEntry::User(t) => RecoveredView::User(t@),
        RecoveredEntry::Assistant(t) => RecoveredView::Assistant(t@),
        RecoveredEntry::AbortedTool(l) => RecoveredView::AbortedTool(strings_view(l@)),
        RecoveredEntry::Notice(t) => RecoveredView::Notice(t@),
        RecoveredEntry::ToolResult { ok, display_lines } => RecoveredView::ToolResult(ok, strings_view(display_lines@)),
    }
}

/// Entries as plain values.
pub open spec fn entries_view(v: Seq<RecoveredEntry>) -> Seq<RecoveredView> {
    Seq::new(v.len(), |i: int| entry_view(v[i]))
}

/// The names of the tool calls among a reply's blocks, in order.
pub open spec fn call_names(blocks: Seq<ContentBlock>) -> Seq<Seq<char>>
    decreases blocks.len(),
{
    if blocks.len() == 0 {
        Seq::empty()
    } else {
        let p = call_names(blocks.drop_last());
        match blocks.last() {
            ContentBlock::ToolCall(c) => p.push(c.name@),
            _ => p,
        }
    }
}

/// The text of a reply: its text blocks on separate lines.
pub open spec fn reply_text(blocks: Seq<ContentBlock>) -> Seq<char> {
    joined(text_parts(blocks), seq!['\n'])
}

/// `es` with an entry for `text`, unless it is empty.
pub open spec fn push_text(es: Seq<RecoveredView>, text: Seq<char>, user: bool) -> Seq<RecoveredView> {
    if text.len() == 0 {
        es
    } else if user {
        es.push(RecoveredView::User(text))
    } else {
        es.push(RecoveredView::Assistant(text))
    }
}

/// The lines of an interrupted tool call: its name (or "tool call") and
/// its arguments, when there are any.
pub open spec fn aborted_lines(name: Option<Seq<char>>, arguments: Seq<char>) -> Seq<Seq<char>> {
    seq![
        match name {
            Some(n) => n,
            None => "tool call"@,
        },
    ] + if arguments.len() > 0 {
        seq![arguments]
    } else {
        Seq::empty()
    }
}

/// The entries and the names of the tool calls still waiting for a result,
/// after one more message.
pub open spec fn history_step(
    st: (Seq<RecoveredView>, Seq<Seq<char>>),
    m: HistoryMessage,
) -> (Seq<RecoveredView>, Seq<Seq<char>>) {
    let (es, pending) = st;
    match m {
        HistoryMessage::System => st,
        HistoryMessage::User(bs) => (push_text(es, join_seqs(shown_blocks(bs@), "\n"@), true), pending),
        HistoryMessage::Assistant(bs) => (push_text(es, reply_text(bs@), false), pending + call_names(bs@)),
        HistoryMessage::AbortedAssistant { content, last_tool_call } => {
            let with_text = push_text(es, reply_text(content@), false);
            let with_call = match last_tool_call {
                Some(c) => with_text.push(
                    RecoveredView::AbortedTool(
                        aborted_lines(
                            match c.name {
                                Some(n) => Some(n@),
                                None => None,
                            },
                            c.arguments@,
                        ),
                    ),
                ),
                None => with_text,
            };
            (with_call.push(RecoveredView::Notice("model interrupted"@)), pending)
        },
        HistoryMessage::ToolResult { ok, content } => {
            let name = if pending.len() > 0 {
                pending[0]
            } else {
                "tool"@
            };
            let lines = seq![name] + if trim_seq(content@).len() > 0 {
                seq![content@]
            } else {
                Seq::empty()
            };
            (es.push(RecoveredView::ToolResult(ok, lines)), if pending.len() > 0 {
                pending.drop_first()
            } else {
                pending
            })
        },
    }
}

/// The state after the messages `ms`, from the first on.
pub open spec fn history_state(ms: Seq<HistoryMessage>) -> (Seq<RecoveredView>, Seq<Seq<char>>)
    decreases ms.len(),
{
    if ms.len() == 0 {
        (Seq::empty(), Seq::empty())
    } else {
        history_step(history_state(ms.drop_last()), ms.last())
    }
}

/// The names waiting in a queue, as plain sequences.
pub open spec fn names_view(q: Seq<String>) -> Seq<Seq<char>> {
    Seq::new(q.len(), |i: int| q[i]@)
}

/// Appends to `pending` the names of the tool calls among `blocks`.
fn push_call_names(pending: &mut VecDeque<String>, blocks: &Vec<ContentBlock>)
    ensures
        names_view(final(pending)@) == names_view(old(pending)@) + call_names(blocks@),
{
    let ghost start = names_view(pending@);
    let mut i: usize = 0;
    while i < blocks.len()
        invariant
            i <= blocks@.len(),
            names_view(pending@) == start + call_names(blocks@.take(i as int)),
        decreases blocks@.len() - i,
    {
        assert(blocks@.take(i as int + 1).drop_last() =~= blocks@.take(i as int));
        assert(blocks@.take(i as int + 1).last() == blocks@[i as int]);
        if let ContentBlock::ToolCall(call) = &blocks[i] {
            let ghost before = pending@;
            pending.push_back(String::from_str(call.name.as_str()));
            assert(names_view(pending@) =~= names_view(before).push(call.name@));
        }
        i += 1;
    }
    assert(blocks@.take(i as int) =~= blocks@);
}

/// Adds an entry for `text` unless it is empty.
fn push_text_entry(entries: &mut Vec<RecoveredEntry>, text: String, user: bool)
    ensures
        entries_view(final(entries)@) == push_text(entries_view(old(entries)@), text@, user),
{
    let ghost before = entries@;
    if text.as_str().unicode_len() > 0 {
        if user {
            entries.push(RecoveredEntry::User(text));
        } else {
            entries.push(RecoveredEntry::Assistant(text));
        }
        assert(entries_view(entries@) =~= entries_view(before).push(entry_view(entries@.last())));
    }
}

/// The transcript entries of saved messages: user prompts and replies
/// with text, the tool call and a notice for each interrupted reply, and
/// each tool result under the name of the oldest call still waiting for
/// one (or "tool"), with its output when it holds more than white space.
pub fn transcript_entries_from_messages(messages: &Vec<HistoryMessage>) -> (entries: Vec<RecoveredEntry>)
    ensures
        entries_view(entries@) == history_state(messages@).0,
{
    let mut entries: Vec<RecoveredEntry> = Vec::new();
    let mut pending: VecDeque<String> = VecDeque::new();
    let mut i: usize = 0;
    proof {
        assert(entries_view(entries@) =~= Seq::<RecoveredView>::empty());
        assert(names_view(pending@) =~= Seq::<Seq<char>>::empty());
    }
    while i < messages.len()
        invariant
            i <= messages@.len(),
            history_state(messages@.take(i as int)) == (entries_view(entries@), names_view(pending@)),
        decreases messages@.len() - i,
    {
        assert(messages@.take(i as int + 1).drop_last() =~= messages@.take(i as int));
        assert(messages@.take(i as int + 1).last() == messages@[i as int]);
        let ghost es = entries_view(entries@);
        let ghost pv = names_view(pending@);
        match &messages[i] {
            HistoryMessage::System => {},
            HistoryMessage::User(blocks) => {
                push_text_entry(&mut entries, render_message_blocks(blocks.as_slice()), true);
            },
            HistoryMessage::Assistant(blocks) => {
                push_text_entry(&mut entries, text_blocks(blocks), false);
                push_call_names(&mut pending, blocks);
            },
            HistoryMessage::AbortedAssistant { content, last_tool_call } => {
                push_text_entry(&mut entries, text_blocks(content), false);
                if let Some(call) = last_tool_call {
                    let mut lines: Vec<String> = Vec::new();
                    match &call.name {
                        Some(n) => lines.push(String::from_str(n.as_str())),
                        None => lines.push(String::from_str("tool call")),
                    }
                    if call.arguments.as_str().unicode_len() > 0 {
                        lines.push(String::from_str(call.arguments.as_str()));
                    }
                    let ghost lv = strings_view(lines@);
                    assert(lv =~= aborted_lines(
                        match call.name {
                            Some(n) => Some(n@),
                            None => None,
                        },
                        call.arguments@,
                    ));
                    let ghost before = entries@;
                    entries.push(RecoveredEntry::AbortedTool(lines));
                    assert(entries_view(entries@) =~= entries_view(before).push(RecoveredView::AbortedTool(lv)));
                }
                let ghost before = entries@;
                entries.push(RecoveredEntry::Notice(String::from_str("model interrupted")));
                assert(entries_view(entries@) =~= entries_view(before).push(
                    RecoveredView::Notice("model interrupted"@),
                ));
            },
            HistoryMessage::ToolResult { ok, content } => {
                let name = match pending.pop_front() {
                    Some(n) => n,
                    None => String::from_str("tool"),
                };
                assert(names_view(pending@) =~= (if pv.len() > 0 {
                    pv.drop_first()
                } else {
                    pv
                }));
                let mut lines: Vec<String> = Vec::new();
                lines.push(name);
                if trimmed(content.as_str()).len() > 0 {
                    lines.push(String::from_str(content.as_str()));
                }
                let ghost lv = strings_view(lines@);
                assert(lv =~= seq![
                    if pv.len() > 0 {
                        pv[0]
                    } else {
                        "tool"@
                    },
                ] + if trim_seq(content@).len() > 0 {
                    seq![content@]
                } else {
                    Seq::<Seq<char>>::empty()
                });
                let ghost before = entries@;
                entries.push(RecoveredEntry::ToolResult { ok: *ok, display_lines: lines });
                assert(entries_view(entries@) =~= entries_view(before).push(RecoveredView::ToolResult(*ok, lv)));
            },
        }
        i += 1;
    }
    assert(messages@.take(i as int) =~= messages@);
    entries
}

} // verus!

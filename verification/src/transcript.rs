//! How messages read in the transcript: user prompts with their images,
//! message blocks, and the preview of a tool call.
use vstd::prelude::*;
use crate::questionnaire::{join_seqs, join_strings};
use crate::text::{chars_of, decimal, decimal_string, push_str, trim_seq, trimmed};
use crate::width::strings_view;

verus! {

/// A block of a message, as the transcript shows it: text, an image by its
/// summary, or a tool call (not shown).
#[derive(Clone, Debug)]
pub enum MessageBlock {
    Text(String),
    Image(String),
    ToolCall,
}

/// What a block reads as, when it is shown.
pub open spec fn block_text(b: MessageBlock) -> Option<Seq<char>> {
    match b {
        MessageBlock::Text(t) => Some(t@),
        MessageBlock::Image(summary) => Some("[image: "@ + summary@ + "]"@),
        MessageBlock::ToolCall => None,
    }
}

/// The texts of the shown blocks, in order.
pub open spec fn shown_blocks(bs: Seq<MessageBlock>) -> Seq<Seq<char>>
    decreases bs.len(),
{
    if bs.len() == 0 {
        Seq::empty()
    } else {
        let prev = shown_blocks(bs.drop_last());
        match block_text(bs.last()) {
            Some(t) => prev.push(t),
            None => prev,
        }
    }
}

/// The blocks of a message as the transcript shows them: each shown block
/// on its own line.
pub fn render_message_blocks(blocks: &[MessageBlock]) -> (text: String)
    ensures
        text@ == join_seqs(shown_blocks(blocks@), "\n"@),
{
    let mut parts: Vec<String> = Vec::new();
    let mut i: usize = 0;
    while i < blocks.len()
        invariant
            i <= blocks@.len(),
            strings_view(parts@) == shown_blocks(blocks@.take(i as int)),
        decreases blocks@.len() - i,
    {
        let ghost before = strings_view(parts@);
        assert(blocks@.take(i as int + 1).drop_last() =~= blocks@.take(i as int));
        assert(blocks@.take(i as int + 1).last() == blocks@[i as int]);
        match &blocks[i] {
            MessageBlock::Text(t) => {
                parts.push(t.clone());
                assert(strings_view(parts@) =~= before.push(t@));
            },
            MessageBlock::Image(summary) => {
                let mut s = String::from_str("[image: ");
                push_str(&mut s, summary.as_str());
                push_str(&mut s, "]");
                parts.push(s);
                assert(strings_view(parts@) =~= before.push("[image: "@ + summary@ + "]"@));
            },
            MessageBlock::ToolCall => {},
        }
        i += 1;
    }
    assert(blocks@.take(blocks@.len() as int) =~= blocks@);
    join_strings(&parts, "\n")
}

/// The label of the `i`-th image (from zero) of a prompt.
pub open spec fn image_label(i: int, summary: Seq<char>) -> Seq<char> {
    "[image "@ + decimal((i + 1) as nat) + ": "@ + summary + "]"@
}

/// The parts of a user entry: the prompt when it is not empty, then one
/// label per image.
pub open spec fn user_entry_parts(prompt: Seq<char>, summaries: Seq<Seq<char>>) -> Seq<Seq<char>> {
    (if prompt.len() > 0 {
        seq![prompt]
    } else {
        Seq::empty()
    }) + Seq::new(summaries.len(), |i: int| image_label(i, summaries[i]))
}

/// How a user's prompt reads in the transcript: the prompt, then a line
/// "[image N: summary]" for each attached image, given their summaries.
pub fn render_user_entry(prompt: &str, image_summaries: &[String]) -> (text: String)
    ensures
        text@ == join_seqs(user_entry_parts(prompt@, strings_view(image_summaries@)), "\n"@),
{
    let ghost sv = strings_view(image_summaries@);
    let mut parts: Vec<String> = Vec::new();
    if chars_of(prompt).len() > 0 {
        parts.push(String::from_str(prompt));
    }
    proof {
        if prompt@.len() > 0 {
            assert(strings_view(parts@) =~= seq![prompt@]);
        } else {
            assert(strings_view(parts@) =~= Seq::<Seq<char>>::empty());
        }
    }
    let ghost head = strings_view(parts@);
    let mut i: usize = 0;
    while i < image_summaries.len()
        invariant
            i <= image_summaries@.len(),
            sv == strings_view(image_summaries@),
            strings_view(parts@) == head + Seq::new(i as nat, |k: int| image_label(k, sv[k])),
        decreases image_summaries@.len() - i,
    {
        let mut s = String::from_str("[image ");
        let number = decimal_string((i + 1) as u64);
        push_str(&mut s, number.as_str());
        push_str(&mut s, ": ");
        push_str(&mut s, image_summaries[i].as_str());
        push_str(&mut s, "]");
        let ghost before = strings_view(parts@);
        parts.push(s);
        proof {
            assert(sv[i as int] == image_summaries@[i as int]@);
            assert(s@ =~= image_label(i as int, sv[i as int]));
            assert(strings_view(parts@) =~= before.push(s@));
            assert(head + Seq::new(i as nat + 1, |k: int| image_label(k, sv[k])) =~= (head + Seq::new(
                i as nat,
                |k: int| image_label(k, sv[k]),
            )).push(image_label(i as int, sv[i as int])));
        }
        i += 1;
    }
    assert(strings_view(parts@) =~= user_entry_parts(prompt@, sv));
    join_strings(&parts, "\n")
}

/// The lines previewing a tool call: its name, then its arguments when
/// they are not blank.
pub open spec fn preview_of(name: Seq<char>, arguments: Seq<char>) -> Seq<Seq<char>> {
    if trim_seq(arguments).len() > 0 {
        seq![name, arguments]
    } else {
        seq![name]
    }
}

/// The preview lines of a tool call (see `preview_of`).
pub fn preview_lines(name: &str, arguments: &str) -> (lines: Vec<String>)
    ensures
        strings_view(lines@) == preview_of(name@, arguments@),
{
    let mut lines: Vec<String> = Vec::new();
    lines.push(String::from_str(name));
    if trimmed(arguments).len() > 0 {
        lines.push(String::from_str(arguments));
    }
    assert(strings_view(lines@) =~= preview_of(name@, arguments@));
    lines
}

} // verus!

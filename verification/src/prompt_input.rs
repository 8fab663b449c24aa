//! The composer's prompt: the text being written, its cursor, the pastes
//! collapsed into markers, the history of sent prompts and the prompts
//! queued while a turn runs.
use vstd::prelude::*;
use std::collections::VecDeque;
use crate::composer::{
    byte_index_of, byte_offset, bytes_fit, edit_at, expand_from, expand_paste_segments, paste_marker,
    next_word_boundary, next_word_end, paste_marker_for, word_end, prev_word_start, previous_word_boundary, word_start,
    PasteSegment,
};
use crate::text::{
    chars_of, decimal, decimal_string, is_white_space, push_str, splice, spliced, str_eq, string_of, text_fits,
    trim, trim_seq,
};
use crate::width::{display_w, is_fit_len};
use crate::questionnaire::{join_seqs, join_strings};
use crate::wrap::{
    cursor_on_visual_line, input_cursor_index_on_visual_line, input_cursor_position, input_visual_lines,
    lemma_rows_inside, lemma_visual_rows_fit, row_start, rows_before, visual_lines,
};
use crate::width::strings_view;
use crate::shell::{parse_shell, InlineShellMode};

verus! {

/// Whether a submitted prompt is first read as a slash command.
#[derive(Clone, Copy, Debug, PartialEq, Eq, Structural)]
pub enum InputSubmissionMode {
    ParseCommands,
    Prompt,
}

/// Which way to move through the prompt history.
#[derive(Clone, Copy, Debug, PartialEq, Eq, Structural)]
pub enum HistoryDirection {
    Previous,
    Next,
}

// ---------------------------------------------------------------------
// Collapsed pastes
// ---------------------------------------------------------------------

/// Whether the markers of `segs` lie in order, without overlap, inside the
/// first `hi` characters, each at least one character long.
pub open spec fn segments_within(segs: Seq<PasteSegment>, hi: int) -> bool
    decreases segs.len(),
{
    if segs.len() == 0 {
        true
    } else {
        let last = segs.last();
        &&& segments_within(segs.drop_last(), last.start as int)
        &&& last.marker_len > 0
        &&& last.start + last.marker_len <= hi
    }
}

/// Whether the markers of `segs` are well placed in the text `text`.
pub open spec fn segments_valid(text: Seq<char>, segs: Seq<PasteSegment>) -> bool {
    segments_within(segs, text.len() as int)
}

/// Whether a marker touches the edited range `[start, start + deleted)`.
pub open spec fn overlaps_edit(seg: PasteSegment, start: int, deleted: int) -> bool {
    start < seg.start + seg.marker_len && start + deleted > seg.start
}

/// The value clamped into the range of `usize`.
pub open spec fn saturate(x: int) -> usize {
    if x < 0 {
        0
    } else if x > usize::MAX {
        usize::MAX
    } else {
        x as usize
    }
}

/// A marker after an edit at `start`: markers at or after the edit move by
/// the change in length.
pub open spec fn shifted(seg: PasteSegment, start: int, deleted: int, inserted: int) -> PasteSegment {
    if start <= seg.start {
        PasteSegment {
            start: saturate(seg.start + inserted - deleted),
            marker_len: seg.marker_len,
            content: seg.content,
        }
    } else {
        seg
    }
}

/// The markers after replacing `deleted` characters at `start` by
/// `inserted` characters: a marker the edit touches is dropped (its text
/// stays as typed text), the others keep their place in the text.
pub open spec fn adjusted(segs: Seq<PasteSegment>, start: int, deleted: int, inserted: int) -> Seq<PasteSegment>
    decreases segs.len(),
{
    if segs.len() == 0 {
        Seq::empty()
    } else {
        let prev = adjusted(segs.drop_last(), start, deleted, inserted);
        if overlaps_edit(segs.last(), start, deleted) {
            prev
        } else {
            prev.push(shifted(segs.last(), start, deleted, inserted))
        }
    }
}

/// Where position `x` of the text lands after the edit.
pub open spec fn moved(x: int, start: int, deleted: int, inserted: int) -> int {
    if x < start {
        x
    } else if x < start + deleted {
        start
    } else {
        x + inserted - deleted
    }
}

proof fn lemma_within_weaken(segs: Seq<PasteSegment>, a: int, b: int)
    requires
        segments_within(segs, a),
        a <= b,
    ensures
        segments_within(segs, b),
{
}

proof fn lemma_moved_mono(x: int, y: int, start: int, deleted: int, inserted: int)
    requires
        x <= y,
        deleted >= 0,
        inserted >= 0,
    ensures
        moved(x, start, deleted, inserted) <= moved(y, start, deleted, inserted),
{
}

/// Markers that lie well placed before an edit still do afterwards.
proof fn lemma_adjusted_within(segs: Seq<PasteSegment>, hi: int, start: int, deleted: int, inserted: int)
    requires
        segments_within(segs, hi),
        0 <= start,
        deleted >= 0,
        inserted >= 0,
        moved(hi, start, deleted, inserted) <= usize::MAX,
    ensures
        segments_within(adjusted(segs, start, deleted, inserted), moved(hi, start, deleted, inserted)),
    decreases segs.len(),
{
    if segs.len() > 0 {
        let last = segs.last();
        let prev = segs.drop_last();
        lemma_moved_mono(last.start as int, hi, start, deleted, inserted);
        lemma_adjusted_within(prev, last.start as int, start, deleted, inserted);
        if overlaps_edit(last, start, deleted) {
            lemma_within_weaken(
                adjusted(prev, start, deleted, inserted),
                moved(last.start as int, start, deleted, inserted),
                moved(hi, start, deleted, inserted),
            );
        } else {
            let g = shifted(last, start, deleted, inserted);
            let out = adjusted(segs, start, deleted, inserted);
            assert(out.drop_last() =~= adjusted(prev, start, deleted, inserted));
            assert(g.start as int == moved(last.start as int, start, deleted, inserted));
            lemma_moved_mono(last.start + last.marker_len, hi, start, deleted, inserted);
            assert(g.start + g.marker_len <= moved(hi, start, deleted, inserted));
        }
    }
}

/// After an insertion of `len` characters at `at`, every marker lies
/// wholly before or wholly after the inserted text.
proof fn lemma_adjusted_apart(segs: Seq<PasteSegment>, at: int, len: int)
    requires
        0 <= at,
        len > 0,
        forall|k: int| 0 <= k < segs.len() ==> (#[trigger] segs[k]).marker_len > 0,
        forall|k: int| 0 <= k < segs.len() ==> (#[trigger] segs[k]).start + len <= usize::MAX,
    ensures
        forall|k: int|
            0 <= k < adjusted(segs, at, 0, len).len() ==> (#[trigger] adjusted(segs, at, 0, len)[k]).start
                + adjusted(segs, at, 0, len)[k].marker_len <= at || adjusted(segs, at, 0, len)[k].start >= at
                + len,
    decreases segs.len(),
{
    if segs.len() > 0 {
        let prev = segs.drop_last();
        lemma_adjusted_apart(prev, at, len);
        let out = adjusted(segs, at, 0, len);
        if !overlaps_edit(segs.last(), at, 0) {
            assert(out.drop_last() =~= adjusted(prev, at, 0, len));
            assert forall|k: int| 0 <= k < out.len() implies (#[trigger] out[k]).start + out[k].marker_len <= at
                || out[k].start >= at + len by {
                if k < out.len() - 1 {
                    assert(out[k] == adjusted(prev, at, 0, len)[k]);
                }
            }
        }
    }
}

proof fn lemma_within_markers(segs: Seq<PasteSegment>, hi: int)
    requires
        segments_within(segs, hi),
    ensures
        forall|k: int|
            0 <= k < segs.len() ==> (#[trigger] segs[k]).marker_len > 0 && segs[k].start + segs[k].marker_len
                <= hi,
    decreases segs.len(),
{
    if segs.len() > 0 {
        let prev = segs.drop_last();
        lemma_within_markers(prev, segs.last().start as int);
        assert forall|k: int| 0 <= k < segs.len() implies (#[trigger] segs[k]).marker_len > 0 && segs[k].start
            + segs[k].marker_len <= hi by {
            if k < segs.len() - 1 {
                assert(segs[k] == prev[k]);
            }
        }
    }
}

/// `segs` with `seg` placed after every marker that starts no later than
/// it (a stable sort by start of `segs` followed by `seg`, for markers
/// already in order).
pub open spec fn insert_by_start(segs: Seq<PasteSegment>, seg: PasteSegment) -> Seq<PasteSegment>
    decreases segs.len(),
{
    if segs.len() == 0 {
        seq![seg]
    } else if segs.last().start <= seg.start {
        segs.push(seg)
    } else {
        insert_by_start(segs.drop_last(), seg).push(segs.last())
    }
}

proof fn lemma_insert_by_start(segs: Seq<PasteSegment>, seg: PasteSegment, hi: int)
    requires
        segments_within(segs, hi),
        seg.marker_len > 0,
        seg.start + seg.marker_len <= hi,
        forall|k: int|
            0 <= k < segs.len() ==> (#[trigger] segs[k]).start + segs[k].marker_len <= seg.start || segs[k].start
                >= seg.start + seg.marker_len,
    ensures
        segments_within(insert_by_start(segs, seg), hi),
    decreases segs.len(),
{
    if segs.len() == 0 {
        let one = seq![seg];
        assert(one.drop_last() =~= Seq::<PasteSegment>::empty());
        assert(one.last() == seg);
        assert(segments_within(one.drop_last(), seg.start as int));
        assert(insert_by_start(segs, seg) == one);
    } else {
        let last = segs.last();
        let prev = segs.drop_last();
        assert(last == segs[segs.len() - 1]);
        lemma_within_markers(segs, hi);
        if last.start <= seg.start {
            assert(segs.push(seg).drop_last() =~= segs);
            assert(last.start + last.marker_len <= seg.start);
            assert(segments_within(segs, seg.start as int));
            assert(insert_by_start(segs, seg) == segs.push(seg));
            assert(segs.push(seg).last() == seg);
        } else {
            assert forall|k: int|
                0 <= k < prev.len() implies (#[trigger] prev[k]).start + prev[k].marker_len <= seg.start
                    || prev[k].start >= seg.start + seg.marker_len by {
                assert(prev[k] == segs[k]);
            }
            lemma_insert_by_start(prev, seg, last.start as int);
            assert(insert_by_start(prev, seg).push(last).drop_last() =~= insert_by_start(prev, seg));
            assert(insert_by_start(segs, seg) == insert_by_start(prev, seg).push(last));
            assert(insert_by_start(prev, seg).push(last).last() == last);
        }
    }
}

/// Moves the collapsed pastes for an edit (see `adjusted`).
fn adjust_segments(segs: Vec<PasteSegment>, start: usize, deleted_len: usize, inserted_len: usize) -> (r: Vec<
    PasteSegment,
>)
    ensures
        r@ == adjusted(segs@, start as int, deleted_len as int, inserted_len as int),
{
    let ghost all = segs@;
    let mut rest = segs;
    let mut kept_rev: Vec<PasteSegment> = Vec::new();
    // Walk from the back, keeping what survives in reverse order.
    while rest.len() > 0
        invariant
            adjusted(all, start as int, deleted_len as int, inserted_len as int) == adjusted(
                rest@,
                start as int,
                deleted_len as int,
                inserted_len as int,
            ) + kept_rev@.reverse(),
        decreases rest.len(),
    {
        let ghost before = rest@;
        let seg = rest.pop().unwrap();
        assert(before.drop_last() =~= rest@);
        assert(before.last() == seg);
        let end = start as u128 + deleted_len as u128;
        let overlaps = (start as u128) < seg.start as u128 + seg.marker_len as u128 && end > seg.start as u128;
        if !overlaps {
            let new_start = if start <= seg.start {
                if inserted_len >= deleted_len {
                    seg.start.saturating_add(inserted_len - deleted_len)
                } else {
                    seg.start.saturating_sub(deleted_len - inserted_len)
                }
            } else {
                seg.start
            };
            let moved_seg = PasteSegment { start: new_start, marker_len: seg.marker_len, content: seg.content };
            assert(moved_seg == shifted(before.last(), start as int, deleted_len as int, inserted_len as int));
            let ghost kr = kept_rev@;
            kept_rev.push(moved_seg);
            assert(kept_rev@.reverse() =~= seq![moved_seg] + kr.reverse());
        }
    }
    assert(rest@ =~= Seq::<PasteSegment>::empty());
    let mut r: Vec<PasteSegment> = Vec::new();
    while kept_rev.len() > 0
        invariant
            adjusted(all, start as int, deleted_len as int, inserted_len as int) == r@ + kept_rev@.reverse(),
        decreases kept_rev.len(),
    {
        let ghost before = kept_rev@;
        let seg = kept_rev.pop().unwrap();
        assert(before.reverse() =~= seq![seg] + kept_rev@.reverse());
        r.push(seg);
    }
    assert(kept_rev@.reverse() =~= Seq::<PasteSegment>::empty());
    assert(r@ + Seq::<PasteSegment>::empty() =~= r@);
    r
}

/// Places `seg` among markers kept in order (see `insert_by_start`).
fn insert_segment(segs: Vec<PasteSegment>, seg: PasteSegment) -> (r: Vec<PasteSegment>)
    ensures
        r@ == insert_by_start(segs@, seg),
{
    let ghost all = segs@;
    let mut rest = segs;
    let mut after_rev: Vec<PasteSegment> = Vec::new();
    while rest.len() > 0 && rest[rest.len() - 1].start > seg.start
        invariant
            insert_by_start(all, seg) == insert_by_start(rest@, seg) + after_rev@.reverse(),
        decreases rest.len(),
    {
        let ghost before = rest@;
        let last = rest.pop().unwrap();
        assert(before.drop_last() =~= rest@);
        let ghost ar = after_rev@;
        after_rev.push(last);
        assert(after_rev@.reverse() =~= seq![last] + ar.reverse());
        assert(insert_by_start(before, seg) == insert_by_start(rest@, seg).push(last));
        assert(insert_by_start(rest@, seg).push(last) + ar.reverse() =~= insert_by_start(rest@, seg)
            + after_rev@.reverse());
    }
    let ghost base = rest@;
    rest.push(seg);
    proof {
        if base.len() == 0 {
            assert(rest@ =~= seq![seg]);
        } else {
            assert(rest@ =~= base.push(seg));
        }
    }
    let mut r = rest;
    while after_rev.len() > 0
        invariant
            insert_by_start(all, seg) == r@ + after_rev@.reverse(),
        decreases after_rev.len(),
    {
        let ghost before = after_rev@;
        let x = after_rev.pop().unwrap();
        assert(before.reverse() =~= seq![x] + after_rev@.reverse());
        let ghost rr = r@;
        r.push(x);
        assert(rr + (seq![x] + after_rev@.reverse()) =~= r@ + after_rev@.reverse());
    }
    assert(r@ + after_rev@.reverse() =~= r@);
    r
}

fn copy_segments(segs: &Vec<PasteSegment>) -> (r: Vec<PasteSegment>)
    ensures
        r@ == segs@,
{
    let mut r: Vec<PasteSegment> = Vec::new();
    let mut i: usize = 0;
    while i < segs.len()
        invariant
            i <= segs@.len(),
            r@ == segs@.take(i as int),
        decreases segs.len() - i,
    {
        let s = &segs[i];
        r.push(PasteSegment { start: s.start, marker_len: s.marker_len, content: s.content.clone() });
        assert(segs@.take(i as int + 1) =~= segs@.take(i as int).push(segs@[i as int]));
        i += 1;
    }
    assert(segs@.take(segs@.len() as int) =~= segs@);
    r
}

// ---------------------------------------------------------------------
// The prompt being written
// ---------------------------------------------------------------------

/// The prompt as it was when browsing the history began.
#[derive(Clone, Debug)]
pub struct InputDraft {
    pub input: String,
    pub paste_segments: Vec<PasteSegment>,
    pub submission_mode: InputSubmissionMode,
}

/// A prompt waiting for the running turn to end: what is sent, what the
/// composer showed, and the collapsed pastes of the shown text.
#[derive(Clone, Debug)]
pub struct QueuedPrompt {
    pub prompt: String,
    pub display_prompt: String,
    pub paste_segments: Vec<PasteSegment>,
}

/// The model of a draft.
#[verifier::ext_equal]
pub struct DraftView {
    pub input: Seq<char>,
    pub segments: Seq<PasteSegment>,
    pub mode: InputSubmissionMode,
}

/// The model of a queued prompt.
#[verifier::ext_equal]
pub struct QueuedView {
    pub prompt: Seq<char>,
    pub display: Seq<char>,
    pub segments: Seq<PasteSegment>,
}

/// The model of the composer's prompt state.
#[verifier::ext_equal]
pub struct InputView {
    pub input: Seq<char>,
    pub cursor: int,
    pub segments: Seq<PasteSegment>,
    pub mode: InputSubmissionMode,
    pub history: Seq<Seq<char>>,
    pub history_cursor: Option<int>,
    pub draft: Option<DraftView>,
    pub queued: Seq<QueuedView>,
    pub steering: Seq<Seq<char>>,
}

impl View for InputDraft {
    type V = DraftView;

    open spec fn view(&self) -> DraftView {
        DraftView { input: self.input@, segments: self.paste_segments@, mode: self.submission_mode }
    }
}

impl View for QueuedPrompt {
    type V = QueuedView;

    open spec fn view(&self) -> QueuedView {
        QueuedView { prompt: self.prompt@, display: self.display_prompt@, segments: self.paste_segments@ }
    }
}

impl QueuedPrompt {
    /// A queued prompt typed without collapsed pastes.
    pub fn from_prompt(prompt: &str) -> (q: Self)
        ensures
            q@ == (QueuedView { prompt: prompt@, display: prompt@, segments: Seq::empty() }),
    {
        QueuedPrompt {
            prompt: String::from_str(prompt),
            display_prompt: String::from_str(prompt),
            paste_segments: Vec::new(),
        }
    }
}

/// The composer's prompt: its text, the cursor (a character index), the
/// collapsed pastes, how it is submitted, the history of sent prompts with
/// the browsing position, and the prompts waiting for the running turn.
#[derive(Clone, Debug)]
pub struct PromptInput {
    pub input: String,
    pub input_cursor: usize,
    pub paste_segments: Vec<PasteSegment>,
    pub submission_mode: InputSubmissionMode,
    pub input_history: Vec<String>,
    pub input_history_cursor: Option<usize>,
    pub input_history_draft: Option<InputDraft>,
    pub queued_prompts: VecDeque<QueuedPrompt>,
    pub steering_prompts: Vec<String>,
}

pub open spec fn opt_nat(o: Option<usize>) -> Option<int> {
    match o {
        Some(x) => Some(x as int),
        None => None,
    }
}

pub open spec fn opt_draft(o: Option<InputDraft>) -> Option<DraftView> {
    match o {
        Some(d) => Some(d@),
        None => None,
    }
}

impl View for PromptInput {
    type V = InputView;

    open spec fn view(&self) -> InputView {
        InputView {
            input: self.input@,
            cursor: self.input_cursor as int,
            segments: self.paste_segments@,
            mode: self.submission_mode,
            history: strings_view(self.input_history@),
            history_cursor: opt_nat(self.input_history_cursor),
            draft: opt_draft(self.input_history_draft),
            queued: Seq::new(self.queued_prompts@.len(), |i: int| self.queued_prompts@[i]@),
            steering: strings_view(self.steering_prompts@),
        }
    }
}

/// Whether a prompt text and its collapsed pastes fit together.
pub open spec fn text_and_segments_ok(text: Seq<char>, segs: Seq<PasteSegment>) -> bool {
    text_fits(text) && segments_valid(text, segs)
}

/// The invariant of the prompt state: the cursor lies in the text, the
/// collapsed pastes lie in order inside the text they belong to, and the
/// history position points at an entry.
pub open spec fn input_ok(v: InputView) -> bool {
    &&& text_and_segments_ok(v.input, v.segments)
    &&& 0 <= v.cursor <= v.input.len()
    &&& v.history_cursor matches Some(c) ==> 0 <= c < v.history.len()
    &&& forall|k: int| 0 <= k < v.history.len() ==> text_fits(#[trigger] v.history[k])
    &&& v.draft matches Some(d) ==> text_and_segments_ok(d.input, d.segments)
    &&& forall|k: int|
        0 <= k < v.queued.len() ==> text_and_segments_ok(#[trigger] v.queued[k].display, v.queued[k].segments)
}

/// Browsing the history ends.
pub open spec fn navigation_reset(v: InputView) -> InputView {
    InputView { history_cursor: None, draft: None, ..v }
}

/// The state after replacing `deleted` characters at `start` by `ins` and
/// moving the cursor to `cursor`; any edit ends history browsing.
pub open spec fn edited(v: InputView, start: int, deleted: int, ins: Seq<char>, cursor: int) -> InputView {
    InputView {
        input: spliced(v.input, start, deleted, ins),
        cursor,
        segments: adjusted(v.segments, start, deleted, ins.len() as int),
        history_cursor: None,
        draft: None,
        ..v
    }
}

/// The history after sending `prompt`: empty prompts and a repeat of the
/// latest entry are not recorded.
pub open spec fn history_pushed(v: InputView, prompt: Seq<char>) -> InputView {
    if prompt.len() == 0 || (v.history.len() > 0 && v.history.last() == prompt) {
        v
    } else {
        InputView { history: v.history.push(prompt), ..v }
    }
}

/// History entry `k` shown in the composer, with the given saved draft.
pub open spec fn showing_entry(v: InputView, k: int, draft: Option<DraftView>) -> InputView {
    InputView {
        input: v.history[k],
        cursor: v.history[k].len() as int,
        segments: Seq::empty(),
        mode: InputSubmissionMode::ParseCommands,
        history_cursor: Some(k),
        draft,
        ..v
    }
}

/// The draft that browsing returns to: the saved one, or an empty prompt.
pub open spec fn draft_or_empty(d: Option<DraftView>) -> DraftView {
    match d {
        Some(x) => x,
        None => DraftView { input: Seq::empty(), segments: Seq::empty(), mode: InputSubmissionMode::ParseCommands },
    }
}

/// One step through the history, and whether the composer changed:
/// going back from the prompt being written saves it as the draft and shows
/// the newest entry; going forward past the newest entry brings the draft
/// back.
pub open spec fn history_recalled(v: InputView, dir: HistoryDirection) -> (InputView, bool) {
    let n = v.history.len();
    if n == 0 {
        (v, false)
    } else if dir == HistoryDirection::Previous {
        match v.history_cursor {
            None => (
                showing_entry(v, n - 1, Some(DraftView { input: v.input, segments: v.segments, mode: v.mode })),
                true,
            ),
            Some(c) => (showing_entry(v, if c == 0 { 0 } else { c - 1 }, v.draft), true),
        }
    } else {
        match v.history_cursor {
            None => (v, false),
            Some(c) => if c + 1 < n {
                (showing_entry(v, c + 1, v.draft), true)
            } else {
                let d = draft_or_empty(v.draft);
                (
                    InputView {
                        input: d.input,
                        cursor: d.input.len() as int,
                        segments: d.segments,
                        mode: d.mode,
                        history_cursor: None,
                        draft: None,
                        ..v
                    },
                    true,
                )
            },
        }
    }
}

/// The prompt cleared after it was sent or queued.
pub open spec fn input_cleared(v: InputView) -> InputView {
    InputView { input: Seq::empty(), cursor: 0, segments: Seq::empty(), ..v }
}

/// The state with a collapsed paste recorded at `start`.
pub open spec fn with_paste(v: InputView, start: int, marker_len: int, content: String) -> InputView {
    InputView {
        segments: insert_by_start(
            v.segments,
            PasteSegment { start: start as usize, marker_len: marker_len as usize, content },
        ),
        ..v
    }
}

proof fn lemma_word_start_le(s: Seq<char>, i: int)
    requires
        0 <= i,
    ensures
        0 <= word_start(s, i) <= i,
    decreases i,
{
    if i > 0 && !is_white_space(s[i - 1]) {
        lemma_word_start_le(s, i - 1);
    }
}

proof fn lemma_prev_word_start_le(s: Seq<char>, i: int)
    requires
        0 <= i,
    ensures
        0 <= prev_word_start(s, i) <= i,
    decreases i,
{
    if i > 0 {
        if is_white_space(s[i - 1]) {
            lemma_prev_word_start_le(s, i - 1);
        } else {
            lemma_word_start_le(s, i);
        }
    }
}

proof fn lemma_word_end_bounds(s: Seq<char>, i: int)
    requires
        0 <= i <= s.len(),
    ensures
        i <= word_end(s, i) <= s.len(),
    decreases s.len() - i,
{
    if i < s.len() && !is_white_space(s[i]) {
        lemma_word_end_bounds(s, i + 1);
    }
}

proof fn lemma_next_word_end_bounds(s: Seq<char>, i: int)
    requires
        0 <= i <= s.len(),
    ensures
        i <= next_word_end(s, i) <= s.len(),
    decreases s.len() - i,
{
    if i < s.len() {
        if is_white_space(s[i]) {
            lemma_next_word_end_bounds(s, i + 1);
        } else {
            lemma_word_end_bounds(s, i);
        }
    }
}

/// An edit keeps the prompt state well formed.
proof fn lemma_edit_ok(v: InputView, start: int, deleted: int, ins: Seq<char>, cursor: int)
    requires
        input_ok(v),
        0 <= start,
        0 <= deleted,
        start + deleted <= v.input.len(),
        text_fits(spliced(v.input, start, deleted, ins)),
        0 <= cursor <= spliced(v.input, start, deleted, ins).len(),
    ensures
        input_ok(edited(v, start, deleted, ins, cursor)),
        spliced(v.input, start, deleted, ins).len() == v.input.len() - deleted + ins.len(),
{
    let hi = v.input.len() as int;
    assert(spliced(v.input, start, deleted, ins).len() == v.input.len() - deleted + ins.len());
    assert(moved(hi, start, deleted, ins.len() as int) == hi - deleted + ins.len());
    lemma_adjusted_within(v.segments, hi, start, deleted, ins.len() as int);
}

/// Recording a collapsed paste right after inserting its marker keeps the
/// prompt state well formed.
proof fn lemma_paste_ok(v: InputView, at: int, marker: Seq<char>, content: String)
    requires
        input_ok(v),
        0 <= at <= v.input.len(),
        marker.len() > 0,
        text_fits(spliced(v.input, at, 0, marker)),
    ensures
        input_ok(with_paste(edited(v, at, 0, marker, at + marker.len()), at, marker.len() as int, content)),
{
    let e = edited(v, at, 0, marker, at + marker.len());
    lemma_edit_ok(v, at, 0, marker, at + marker.len());
    lemma_within_markers(v.segments, v.input.len() as int);
    lemma_adjusted_apart(v.segments, at, marker.len() as int);
    let seg = PasteSegment { start: at as usize, marker_len: marker.len() as usize, content };
    lemma_insert_by_start(e.segments, seg, e.input.len() as int);
}

fn char_count(s: &str) -> (n: usize)
    ensures
        n == s@.len(),
{
    let v = chars_of(s);
    v.len()
}

impl PromptInput {
    /// An empty prompt with no history and nothing queued.
    pub fn new() -> (p: Self)
        ensures
            p@ == (InputView {
                input: Seq::empty(),
                cursor: 0,
                segments: Seq::empty(),
                mode: InputSubmissionMode::ParseCommands,
                history: Seq::empty(),
                history_cursor: None,
                draft: None,
                queued: Seq::empty(),
                steering: Seq::empty(),
            }),
            input_ok(p@),
    {
        let p = PromptInput {
            input: String::new(),
            input_cursor: 0,
            paste_segments: Vec::new(),
            submission_mode: InputSubmissionMode::ParseCommands,
            input_history: Vec::new(),
            input_history_cursor: None,
            input_history_draft: None,
            queued_prompts: VecDeque::new(),
            steering_prompts: Vec::new(),
        };
        assert(p@.history =~= Seq::<Seq<char>>::empty());
        assert(p@.queued =~= Seq::<QueuedView>::empty());
        assert(p@.steering =~= Seq::<Seq<char>>::empty());
        p
    }

    /// Number of characters in the prompt.
    pub fn input_char_len(&self) -> (n: usize)
        ensures
            n == self.input@.len(),
    {
        char_count(self.input.as_str())
    }

    /// Byte offset in the prompt of its character `char_index`.
    pub fn input_byte_index(&self, char_index: usize) -> (b: usize)
        requires
            bytes_fit(self.input@),
        ensures
            b == byte_offset(self.input@, char_index as int),
    {
        byte_index_of(self.input.as_str(), char_index)
    }

    /// Stops browsing the history.
    pub fn reset_input_history_navigation(&mut self)
        ensures
            final(self)@ == navigation_reset(old(self)@),
    {
        self.input_history_cursor = None;
        self.input_history_draft = None;
    }

    /// Records a sent prompt in the history.
    pub fn push_input_history(&mut self, prompt: &str)
        ensures
            final(self)@ == history_pushed(old(self)@, prompt@),
            input_ok(old(self)@) && text_fits(prompt@) ==> input_ok(final(self)@),
    {
        if char_count(prompt) == 0 {
            return;
        }
        let n = self.input_history.len();
        if n > 0 && str_eq(self.input_history[n - 1].as_str(), prompt) {
            return;
        }
        let ghost before = self.input_history@;
        self.input_history.push(String::from_str(prompt));
        assert(strings_view(self.input_history@) =~= strings_view(before).push(prompt@));
    }

    /// Shows the previous or next history entry, saving and restoring the
    /// prompt being written; returns whether the composer changed.
    pub fn recall_input_history(&mut self, direction: HistoryDirection) -> (changed: bool)
        requires
            input_ok(old(self)@),
        ensures
            final(self)@ == history_recalled(old(self)@, direction).0,
            changed == history_recalled(old(self)@, direction).1,
            input_ok(final(self)@),
    {
        let ghost v = self@;
        let n = self.input_history.len();
        if n == 0 {
            return false;
        }
        let next: usize;
        if direction == HistoryDirection::Previous {
            match self.input_history_cursor {
                None => {
                    let draft = InputDraft {
                        input: self.input.clone(),
                        paste_segments: copy_segments(&self.paste_segments),
                        submission_mode: self.submission_mode,
                    };
                    self.input_history_draft = Some(draft);
                    next = n - 1;
                },
                Some(c) => {
                    next = if c == 0 {
                        0
                    } else {
                        c - 1
                    };
                },
            }
        } else {
            match self.input_history_cursor {
                None => {
                    return false;
                },
                Some(c) => {
                    if c + 1 < n {
                        next = c + 1;
                    } else {
                        let draft = match self.input_history_draft.take() {
                            Some(d) => d,
                            None => InputDraft {
                                input: String::new(),
                                paste_segments: Vec::new(),
                                submission_mode: InputSubmissionMode::ParseCommands,
                            },
                        };
                        self.input = draft.input;
                        self.paste_segments = draft.paste_segments;
                        self.submission_mode = draft.submission_mode;
                        self.input_cursor = char_count(self.input.as_str());
                        self.input_history_cursor = None;
                        assert(self@ =~= history_recalled(v, direction).0);
                        return true;
                    }
                },
            }
        }
        assert(strings_view(self.input_history@)[next as int] == self.input_history@[next as int]@);
        self.input = self.input_history[next].clone();
        self.paste_segments = Vec::new();
        self.submission_mode = InputSubmissionMode::ParseCommands;
        self.input_cursor = char_count(self.input.as_str());
        self.input_history_cursor = Some(next);
        assert(self@ =~= history_recalled(v, direction).0);
        true
    }

    /// Replaces characters `start..end` of the prompt by `text`, leaving the
    /// cursor after it.
    pub fn replace_input_range(&mut self, start: usize, end: usize, text: &str)
        requires
            input_ok(old(self)@),
            start <= end <= old(self)@.input.len(),
            text_fits(spliced(old(self)@.input, start as int, end - start, text@)),
        ensures
            final(self)@ == edited(old(self)@, start as int, end - start, text@, start + text@.len()),
            input_ok(final(self)@),
    {
        let t = chars_of(text);
        proof {
            lemma_edit_ok(self@, start as int, end - start, text@, start + text@.len());
        }
        self.apply_edit(start, end - start, &t, start + t.len());
    }

    fn apply_edit(&mut self, start: usize, deleted: usize, ins: &Vec<char>, cursor: usize)
        requires
            start + deleted <= old(self)@.input.len(),
        ensures
            final(self)@ == edited(old(self)@, start as int, deleted as int, ins@, cursor as int),
    {
        let ghost v = self@;
        self.input_history_cursor = None;
        self.input_history_draft = None;
        let mut segs: Vec<PasteSegment> = Vec::new();
        std::mem::swap(&mut segs, &mut self.paste_segments);
        self.paste_segments = adjust_segments(segs, start, deleted, ins.len());
        let chars = chars_of(self.input.as_str());
        let next = splice(&chars, start, deleted, ins);
        self.input = string_of(&next);
        self.input_cursor = cursor;
        assert(self@ =~= edited(v, start as int, deleted as int, ins@, cursor as int));
    }

    /// Types `ch` at the cursor.
    pub fn insert_input_char(&mut self, ch: char)
        requires
            input_ok(old(self)@),
            text_fits(old(self)@.input.push(ch)),
        ensures
            final(self)@ == edited(old(self)@, old(self)@.cursor, 0, seq![ch], old(self)@.cursor + 1),
            input_ok(final(self)@),
    {
        let c = self.input_cursor;
        let ins = vec![ch];
        proof {
            assert(spliced(self@.input, c as int, 0, ins@).len() == self@.input.len() + 1);
            lemma_edit_ok(self@, c as int, 0, ins@, c + 1);
        }
        self.apply_edit(c, 0, &ins, c + 1);
    }

    /// Types `text` at the cursor.
    pub fn insert_input_text(&mut self, text: &str)
        requires
            input_ok(old(self)@),
            text_fits(old(self)@.input + text@),
        ensures
            final(self)@ == edited(old(self)@, old(self)@.cursor, 0, text@, old(self)@.cursor + text@.len()),
            input_ok(final(self)@),
    {
        let c = self.input_cursor;
        let ins = chars_of(text);
        proof {
            assert(spliced(self@.input, c as int, 0, ins@).len() == self@.input.len() + text@.len());
            lemma_edit_ok(self@, c as int, 0, ins@, c + text@.len());
        }
        self.apply_edit(c, 0, &ins, c + ins.len());
    }

    /// Pastes `text` at the cursor: a large paste shows as a marker that
    /// stands for it (see `paste_marker`).
    pub fn insert_pasted_input_text(&mut self, text: &str)
        requires
            input_ok(old(self)@),
            text@.len() < usize::MAX,
            match paste_marker(text@) {
                Some(m) => text_fits(old(self)@.input + m),
                None => text_fits(old(self)@.input + text@),
            },
        ensures
            input_ok(final(self)@),
            match paste_marker(text@) {
                None => final(self)@ == edited(
                    old(self)@,
                    old(self)@.cursor,
                    0,
                    text@,
                    old(self)@.cursor + text@.len(),
                ),
                Some(m) => exists|content: String|
                    content@ == text@ && final(self)@ == #[trigger] with_paste(
                        edited(old(self)@, old(self)@.cursor, 0, m, old(self)@.cursor + m.len()),
                        old(self)@.cursor,
                        m.len() as int,
                        content,
                    ),
            },
    {
        match paste_marker_for(text) {
            None => {
                self.insert_input_text(text);
            },
            Some(marker) => {
                let ghost v = self@;
                let c = self.input_cursor;
                let m = chars_of(marker.as_str());
                let content = String::from_str(text);
                proof {
                    reveal_strlit("[ pasted: ");
                    assert(m@.len() > 0);
                    assert(spliced(v.input, c as int, 0, m@).len() == v.input.len() + m@.len());
                    lemma_edit_ok(v, c as int, 0, m@, c + m@.len());
                    lemma_paste_ok(v, c as int, m@, content);
                }
                self.apply_edit(c, 0, &m, c + m.len());
                let mut segs: Vec<PasteSegment> = Vec::new();
                std::mem::swap(&mut segs, &mut self.paste_segments);
                let seg = PasteSegment { start: c, marker_len: m.len(), content };
                self.paste_segments = insert_segment(segs, seg);
                assert(self@ =~= with_paste(
                    edited(v, c as int, 0, m@, c + m@.len()),
                    c as int,
                    m@.len() as int,
                    content,
                ));
            },
        }
    }

    /// The prompt with every collapsed paste put back.
    pub fn expanded_input(&self) -> (r: String)
        requires
            input_ok(self@),
        ensures
            r@ == expand_from(self.input@, self.paste_segments@, 0, 0),
    {
        proof {
            lemma_within_markers(self.paste_segments@, self.input@.len() as int);
        }
        expand_paste_segments(self.input.as_str(), &self.paste_segments)
    }

    /// Deletes the character before the cursor; returns whether there was
    /// one.
    pub fn backspace_input(&mut self) -> (deleted: bool)
        requires
            input_ok(old(self)@),
        ensures
            input_ok(final(self)@),
            deleted == (old(self)@.cursor > 0),
            deleted ==> final(self)@ == edited(
                old(self)@,
                old(self)@.cursor - 1,
                1,
                Seq::empty(),
                old(self)@.cursor - 1,
            ),
            !deleted ==> final(self)@ == old(self)@,
    {
        if self.input_cursor == 0 {
            return false;
        }
        let c = self.input_cursor;
        let empty: Vec<char> = Vec::new();
        proof {
            lemma_edit_ok(self@, c - 1, 1, empty@, c - 1);
        }
        self.apply_edit(c - 1, 1, &empty, c - 1);
        true
    }

    /// Deletes the character at the cursor, if any.
    pub fn delete_input(&mut self)
        requires
            input_ok(old(self)@),
        ensures
            input_ok(final(self)@),
            old(self)@.cursor < old(self)@.input.len() ==> final(self)@ == edited(
                old(self)@,
                old(self)@.cursor,
                1,
                Seq::empty(),
                old(self)@.cursor,
            ),
            old(self)@.cursor >= old(self)@.input.len() ==> final(self)@ == old(self)@,
    {
        let c = self.input_cursor;
        if c >= char_count(self.input.as_str()) {
            return;
        }
        let empty: Vec<char> = Vec::new();
        proof {
            lemma_edit_ok(self@, c as int, 1, empty@, c as int);
        }
        self.apply_edit(c, 1, &empty, c);
    }

    /// Deletes the word before the cursor (and the white space after it).
    pub fn delete_word_before_cursor(&mut self)
        requires
            input_ok(old(self)@),
        ensures
            input_ok(final(self)@),
            ({
                let v = old(self)@;
                let p = prev_word_start(v.input, v.cursor);
                final(self)@ == edited(v, p, v.cursor - p, Seq::empty(), p)
            }),
    {
        let c = self.input_cursor;
        let p = previous_word_boundary(self.input.as_str(), c);
        let empty: Vec<char> = Vec::new();
        proof {
            lemma_prev_word_start_le(self@.input, c as int);
            assert(edit_at(self@.input, c as int) == c);
            lemma_edit_ok(self@, p as int, c - p, empty@, p as int);
        }
        self.apply_edit(p, c - p, &empty, p);
    }

    /// Empties the prompt after it was handed on.
    pub fn clear_submitted_input(&mut self)
        ensures
            final(self)@ == input_cleared(old(self)@),
            input_ok(old(self)@) ==> input_ok(final(self)@),
    {
        self.input = String::new();
        self.paste_segments = Vec::new();
        self.input_cursor = 0;
        assert(self@.segments =~= Seq::<PasteSegment>::empty());
    }

    /// The submission mode for this prompt, which is reset to reading
    /// slash commands.
    pub fn take_submission_mode(&mut self) -> (mode: InputSubmissionMode)
        ensures
            mode == old(self)@.mode,
            final(self)@ == (InputView { mode: InputSubmissionMode::ParseCommands, ..old(self)@ }),
    {
        let mode = self.submission_mode;
        self.submission_mode = InputSubmissionMode::ParseCommands;
        mode
    }
}

/// Whether `after` is `v` after Up or Down at width `w`: the history
/// entry recalled, where the cursor stands on the first (or last) visual
/// row and there is one to recall; else the cursor moved to the same
/// column of the row above (or below).
pub open spec fn recalled_or_moved(v: InputView, direction: HistoryDirection, w: nat, after: InputView) -> bool {
    if recall_allowed(v, direction, w) && history_recalled(v, direction).1 {
        after == history_recalled(v, direction).0
    } else {
        &&& after == (InputView { cursor: after.cursor, ..v })
        &&& cursor_on_visual_line(
            v.input,
            visual_lines(v.input, w),
            target_row(v, direction, w),
            cursor_column(v.input, v.cursor, w) as nat,
            after.cursor as nat,
        )
    }
}

/// The newest queued prompt brought back into the composer for editing.
pub open spec fn queued_recalled(v: InputView) -> InputView {
    let q = v.queued.last();
    InputView {
        input: q.display,
        cursor: q.display.len() as int,
        segments: q.segments,
        mode: InputSubmissionMode::ParseCommands,
        history_cursor: None,
        draft: None,
        queued: v.queued.drop_last(),
        ..v
    }
}

/// The state after queueing a prompt: the composer is emptied and browsing
/// the history ends.
pub open spec fn prompt_queued(v: InputView, q: QueuedView) -> InputView {
    InputView { queued: v.queued.push(q), ..navigation_reset(input_cleared(v)) }
}

/// The row of the cursor in the wrapped text before it (as drawn).
pub open spec fn cursor_row(input: Seq<char>, cursor: int, width: nat) -> int {
    (visual_lines(input.take(edit_at(input, cursor)), width).len() - 1) as u16 as int
}

/// The column of the cursor in the wrapped text before it (as drawn).
pub open spec fn cursor_column(input: Seq<char>, cursor: int, width: nat) -> int {
    display_w(visual_lines(input.take(edit_at(input, cursor)), width).last()) as u16 as int
}

/// Whether Up (or Down) on the cursor's row browses the history: the
/// cursor is on the first (or last) visual line.
pub open spec fn recall_allowed(v: InputView, dir: HistoryDirection, width: nat) -> bool {
    let y = cursor_row(v.input, v.cursor, width);
    if dir == HistoryDirection::Previous {
        y == 0
    } else {
        y + 1 >= visual_lines(v.input, width).len()
    }
}

/// The visual row the cursor moves to with Up (or Down).
pub open spec fn target_row(v: InputView, dir: HistoryDirection, width: nat) -> nat {
    let y = cursor_row(v.input, v.cursor, width);
    if dir == HistoryDirection::Previous {
        if y == 0 {
            0
        } else {
            (y - 1) as nat
        }
    } else {
        (y + 1) as nat
    }
}

impl PromptInput {
    /// Up or Down in the composer: browses the history from the first or
    /// last visual line, and otherwise moves the cursor to the same column
    /// of the line above or below.
    pub fn recall_input_history_or_move_cursor(&mut self, direction: HistoryDirection, terminal_width: usize)
        requires
            input_ok(old(self)@),
        ensures
            input_ok(final(self)@),
            recalled_or_moved(old(self)@, direction, terminal_width as nat, final(self)@),
    {
        let ghost v = self@;
        let visual_lines_now = input_visual_lines(self.input.as_str(), terminal_width);
        let position = input_cursor_position(self.input.as_str(), self.input_cursor, terminal_width);
        let can_recall = if direction == HistoryDirection::Previous {
            position.y == 0
        } else {
            position.y as usize + 1 >= visual_lines_now.len()
        };
        if can_recall && self.recall_input_history(direction) {
            return;
        }
        let target = if direction == HistoryDirection::Previous {
            position.y.saturating_sub(1) as usize
        } else {
            position.y as usize + 1
        };
        proof {
            lemma_visual_rows_fit(v.input, terminal_width as nat, target as nat);
            lemma_rows_inside(v.input, terminal_width as nat, target as nat);
        }
        let k = input_cursor_index_on_visual_line(
            self.input.as_str(),
            &visual_lines_now,
            target,
            position.x as usize,
        );
        proof {
            let lines = visual_lines(v.input, terminal_width as nat);
            if target < lines.len() {
                let n = choose|n: nat|
                    is_fit_len(lines[target as int], position.x as nat, n) && k == row_start(
                        v.input,
                        lines,
                        rows_before(lines, target as nat),
                    ) + n;
                assert(n <= lines[target as int].len());
            }
        }
        self.input_cursor = k;
        assert(self@ =~= InputView { cursor: k as int, ..v });
    }

    /// Brings the newest queued prompt back into the composer; returns
    /// whether there was one.
    pub fn recall_last_queued_prompt(&mut self) -> (recalled: bool)
        requires
            input_ok(old(self)@),
        ensures
            input_ok(final(self)@),
            recalled == (old(self)@.queued.len() > 0),
            recalled ==> final(self)@ == queued_recalled(old(self)@),
            !recalled ==> final(self)@ == old(self)@,
    {
        let ghost v = self@;
        match self.queued_prompts.pop_back() {
            None => false,
            Some(prompt) => {
                proof {
                    assert(v.queued.last() == prompt@);
                    assert(v.queued[v.queued.len() - 1] == prompt@);
                }
                self.input = prompt.display_prompt;
                self.paste_segments = prompt.paste_segments;
                self.submission_mode = InputSubmissionMode::ParseCommands;
                self.input_cursor = char_count(self.input.as_str());
                self.input_history_cursor = None;
                self.input_history_draft = None;
                assert(self@ =~= queued_recalled(v));
                true
            },
        }
    }

    /// Queues a prompt for after the running turn and empties the composer.
    pub fn queue_prompt(&mut self, prompt: String, display_prompt: String, paste_segments: Vec<PasteSegment>)
        requires
            input_ok(old(self)@),
            text_and_segments_ok(display_prompt@, paste_segments@),
        ensures
            final(self)@ == prompt_queued(
                old(self)@,
                QueuedView { prompt: prompt@, display: display_prompt@, segments: paste_segments@ },
            ),
            input_ok(final(self)@),
    {
        let ghost v = self@;
        let ghost q = QueuedView { prompt: prompt@, display: display_prompt@, segments: paste_segments@ };
        self.input_history_cursor = None;
        self.input_history_draft = None;
        self.input = String::new();
        self.paste_segments = Vec::new();
        self.input_cursor = 0;
        self.queued_prompts.push_back(QueuedPrompt { prompt, display_prompt, paste_segments });
        assert(self@ =~= prompt_queued(v, q));
    }

    /// Queues the prompt being written for after the running turn; an empty
    /// prompt is only cleared. Returns whether a prompt was queued.
    pub fn queue_prompt_after_turn(&mut self) -> (queued: bool)
        requires
            input_ok(old(self)@),
        ensures
            input_ok(final(self)@),
            ({
                let v = old(self)@;
                let sent = trim_seq(expand_from(v.input, v.segments, 0, 0));
                &&& queued == (sent.len() > 0)
                &&& queued ==> final(self)@ == prompt_queued(
                    v,
                    QueuedView { prompt: sent, display: v.input, segments: v.segments },
                )
                &&& !queued ==> final(self)@ == input_cleared(v)
            }),
    {
        let expanded = self.expanded_input();
        let prompt = trim(expanded.as_str());
        let display_prompt = self.input.clone();
        let paste_segments = copy_segments(&self.paste_segments);
        if char_count(prompt.as_str()) == 0 {
            self.clear_submitted_input();
            return false;
        }
        self.queue_prompt(prompt, display_prompt, paste_segments);
        true
    }

    /// Queues a steering prompt for the running turn and empties the
    /// composer.
    pub fn queue_steering_prompt(&mut self, prompt: String)
        ensures
            final(self)@ == (InputView {
                steering: old(self)@.steering.push(prompt@),
                ..navigation_reset(input_cleared(old(self)@))
            }),
            input_ok(old(self)@) ==> input_ok(final(self)@),
    {
        let ghost v = self@;
        let ghost p = prompt@;
        self.input_history_cursor = None;
        self.input_history_draft = None;
        self.input = String::new();
        self.paste_segments = Vec::new();
        self.input_cursor = 0;
        self.steering_prompts.push(prompt);
        assert(self@ =~= InputView { steering: v.steering.push(p), ..navigation_reset(input_cleared(v)) });
    }

    /// Hands over every steering prompt, oldest first.
    pub fn take_steering_prompts(&mut self) -> (prompts: Vec<String>)
        ensures
            strings_view(prompts@) == old(self)@.steering,
            final(self)@ == (InputView { steering: Seq::empty(), ..old(self)@ }),
            input_ok(old(self)@) ==> input_ok(final(self)@),
    {
        let mut prompts: Vec<String> = Vec::new();
        std::mem::swap(&mut prompts, &mut self.steering_prompts);
        assert(strings_view(self.steering_prompts@) =~= Seq::<Seq<char>>::empty());
        prompts
    }

    /// Takes the oldest queued prompt, to be sent next.
    pub fn take_next_queued_prompt(&mut self) -> (next: Option<QueuedPrompt>)
        ensures
            match next {
                None => old(self)@.queued.len() == 0 && final(self)@ == old(self)@,
                Some(q) => {
                    &&& old(self)@.queued.len() > 0
                    &&& q@ == old(self)@.queued[0]
                    &&& final(self)@ == (InputView { queued: old(self)@.queued.drop_first(), ..old(self)@ })
                },
            },
            input_ok(old(self)@) ==> input_ok(final(self)@),
    {
        let ghost v = self@;
        if self.queued_prompts.len() == 0 {
            return None;
        }
        match self.queued_prompts.pop_front() {
            Some(q) => {
                assert(self@ =~= InputView { queued: v.queued.drop_first(), ..v });
                Some(q)
            },
            None => None,
        }
    }
}

/// The work still pending when a turn is interrupted: the steering
/// prompts the turn had taken, those still waiting here, then the queued
/// prompts as they would have been sent.
pub open spec fn pending_messages(v: InputView, active: Seq<Seq<char>>) -> Seq<Seq<char>> {
    active + v.steering + Seq::new(v.queued.len(), |i: int| v.queued[i].prompt)
}

/// The pending work followed by the prompt being written (expanded), when
/// that holds more than white space.
pub open spec fn restored_messages(v: InputView, active: Seq<Seq<char>>) -> Seq<Seq<char>> {
    let e = expand_from(v.input, v.segments, 0, 0);
    if trim_seq(e).len() > 0 {
        pending_messages(v, active).push(e)
    } else {
        pending_messages(v, active)
    }
}

/// The composer after an interrupt: all pending work, separated by blank
/// lines, becomes the prompt being written; nothing stays queued.
pub open spec fn work_restored(v: InputView, active: Seq<Seq<char>>) -> InputView {
    if pending_messages(v, active).len() == 0 {
        v
    } else {
        let t = join_seqs(restored_messages(v, active), "\n\n"@);
        InputView {
            input: t,
            cursor: t.len() as int,
            segments: Seq::empty(),
            mode: InputSubmissionMode::ParseCommands,
            history_cursor: None,
            draft: None,
            queued: Seq::empty(),
            steering: Seq::empty(),
            ..v
        }
    }
}

impl PromptInput {
    /// Puts all pending work back into the composer after an interrupt (see
    /// `work_restored`); `active_steering` holds the steering prompts that
    /// the interrupted turn had taken, oldest first.
    pub fn restore_pending_work_to_input(&mut self, active_steering: Vec<String>)
        requires
            input_ok(old(self)@),
            text_fits(join_seqs(restored_messages(old(self)@, strings_view(active_steering@)), "\n\n"@)),
        ensures
            final(self)@ == work_restored(old(self)@, strings_view(active_steering@)),
            input_ok(final(self)@),
    {
        let ghost v = self@;
        let ghost act = strings_view(active_steering@);
        if active_steering.len() == 0 && self.steering_prompts.len() == 0 && self.queued_prompts.len() == 0 {
            assert(pending_messages(v, act) =~= Seq::<Seq<char>>::empty());
            return;
        }
        let mut messages = active_steering;
        let mut steering: Vec<String> = Vec::new();
        std::mem::swap(&mut steering, &mut self.steering_prompts);
        let mut i: usize = 0;
        while i < steering.len()
            invariant
                i <= steering@.len(),
                strings_view(steering@) == v.steering,
                strings_view(messages@) == act + v.steering.take(i as int),
            decreases steering.len() - i,
        {
            let ghost before = messages@;
            messages.push(steering[i].clone());
            assert(strings_view(messages@) =~= strings_view(before).push(v.steering[i as int]));
            assert(v.steering.take(i as int + 1) =~= v.steering.take(i as int).push(v.steering[i as int]));
            i += 1;
        }
        assert(v.steering.take(steering@.len() as int) =~= v.steering);
        let mut queued: VecDeque<QueuedPrompt> = VecDeque::new();
        std::mem::swap(&mut queued, &mut self.queued_prompts);
        let ghost prompts = Seq::new(v.queued.len(), |k: int| v.queued[k].prompt);
        let mut j: usize = 0;
        while j < queued.len()
            invariant
                j <= queued@.len(),
                queued@.len() == v.queued.len(),
                prompts == Seq::new(v.queued.len(), |k: int| v.queued[k].prompt),
                forall|k: int| 0 <= k < queued@.len() ==> (#[trigger] queued@[k])@ == v.queued[k],
                strings_view(messages@) == act + v.steering + prompts.take(j as int),
            decreases queued.len() - j,
        {
            let ghost before = messages@;
            messages.push(queued[j].prompt.clone());
            assert(queued@[j as int]@ == v.queued[j as int]);
            assert(strings_view(messages@) =~= strings_view(before).push(prompts[j as int]));
            assert(prompts.take(j as int + 1) =~= prompts.take(j as int).push(prompts[j as int]));
            j += 1;
        }
        assert(prompts.take(queued@.len() as int) =~= prompts);
        assert(strings_view(messages@) == pending_messages(v, act));
        proof {
            lemma_within_markers(self.paste_segments@, self.input@.len() as int);
        }
        let expanded = expand_paste_segments(self.input.as_str(), &self.paste_segments);
        let trimmed_draft = trim(expanded.as_str());
        if char_count(trimmed_draft.as_str()) > 0 {
            let ghost before = messages@;
            messages.push(expanded);
            assert(strings_view(messages@) =~= strings_view(before).push(expand_from(v.input, v.segments, 0, 0)));
        }
        assert(strings_view(messages@) == restored_messages(v, act));
        self.input = join_strings(&messages, "\n\n");
        self.paste_segments = Vec::new();
        self.input_cursor = char_count(self.input.as_str());
        self.submission_mode = InputSubmissionMode::ParseCommands;
        self.input_history_cursor = None;
        self.input_history_draft = None;
        assert(self@ =~= work_restored(v, act));
    }
}

// ---------------------------------------------------------------------
// Notices
// ---------------------------------------------------------------------

/// The transcript notice for queued message number `count`.
pub fn queued_message_notice(count: usize) -> (t: String)
    ensures
        t@ == "queued message "@ + decimal(count as nat) + " for after the current turn"@,
{
    let mut t = String::new();
    push_str(&mut t, "queued message ");
    push_str(&mut t, decimal_string(count as u64).as_str());
    push_str(&mut t, " for after the current turn");
    t
}

/// The status line after queueing: how many messages wait.
pub fn queued_messages_status(count: usize) -> (t: String)
    ensures
        t@ == "queued "@ + decimal(count as nat) + " message(s)"@,
{
    let mut t = String::new();
    push_str(&mut t, "queued ");
    push_str(&mut t, decimal_string(count as u64).as_str());
    push_str(&mut t, " message(s)");
    t
}

/// The transcript notice for queued steering prompt number `count`.
pub fn queued_steer_notice(count: usize) -> (t: String)
    ensures
        t@ == "queued steer "@ + decimal(count as nat) + " for after the current assistant turn"@,
{
    let mut t = String::new();
    push_str(&mut t, "queued steer ");
    push_str(&mut t, decimal_string(count as u64).as_str());
    push_str(&mut t, " for after the current assistant turn");
    t
}

/// The status line after steering: how many steering prompts wait.
pub fn queued_steers_status(count: usize) -> (t: String)
    ensures
        t@ == "queued "@ + decimal(count as nat) + " steer(s)"@,
{
    let mut t = String::new();
    push_str(&mut t, "queued ");
    push_str(&mut t, decimal_string(count as u64).as_str());
    push_str(&mut t, " steer(s)");
    t
}

// ---------------------------------------------------------------------
// Laws
// ---------------------------------------------------------------------

/// Going back into the history from the prompt being written and then
/// forward again gives the prompt back as it was: its text, its collapsed
/// pastes and its submission mode, with the cursor at its end.
pub proof fn lemma_history_round_trip(v: InputView)
    requires
        input_ok(v),
        v.history.len() > 0,
        v.history_cursor is None,
    ensures
        ({
            let (a, r1) = history_recalled(v, HistoryDirection::Previous);
            let (b, r2) = history_recalled(a, HistoryDirection::Next);
            &&& r1 && r2
            &&& b.input == v.input
            &&& b.segments == v.segments
            &&& b.mode == v.mode
            &&& b.cursor == v.input.len()
            &&& b.history == v.history
            &&& b.history_cursor is None
            &&& b.draft is None
        }),
{
}

/// Whether a history holds no empty prompt and never the same prompt twice
/// in a row.
pub open spec fn history_clean(h: Seq<Seq<char>>) -> bool {
    &&& forall|k: int| 0 <= k < h.len() ==> (#[trigger] h[k]).len() > 0
    &&& forall|k: int| 0 < k < h.len() ==> #[trigger] h[k] != h[k - 1]
}

/// Recording sent prompts never stores an empty prompt or repeats the
/// newest entry.
pub proof fn lemma_history_stays_clean(v: InputView, prompt: Seq<char>)
    requires
        history_clean(v.history),
    ensures
        history_clean(history_pushed(v, prompt).history),
{
    let h2 = history_pushed(v, prompt).history;
    if !(prompt.len() == 0 || (v.history.len() > 0 && v.history.last() == prompt)) {
        assert forall|k: int| 0 < k < h2.len() implies #[trigger] h2[k] != h2[k - 1] by {
            if k == h2.len() - 1 {
                assert(h2[k] == prompt);
                assert(h2[k - 1] == v.history.last());
            } else {
                assert(h2[k] == v.history[k]);
            }
        }
        assert forall|k: int| 0 <= k < h2.len() implies (#[trigger] h2[k]).len() > 0 by {
            if k < h2.len() - 1 {
                assert(h2[k] == v.history[k]);
            }
        }
    }
}

/// A prompt queued while a turn runs comes back for editing exactly as it
/// was shown, collapsed pastes included.
pub proof fn lemma_queue_then_recall(v: InputView, q: QueuedView)
    ensures
        queued_recalled(prompt_queued(v, q)).input == q.display,
        queued_recalled(prompt_queued(v, q)).segments == q.segments,
        queued_recalled(prompt_queued(v, q)).queued == v.queued,
{
    assert(prompt_queued(v, q).queued.drop_last() =~= v.queued);
}

// ---------------------------------------------------------------------
// Keys in the composer
// ---------------------------------------------------------------------

/// A key the composer reads.
#[derive(Clone, Copy, Debug, PartialEq, Eq, Structural)]
pub enum KeyCode {
    Char(char),
    Enter,
    Esc,
    Backspace,
    Delete,
    Left,
    Right,
    Up,
    Down,
    Home,
    End,
    /// Any other key.
    Other,
}

/// A key press: the key and the modifiers held (`other` for any modifier
/// besides control, alt and shift).
#[derive(Clone, Copy, Debug, PartialEq, Eq)]
pub struct KeyPress {
    pub code: KeyCode,
    pub control: bool,
    pub alt: bool,
    pub shift: bool,
    pub other: bool,
}

/// Whether control is the only modifier held.
pub open spec fn only_control(k: KeyPress) -> bool {
    k.control && !k.alt && !k.shift && !k.other
}

/// Whether alt is the only modifier held.
pub open spec fn only_alt(k: KeyPress) -> bool {
    !k.control && k.alt && !k.shift && !k.other
}

/// What the session does after the composer read a key.
pub enum ComposerKeyAction {
    /// Quit the session.
    Quit,
    /// The prompt was emptied: drop the pending images too and show
    /// `status`.
    InputCleared { status: String },
    /// Send the prompt.
    Submit,
    /// A queued prompt came back for editing: show `status`.
    QueuedRecalled { status: String },
    /// The prompt was queued for after the running turn: show `notice` in
    /// the transcript and `status`.
    Queued { notice: String, status: String },
    /// Nothing more.
    Handled,
}

/// The composer's answer to a key: the action, whether a first ctrl-c is
/// now waiting for a second, and whether a paste burst in progress ends.
pub struct ComposerKeyStep {
    pub action: ComposerKeyAction,
    pub ctrl_c_pending: bool,
    pub clear_paste_burst: bool,
}

/// Whether the prompt can take the character a key would insert.
pub open spec fn key_fits(v: InputView, k: KeyPress) -> bool {
    match k.code {
        KeyCode::Char(ch) => text_fits(v.input.push(ch)),
        KeyCode::Enter => text_fits(v.input.push('\n')),
        _ => true,
    }
}

/// The prompt after an edit key (anything but ctrl-c, Up, Down, and Enter
/// that sends or queues), and whether it ends a paste burst, while a turn
/// is `running` or not; `None` when `k` is not such a key.
pub open spec fn edited_by_key(v: InputView, k: KeyPress, running: bool) -> Option<(InputView, bool)> {
    match k.code {
        KeyCode::Esc => Some((v, running)),
        KeyCode::Backspace => if only_alt(k) {
            let p = prev_word_start(v.input, v.cursor);
            Some((edited(v, p, v.cursor - p, Seq::empty(), p), false))
        } else if v.cursor > 0 {
            Some((edited(v, v.cursor - 1, 1, Seq::empty(), v.cursor - 1), false))
        } else {
            Some((v, false))
        },
        KeyCode::Delete => if v.cursor < v.input.len() {
            Some((edited(v, v.cursor, 1, Seq::empty(), v.cursor), false))
        } else {
            Some((v, false))
        },
        KeyCode::Left => if only_alt(k) {
            Some((InputView { cursor: prev_word_start(v.input, edit_at(v.input, v.cursor)), ..v }, false))
        } else {
            Some((InputView { cursor: if v.cursor > 0 { v.cursor - 1 } else { 0 }, ..v }, false))
        },
        KeyCode::Right => if only_alt(k) {
            Some((InputView { cursor: next_word_end(v.input, edit_at(v.input, v.cursor)), ..v }, false))
        } else {
            Some((InputView { cursor: if v.cursor < v.input.len() { v.cursor + 1 } else { v.input.len() as int }, ..v }, false))
        },
        KeyCode::Home => Some((InputView { cursor: 0, ..navigation_reset(v) }, false)),
        KeyCode::End => Some((InputView { cursor: v.input.len() as int, ..navigation_reset(v) }, false)),
        KeyCode::Enter => if (only_alt(k) && !running) || (k.shift && !only_alt(k)) {
            Some((edited(v, v.cursor, 0, seq!['\n'], v.cursor + 1), true))
        } else {
            None
        },
        KeyCode::Char(ch) => if !k.control && !k.alt {
            Some((edited(v, v.cursor, 0, seq![ch], v.cursor + 1), false))
        } else {
            Some((v, true))
        },
        KeyCode::Other => Some((v, true)),
        KeyCode::Up => None,
        KeyCode::Down => None,
    }
}

/// The prompt queued by alt-Enter while a turn runs: the trimmed text
/// with its pastes expanded, when there is any; else the prompt is just
/// emptied.
pub open spec fn queued_by_key(v: InputView, after: InputView, action: ComposerKeyAction) -> bool {
    let sent = trim_seq(expand_from(v.input, v.segments, 0, 0));
    if sent.len() > 0 {
        &&& after == prompt_queued(v, QueuedView { prompt: sent, display: v.input, segments: v.segments })
        &&& action matches ComposerKeyAction::Queued { notice, status }
        &&& notice@ == "queued message "@ + decimal(after.queued.len()) + " for after the current turn"@
        &&& status@ == "queued "@ + decimal(after.queued.len()) + " message(s)"@
    } else {
        after == input_cleared(v) && action is Handled
    }
}

/// Whether `after` and `r` are the composer's answer to `k` on `v`, at
/// terminal width `w`, with a first ctrl-c `pending` or not, while a turn
/// is `running` or not. Ctrl-c empties the prompt, and quits when it comes
/// again; alt-Up brings back the newest queued prompt; Up and Down recall
/// history or move the cursor; Enter sends, with shift it breaks the line,
/// and with alt it breaks the line or, while a turn runs, queues the
/// prompt; every other key edits as `edited_by_key` says. Any key but
/// ctrl-c ends the wait for a second one.
pub open spec fn composer_key_result(
    v: InputView,
    pending: bool,
    k: KeyPress,
    w: nat,
    running: bool,
    after: InputView,
    r: ComposerKeyStep,
) -> bool {
    if only_control(k) && k.code == KeyCode::Char('c') {
        &&& r.ctrl_c_pending
        &&& !r.clear_paste_burst
        &&& if pending {
            after == v && r.action is Quit
        } else {
            &&& after == (InputView { mode: InputSubmissionMode::ParseCommands, ..input_cleared(v) })
            &&& r.action matches ComposerKeyAction::InputCleared { status }
            &&& status@ == (if running {
                "input cleared; press esc to interrupt model"@
            } else {
                "input cleared; press ctrl-c again to quit"@
            })
        }
    } else {
        &&& !r.ctrl_c_pending
        &&& match k.code {
            KeyCode::Up => {
                &&& !r.clear_paste_burst
                &&& if only_alt(k) {
                    if v.queued.len() > 0 {
                        &&& after == queued_recalled(v)
                        &&& r.action matches ComposerKeyAction::QueuedRecalled { status }
                        &&& status@ == "editing queued message; "@ + decimal((v.queued.len() - 1) as nat)
                            + " queued message(s) remain"@
                    } else {
                        after == v && r.action is Handled
                    }
                } else {
                    recalled_or_moved(v, HistoryDirection::Previous, w, after) && r.action is Handled
                }
            },
            KeyCode::Down => !r.clear_paste_burst && recalled_or_moved(v, HistoryDirection::Next, w, after)
                && r.action is Handled,
            _ => if running && only_alt(k) && k.code == KeyCode::Enter {
                r.clear_paste_burst && queued_by_key(v, after, r.action)
            } else {
                match edited_by_key(v, k, running) {
                    Some((e, clear)) => after == e && r.clear_paste_burst == clear && r.action is Handled,
                    None => after == v && !r.clear_paste_burst && r.action is Submit,
                }
            },
        }
    }
}

impl PromptInput {
    /// Puts the cursor at character `cursor`.
    fn set_cursor(&mut self, cursor: usize)
        ensures
            final(self)@ == (InputView { cursor: cursor as int, ..old(self)@ }),
    {
        let ghost v = self@;
        self.input_cursor = cursor;
        assert(self@ =~= InputView { cursor: cursor as int, ..v });
    }

    /// Reads one key in the composer, at terminal width `width`, with a
    /// first ctrl-c `ctrl_c_pending` or not, while a turn is `running` or
    /// not (see `composer_key_result`).
    pub fn handle_composer_key(&mut self, key: KeyPress, ctrl_c_pending: bool, width: usize, running: bool) -> (r:
        ComposerKeyStep)
        requires
            input_ok(old(self)@),
            key_fits(old(self)@, key),
        ensures
            input_ok(final(self)@),
            composer_key_result(old(self)@, ctrl_c_pending, key, width as nat, running, final(self)@, r),
    {
        let ghost v = self@;
        if key.control && !key.alt && !key.shift && !key.other && key.code == KeyCode::Char('c') {
            if ctrl_c_pending {
                return ComposerKeyStep { action: ComposerKeyAction::Quit, ctrl_c_pending: true, clear_paste_burst: false };
            }
            self.clear_submitted_input();
            let ghost cleared = self@;
            self.submission_mode = InputSubmissionMode::ParseCommands;
            assert(self@ =~= InputView { mode: InputSubmissionMode::ParseCommands, ..cleared });
            return ComposerKeyStep {
                action: ComposerKeyAction::InputCleared {
                    status: if running {
                        String::from_str("input cleared; press esc to interrupt model")
                    } else {
                        String::from_str("input cleared; press ctrl-c again to quit")
                    },
                },
                ctrl_c_pending: true,
                clear_paste_burst: false,
            };
        }
        let alt_only = !key.control && key.alt && !key.shift && !key.other;
        let mut clear = false;
        let mut action = ComposerKeyAction::Handled;
        match key.code {
            KeyCode::Esc => {
                clear = running;
            },
            KeyCode::Backspace => {
                if alt_only {
                    self.delete_word_before_cursor();
                } else {
                    self.backspace_input();
                }
            },
            KeyCode::Delete => {
                self.delete_input();
            },
            KeyCode::Left => {
                if alt_only {
                    let c = previous_word_boundary(self.input.as_str(), self.input_cursor);
                    self.set_cursor(c);
                    proof {
                        lemma_prev_word_start_le(v.input, edit_at(v.input, v.cursor));
                    }
                } else if self.input_cursor > 0 {
                    let c = self.input_cursor - 1;
                    self.set_cursor(c);
                }
            },
            KeyCode::Right => {
                if alt_only {
                    let c = next_word_boundary(self.input.as_str(), self.input_cursor);
                    self.set_cursor(c);
                    proof {
                        lemma_next_word_end_bounds(v.input, edit_at(v.input, v.cursor));
                    }
                } else if self.input_cursor < self.input_char_len() {
                    let c = self.input_cursor + 1;
                    self.set_cursor(c);
                }
            },
            KeyCode::Up => {
                if alt_only {
                    if self.recall_last_queued_prompt() {
                        assert(self@.queued.len() == v.queued.len() - 1);
                        assert(self.queued_prompts@.len() == self@.queued.len());
                        let mut status = String::new();
                        push_str(&mut status, "editing queued message; ");
                        push_str(&mut status, decimal_string(self.queued_prompts.len() as u64).as_str());
                        push_str(&mut status, " queued message(s) remain");
                        action = ComposerKeyAction::QueuedRecalled { status };
                    }
                } else {
                    self.recall_input_history_or_move_cursor(HistoryDirection::Previous, width);
                }
            },
            KeyCode::Down => {
                self.recall_input_history_or_move_cursor(HistoryDirection::Next, width);
            },
            KeyCode::Home => {
                self.reset_input_history_navigation();
                self.set_cursor(0);
            },
            KeyCode::End => {
                self.reset_input_history_navigation();
                let c = self.input_char_len();
                self.set_cursor(c);
            },
            KeyCode::Enter => {
                if alt_only && running {
                    if self.queue_prompt_after_turn() {
                        let count = self.queued_prompts.len();
                        assert(count == self@.queued.len());
                        action = ComposerKeyAction::Queued {
                            notice: queued_message_notice(count),
                            status: queued_messages_status(count),
                        };
                    }
                    clear = true;
                } else if alt_only || key.shift {
                    self.insert_input_char('\n');
                    clear = true;
                } else {
                    action = ComposerKeyAction::Submit;
                }
            },
            KeyCode::Char(ch) => {
                if !key.control && !key.alt {
                    self.insert_input_char(ch);
                } else {
                    clear = true;
                }
            },
            KeyCode::Other => {
                clear = true;
            },
        }
        ComposerKeyStep { action, ctrl_c_pending: false, clear_paste_burst: clear }
    }
}

// ---------------------------------------------------------------------
// Submitting
// ---------------------------------------------------------------------

/// What a submitted prompt turns into, as far as the composer can tell.
pub enum SubmitStart {
    /// Nothing to send; the composer was emptied.
    Empty,
    /// An inline shell command holds a collapsed paste; nothing runs.
    PastedShellBlocked,
    /// Run `command` in the shell; the composer was emptied.
    Shell { mode: InlineShellMode, command: String },
    /// Read the text as a slash command first (`prompt` with pastes
    /// expanded, `display` as typed, both trimmed).
    Command { prompt: String, display: String },
    /// Send the text as a prompt.
    Prompt { prompt: String, display: String },
}

/// Whether `after` and `r` are what submitting `v` gives, with images
/// waiting or not: an empty submission just empties the composer; `!` and
/// `!!` run a shell command (refused while a paste is collapsed in it);
/// anything else is read as a slash command or sent as a prompt, as the
/// submission mode says, and the mode goes back to reading commands.
pub open spec fn submit_result(v: InputView, has_images: bool, after: InputView, r: SubmitStart) -> bool {
    let prompt = trim_seq(expand_from(v.input, v.segments, 0, 0));
    let display = trim_seq(v.input);
    if prompt.len() == 0 && !has_images {
        after == input_cleared(v) && r is Empty
    } else {
        match parse_shell(display) {
            Some((mode, command)) => if v.segments.len() > 0 {
                after == v && r is PastedShellBlocked
            } else {
                after == input_cleared(v) && (r matches SubmitStart::Shell { mode: m, command: c } && m == mode
                    && c@ == command)
            },
            None => {
                &&& after == (InputView { mode: InputSubmissionMode::ParseCommands, ..v })
                &&& if v.mode == InputSubmissionMode::ParseCommands {
                    r matches SubmitStart::Command { prompt: p, display: d } && p@ == prompt && d@ == display
                } else {
                    r matches SubmitStart::Prompt { prompt: p, display: d } && p@ == prompt && d@ == display
                }
            },
        }
    }
}

impl PromptInput {
    /// Starts submitting the prompt, with images waiting or not (see
    /// `submit_result`).
    pub fn begin_submit(&mut self, has_images: bool) -> (r: SubmitStart)
        requires
            input_ok(old(self)@),
        ensures
            input_ok(final(self)@),
            submit_result(old(self)@, has_images, final(self)@, r),
    {
        let expanded = self.expanded_input();
        let prompt = trim(expanded.as_str());
        let display = trim(self.input.as_str());
        if char_count(prompt.as_str()) == 0 && !has_images {
            self.clear_submitted_input();
            return SubmitStart::Empty;
        }
        if let Some((mode, command)) = InlineShellMode::parse(display.as_str()) {
            if self.paste_segments.len() > 0 {
                return SubmitStart::PastedShellBlocked;
            }
            self.clear_submitted_input();
            return SubmitStart::Shell { mode, command };
        }
        match self.take_submission_mode() {
            InputSubmissionMode::ParseCommands => SubmitStart::Command { prompt, display },
            InputSubmissionMode::Prompt => SubmitStart::Prompt { prompt, display },
        }
    }
}

} // verus!

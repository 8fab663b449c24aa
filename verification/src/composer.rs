//! Transcript entries, the composer's text editing and the small rules of
//! the session view: pastes, slash commands, word motion and titles.
use vstd::prelude::*;
use crate::text::{
    chars_of, chars_without, decimal, decimal_string, is_white_space, is_whitespace, push_range,
    push_str, splice, spliced, string_of, string_of_range, trim_end_in, trim_end_set, trim_in,
    trim_set, trim_start_seq, leading_ws, lemma_leading_ws, skip_ws_start, utf8_byte_len, utf8_len,
    white_space_set, without_char,
};
use crate::wrap::{lemma_next_nl, lemma_next_nl_at, next_nl};

verus! {

/// A collapsed paste inside the composer: the marker text occupies
/// `marker_len` characters from `start`, and stands for `content`.
#[derive(Clone, Debug, PartialEq, Eq)]
pub struct PasteSegment {
    pub start: usize,
    pub marker_len: usize,
    pub content: String,
}

impl PasteSegment {
    /// Character index right after the marker.
    pub fn end(&self) -> (e: usize)
        requires
            self.start + self.marker_len <= usize::MAX,
        ensures
            e == self.start + self.marker_len,
    {
        self.start + self.marker_len
    }
}

/// How a tool call is coloured in the transcript.
#[derive(Clone, Copy, Debug, PartialEq, Eq)]
pub enum ToolDisplayStyle {
    DefaultTool,
    FileOrCommand,
    FileDiff,
    Skill,
    Web,
    Questionnaire,
}

#[derive(Clone, Copy, Debug, PartialEq, Eq)]
pub enum ToolEntryState {
    Running,
    Finished { ok: bool, display_style: ToolDisplayStyle },
}

#[derive(Clone, Debug)]
pub struct ToolEntry {
    pub state: ToolEntryState,
    pub display_lines: Vec<String>,
    pub expanded: bool,
}

/// One entry of the transcript.
#[derive(Clone, Debug)]
pub enum Entry {
    User(String),
    Assistant(String),
    Reasoning(String),
    Tool(ToolEntry),
    Notice(String),
    Error(String),
}

/// Which stream a text delta belongs to.
#[derive(Clone, Copy, Debug, PartialEq, Eq)]
pub enum StreamKind {
    Assistant,
    Reasoning,
}

impl StreamKind {
    /// The transcript entry that holds text of this stream.
    pub fn entry(self, text: String) -> (e: Entry)
        ensures
            self == StreamKind::Assistant ==> e == Entry::Assistant(text),
            self == StreamKind::Reasoning ==> e == Entry::Reasoning(text),
    {
        match self {
            StreamKind::Assistant => Entry::Assistant(text),
            StreamKind::Reasoning => Entry::Reasoning(text),
        }
    }
}

pub fn is_tool_entry(entry: &Entry) -> (b: bool)
    ensures
        b == (entry is Tool),
{
    match entry {
        Entry::Tool(_) => true,
        _ => false,
    }
}

/// Number of newline characters in `s`.
pub open spec fn newline_count(s: Seq<char>) -> nat
    decreases s.len(),
{
    if s.len() == 0 {
        0
    } else {
        newline_count(s.drop_last()) + if s.last() == '\n' {
            1nat
        } else {
            0nat
        }
    }
}

proof fn lemma_newline_count_bound(s: Seq<char>)
    ensures
        newline_count(s) <= s.len(),
    decreases s.len(),
{
    if s.len() > 0 {
        lemma_newline_count_bound(s.drop_last());
    }
}

/// Number of lines `str::lines` yields for `s`.
pub open spec fn lines_count(s: Seq<char>) -> nat {
    newline_count(s) + if s.len() > 0 && s.last() != '\n' {
        1nat
    } else {
        0nat
    }
}

/// Lines a tool entry shows: every display line counts its own lines, and
/// at least one.
pub open spec fn tool_lines(lines: Seq<Seq<char>>) -> nat
    decreases lines.len(),
{
    if lines.len() == 0 {
        0
    } else {
        tool_lines(lines.drop_last()) + if lines_count(lines.last()) >= 1 {
            lines_count(lines.last())
        } else {
            1nat
        }
    }
}

fn lines_count_exec(s: &str) -> (n: usize)
    ensures
        n == lines_count(s@),
{
    let v = chars_of(s);
    let mut n: usize = 0;
    let mut i: usize = 0;
    while i < v.len()
        invariant
            i <= v@.len(),
            v@ == s@,
            n == newline_count(v@.take(i as int)),
            n <= i,
        decreases v.len() - i,
    {
        assert(v@.take(i as int + 1).drop_last() =~= v@.take(i as int));
        if v[i] == '\n' {
            n += 1;
        }
        i += 1;
    }
    assert(v@.take(v@.len() as int) =~= v@);
    if v.len() > 0 && v[v.len() - 1] != '\n' {
        proof {
            lemma_newline_count_bound(v@.drop_last());
        }
        n + 1
    } else {
        n
    }
}

/// Number of lines a tool entry's display lines take.
pub fn tool_display_line_count(display_lines: &Vec<String>) -> (n: usize)
    requires
        tool_lines(crate::width::strings_view(display_lines@)) <= usize::MAX,
    ensures
        n == tool_lines(crate::width::strings_view(display_lines@)),
{
    let ghost all = crate::width::strings_view(display_lines@);
    let mut n: usize = 0;
    let mut i: usize = 0;
    while i < display_lines.len()
        invariant
            i <= display_lines@.len(),
            all == crate::width::strings_view(display_lines@),
            tool_lines(all) <= usize::MAX,
            n == tool_lines(all.take(i as int)),
        decreases display_lines.len() - i,
    {
        proof {
            assert(all.take(i as int + 1).drop_last() =~= all.take(i as int));
            lemma_tool_lines_mono(all, i as int + 1);
        }
        let c = lines_count_exec(display_lines[i].as_str());
        let c = if c >= 1 {
            c
        } else {
            1
        };
        n = n + c;
        i += 1;
    }
    assert(all.take(display_lines@.len() as int) =~= all);
    n
}

proof fn lemma_tool_lines_mono(all: Seq<Seq<char>>, k: int)
    requires
        0 <= k <= all.len(),
    ensures
        tool_lines(all.take(k)) <= tool_lines(all),
    decreases all.len() - k,
{
    if k < all.len() {
        lemma_tool_lines_mono(all, k + 1);
        assert(all.take(k + 1).drop_last() =~= all.take(k));
    } else {
        assert(all.take(k) =~= all);
    }
}

/// Whether `entry` is a tool entry long enough to be collapsed.
pub fn expandable_tool_entry(entry: &Entry, max_tool_output_lines: usize) -> (b: bool)
    requires
        entry matches Entry::Tool(t) ==> tool_lines(crate::width::strings_view(t.display_lines@))
            <= usize::MAX,
    ensures
        b == (entry matches Entry::Tool(t) && tool_lines(
            crate::width::strings_view(t.display_lines@),
        ) > max_tool_output_lines),
{
    match entry {
        Entry::Tool(tool) => tool_display_line_count(&tool.display_lines) > max_tool_output_lines,
        _ => false,
    }
}

/// How the final answer relates to what was already streamed.
#[derive(Clone, Debug, PartialEq, Eq)]
pub enum FinalAnswerDelta {
    Nothing,
    Append(String),
    Mismatch,
}

/// Compares the streamed text with the final answer: nothing left, the
/// suffix still to show, or a mismatch.
pub fn final_answer_delta(emitted_text: &str, answer: &str) -> (d: FinalAnswerDelta)
    ensures
        (emitted_text@.len() <= answer@.len() && answer@.take(emitted_text@.len() as int)
            == emitted_text@) ==> if emitted_text@.len() == answer@.len() {
            d == FinalAnswerDelta::Nothing
        } else {
            d matches FinalAnswerDelta::Append(s) && s@ == answer@.skip(emitted_text@.len() as int)
        },
        !(emitted_text@.len() <= answer@.len() && answer@.take(emitted_text@.len() as int)
            == emitted_text@) ==> d == FinalAnswerDelta::Mismatch,
{
    let e = chars_of(emitted_text);
    let a = chars_of(answer);
    if e.len() > a.len() {
        return FinalAnswerDelta::Mismatch;
    }
    let mut i: usize = 0;
    while i < e.len()
        invariant
            i <= e@.len() <= a@.len(),
            e@ == emitted_text@,
            a@ == answer@,
            a@.take(i as int) == e@.take(i as int),
        decreases e.len() - i,
    {
        if e[i] != a[i] {
            assert(answer@.take(emitted_text@.len() as int)[i as int] != emitted_text@[i as int]);
            return FinalAnswerDelta::Mismatch;
        }
        assert(a@.take(i as int + 1) =~= a@.take(i as int).push(a@[i as int]));
        assert(e@.take(i as int + 1) =~= e@.take(i as int).push(e@[i as int]));
        i += 1;
    }
    assert(e@.take(e@.len() as int) =~= e@);
    if e.len() == a.len() {
        FinalAnswerDelta::Nothing
    } else {
        let s = string_of_range(&a, e.len(), a.len());
        assert(a@.subrange(e@.len() as int, a@.len() as int) =~= a@.skip(e@.len() as int));
        FinalAnswerDelta::Append(s)
    }
}

/// A provider that can be logged into.
#[derive(Clone, Debug, PartialEq, Eq)]
pub struct LoginTarget {
    pub provider: String,
    pub label: String,
}

/// A masked, single-line input for an API key; `cursor` counts characters.
#[derive(Clone, Debug)]
pub struct SecretInput {
    pub target: LoginTarget,
    pub value: String,
    pub cursor: usize,
}

/// Where an edit at a character cursor applies: the cursor, or the end of
/// the text when the cursor lies past it.
pub open spec fn edit_at(s: Seq<char>, cursor: int) -> int {
    if cursor <= s.len() {
        cursor
    } else {
        s.len() as int
    }
}

/// Byte offset of character `k` of `s` (its UTF-8 length when `k` is past
/// the end).
pub open spec fn byte_offset(s: Seq<char>, k: int) -> nat {
    utf8_byte_len(s.take(edit_at(s, k)))
}

pub open spec fn bytes_fit(s: Seq<char>) -> bool {
    4 * s.len() <= usize::MAX
}

fn utf8_len_exec(c: char) -> (n: usize)
    ensures
        n == utf8_len(c),
{
    let u = c as u32;
    if u < 0x80 {
        1
    } else if u < 0x800 {
        2
    } else if u < 0x10000 {
        3
    } else {
        4
    }
}

/// Byte offset in `value` of its character `char_index`.
pub fn byte_index_of(value: &str, char_index: usize) -> (b: usize)
    requires
        bytes_fit(value@),
    ensures
        b == byte_offset(value@, char_index as int),
{
    let v = chars_of(value);
    let n = if char_index <= v.len() {
        char_index
    } else {
        v.len()
    };
    let mut b: usize = 0;
    let mut i: usize = 0;
    while i < n
        invariant
            i <= n <= v@.len(),
            v@ == value@,
            bytes_fit(value@),
            b == utf8_byte_len(v@.take(i as int)),
            b <= 4 * i,
        decreases n - i,
    {
        assert(v@.take(i as int + 1).drop_last() =~= v@.take(i as int));
        b = b + utf8_len_exec(v[i]);
        i += 1;
    }
    b
}

/// `value` with `ins` inserted at the cursor.
pub(crate) fn insert_at_cursor(value: &String, cursor: usize, ins: &[char]) -> (r: String)
    ensures
        r@ == spliced(value@, edit_at(value@, cursor as int), 0, ins@),
{
    let v = chars_of(value.as_str());
    let at = if cursor <= v.len() {
        cursor
    } else {
        v.len()
    };
    let w = splice(&v, at, 0, ins);
    string_of(&w)
}

/// `value` without its character at `at` (unchanged when `at` is past the end).
pub(crate) fn remove_at(value: &String, at: usize) -> (r: String)
    ensures
        at < value@.len() ==> r@ == spliced(value@, at as int, 1, Seq::empty()),
        at >= value@.len() ==> r@ == value@,
{
    let v = chars_of(value.as_str());
    if at >= v.len() {
        return string_of(&v);
    }
    let empty: Vec<char> = Vec::new();
    let w = splice(&v, at, 1, &empty);
    string_of(&w)
}

impl SecretInput {
    pub fn new(target: LoginTarget) -> (s: Self)
        ensures
            s.target == target,
            s.value@ == Seq::<char>::empty(),
            s.cursor == 0,
    {
        SecretInput { target, value: String::new(), cursor: 0 }
    }

    pub fn char_len(&self) -> (n: usize)
        ensures
            n == self.value@.len(),
    {
        chars_of(self.value.as_str()).len()
    }

    pub fn byte_index(&self, char_index: usize) -> (b: usize)
        requires
            bytes_fit(self.value@),
        ensures
            b == byte_offset(self.value@, char_index as int),
    {
        byte_index_of(self.value.as_str(), char_index)
    }

    /// Types `ch` at the cursor.
    pub fn insert_char(&mut self, ch: char)
        requires
            old(self).cursor < usize::MAX,
        ensures
            final(self).value@ == spliced(old(self).value@, edit_at(old(self).value@, old(self).cursor as int), 0, seq![ch]),
            final(self).cursor == old(self).cursor + 1,
            final(self).target == old(self).target,
    {
        let ins = vec![ch];
        assert(ins@ =~= seq![ch]);
        self.value = insert_at_cursor(&self.value, self.cursor, &ins);
        self.cursor = self.cursor + 1;
    }

    /// Pastes `text` at the cursor; line breaks are dropped.
    pub fn insert_text(&mut self, text: &str)
        requires
            old(self).cursor + without_char(text@, '\n').len() <= usize::MAX,
        ensures
            final(self).value@ == spliced(old(self).value@, edit_at(old(self).value@, old(self).cursor as int), 0, without_char(text@, '\n')),
            final(self).cursor == old(self).cursor + without_char(text@, '\n').len(),
            final(self).target == old(self).target,
    {
        let sanitized = chars_without(text, '\n');
        self.value = insert_at_cursor(&self.value, self.cursor, &sanitized);
        self.cursor = self.cursor + sanitized.len();
    }

    /// Deletes the character before the cursor.
    pub fn backspace(&mut self)
        ensures
            old(self).cursor == 0 ==> *final(self) == *old(self),
            old(self).cursor > 0 ==> final(self).cursor == old(self).cursor - 1,
            old(self).cursor > 0 && old(self).cursor <= old(self).value@.len() ==> final(self).value@ == spliced(old(self).value@, old(self).cursor - 1, 1, Seq::empty()),
            old(self).cursor > old(self).value@.len() ==> final(self).value@ == old(self).value@,
            final(self).target == old(self).target,
    {
        if self.cursor == 0 {
            return;
        }
        self.value = remove_at(&self.value, self.cursor - 1);
        self.cursor = self.cursor - 1;
    }

    /// Deletes the character at the cursor.
    pub fn delete(&mut self)
        ensures
            old(self).cursor >= old(self).value@.len() ==> *final(self) == *old(self),
            old(self).cursor < old(self).value@.len() ==> final(self).value@ == spliced(old(self).value@, old(self).cursor as int, 1, Seq::empty()),
            final(self).cursor == old(self).cursor,
            final(self).target == old(self).target,
    {
        if self.cursor >= self.char_len() {
            return;
        }
        self.value = remove_at(&self.value, self.cursor);
    }
}

/// First visible line of the composer when `visible_count` of its
/// `line_count` lines fit, keeping the cursor's line in view.
pub fn visible_composer_start(cursor_line: usize, line_count: usize, visible_count: usize) -> (start: usize)
    ensures
        (visible_count == 0 || visible_count >= line_count) ==> start == 0,
        !(visible_count == 0 || visible_count >= line_count) ==> start == ({
            let low = if cursor_line + 1 >= visible_count {
                cursor_line + 1 - visible_count
            } else {
                0
            };
            if low <= line_count - visible_count {
                low
            } else {
                line_count - visible_count
            }
        }),
{
    if visible_count == 0 || visible_count >= line_count {
        return 0;
    }
    let low = cursor_line.saturating_add(1).saturating_sub(visible_count);
    let high = line_count - visible_count;
    if low <= high {
        low
    } else {
        high
    }
}

/// Width of a padded block's content: two columns less, at least one.
pub fn padded_content_width(width: usize) -> (w: usize)
    ensures
        w == (if width >= 3 { width - 2 } else { 1 }),
{
    crate::wrap::padded_inner_width(width)
}

/// Start of the word before `cursor` (white space before it is skipped first).
pub open spec fn prev_word_start(s: Seq<char>, i: int) -> int
    decreases i,
{
    if i <= 0 {
        0
    } else if is_white_space(s[i - 1]) {
        prev_word_start(s, i - 1)
    } else {
        word_start(s, i)
    }
}

pub open spec fn word_start(s: Seq<char>, i: int) -> int
    decreases i,
{
    if i <= 0 || is_white_space(s[i - 1]) {
        if i <= 0 {
            0
        } else {
            i
        }
    } else {
        word_start(s, i - 1)
    }
}

/// End of the word after `cursor` (white space after it is skipped first).
pub open spec fn next_word_end(s: Seq<char>, i: int) -> int
    decreases s.len() - i,
{
    if i >= s.len() {
        s.len() as int
    } else if is_white_space(s[i]) {
        next_word_end(s, i + 1)
    } else {
        word_end(s, i)
    }
}

pub open spec fn word_end(s: Seq<char>, i: int) -> int
    decreases s.len() - i,
{
    if i >= s.len() || is_white_space(s[i]) {
        if i >= s.len() {
            s.len() as int
        } else {
            i
        }
    } else {
        word_end(s, i + 1)
    }
}

/// The character index where moving one word left from `cursor` lands.
pub fn previous_word_boundary(input: &str, cursor: usize) -> (r: usize)
    ensures
        r == prev_word_start(input@, edit_at(input@, cursor as int)),
{
    let chars = chars_of(input);
    let mut index = if cursor <= chars.len() {
        cursor
    } else {
        chars.len()
    };
    while index > 0 && is_whitespace(chars[index - 1])
        invariant
            index <= chars@.len(),
            chars@ == input@,
            prev_word_start(input@, edit_at(input@, cursor as int)) == prev_word_start(input@, index as int),
        decreases index,
    {
        index -= 1;
    }
    assert(prev_word_start(input@, index as int) == word_start(input@, index as int));
    while index > 0 && !is_whitespace(chars[index - 1])
        invariant
            index <= chars@.len(),
            chars@ == input@,
            prev_word_start(input@, edit_at(input@, cursor as int)) == word_start(input@, index as int),
        decreases index,
    {
        index -= 1;
    }
    index
}

/// The character index where moving one word right from `cursor` lands.
pub fn next_word_boundary(input: &str, cursor: usize) -> (r: usize)
    ensures
        r == next_word_end(input@, edit_at(input@, cursor as int)),
{
    let chars = chars_of(input);
    let mut index = if cursor <= chars.len() {
        cursor
    } else {
        chars.len()
    };
    while index < chars.len() && is_whitespace(chars[index])
        invariant
            index <= chars@.len(),
            chars@ == input@,
            next_word_end(input@, edit_at(input@, cursor as int)) == next_word_end(input@, index as int),
        decreases chars.len() - index,
    {
        index += 1;
    }
    assert(next_word_end(input@, index as int) == word_end(input@, index as int));
    while index < chars.len() && !is_whitespace(chars[index])
        invariant
            index <= chars@.len(),
            chars@ == input@,
            next_word_end(input@, edit_at(input@, cursor as int)) == word_end(input@, index as int),
        decreases chars.len() - index,
    {
        index += 1;
    }
    index
}

/// The first eight characters of a session id.
pub fn short_session_id(id: &str) -> (s: String)
    ensures
        s@ == id@.take(if id@.len() <= 8 { id@.len() as int } else { 8 }),
{
    let v = chars_of(id);
    let n = if v.len() <= 8 {
        v.len()
    } else {
        8
    };
    string_of_range(&v, 0, n)
}


/// A paste with line breaks normalised: `"\r\n"` and a lone `'\r'` both
/// become `'\n'`.
pub open spec fn normalized_from(s: Seq<char>, i: int) -> Seq<char>
    decreases s.len() - i,
{
    if i < 0 || i >= s.len() {
        Seq::empty()
    } else if s[i] == '\r' && i + 1 < s.len() && s[i + 1] == '\n' {
        normalized_from(s, i + 1)
    } else if s[i] == '\r' {
        seq!['\n'] + normalized_from(s, i + 1)
    } else {
        seq![s[i]] + normalized_from(s, i + 1)
    }
}

/// `text` with `"\r\n"` and `'\r'` line breaks turned into `'\n'`.
pub fn normalize_paste(text: &str) -> (r: String)
    ensures
        r@ == normalized_from(text@, 0),
{
    let v = chars_of(text);
    let mut r = String::new();
    let mut i: usize = 0;
    assert(r@ + normalized_from(v@, 0) =~= normalized_from(v@, 0));
    while i < v.len()
        invariant
            i <= v@.len(),
            v@ == text@,
            r@ + normalized_from(v@, i as int) == normalized_from(v@, 0),
        decreases v.len() - i,
    {
        let ghost before = r@;
        let c = v[i];
        if c == '\r' && i + 1 < v.len() && v[i + 1] == '\n' {
        } else if c == '\r' {
            r.push('\n');
            assert(r@ + normalized_from(v@, i as int + 1) =~= before + normalized_from(v@, i as int));
        } else {
            r.push(c);
            assert(r@ + normalized_from(v@, i as int + 1) =~= before + normalized_from(v@, i as int));
        }
        i += 1;
    }
    assert(r@ + normalized_from(v@, v@.len() as int) =~= r@);
    r
}

/// The marker that stands for a collapsed paste: pastes of two or more
/// lines, or of more than a thousand characters, are collapsed.
pub open spec fn paste_marker(s: Seq<char>) -> Option<Seq<char>> {
    let lines = newline_count(s) + 1;
    if lines >= 2 {
        Some("[ pasted: "@ + decimal(lines) + " lines ]"@)
    } else if s.len() > 1000 {
        Some("[ pasted: "@ + decimal(s.len()) + " chars ]"@)
    } else {
        None
    }
}

/// The marker for a paste of `text`, when it is large enough to collapse.
pub fn paste_marker_for(text: &str) -> (r: Option<String>)
    requires
        text@.len() < usize::MAX,
    ensures
        r matches Some(m) ==> paste_marker(text@) == Some(m@),
        r is None ==> paste_marker(text@) is None,
{
    let v = chars_of(text);
    let mut newlines: usize = 0;
    let mut i: usize = 0;
    while i < v.len()
        invariant
            i <= v@.len(),
            v@ == text@,
            newlines == newline_count(v@.take(i as int)),
            newlines <= i,
        decreases v.len() - i,
    {
        assert(v@.take(i as int + 1).drop_last() =~= v@.take(i as int));
        if v[i] == '\n' {
            newlines += 1;
        }
        i += 1;
    }
    assert(v@.take(v@.len() as int) =~= v@);
    let line_count = newlines + 1;
    if line_count >= 2 {
        let mut m = String::new();
        push_str(&mut m, "[ pasted: ");
        let d = decimal_string(line_count as u64);
        push_str(&mut m, d.as_str());
        push_str(&mut m, " lines ]");
        Some(m)
    } else if v.len() > 1000 {
        let mut m = String::new();
        push_str(&mut m, "[ pasted: ");
        let d = decimal_string(v.len() as u64);
        push_str(&mut m, d.as_str());
        push_str(&mut m, " chars ]");
        Some(m)
    } else {
        None
    }
}

pub open spec fn segments_fit(segments: Seq<PasteSegment>) -> bool {
    forall|k: int| 0 <= k < segments.len() ==> #[trigger] segments[k].start + segments[k].marker_len <= usize::MAX
}

/// The composer text with collapsed pastes from segment `k` on put back,
/// copying from `cursor`; a segment that overlaps the previous one or runs
/// past the text is skipped.
pub open spec fn expand_from(s: Seq<char>, segments: Seq<PasteSegment>, k: int, cursor: int) -> Seq<char>
    decreases segments.len() - k,
{
    if k < 0 || k >= segments.len() {
        s.skip(cursor)
    } else {
        let seg = segments[k];
        if cursor > seg.start || seg.start + seg.marker_len > s.len() {
            expand_from(s, segments, k + 1, cursor)
        } else {
            s.subrange(cursor, seg.start as int) + seg.content@ + expand_from(s, segments, k + 1, seg.start + seg.marker_len)
        }
    }
}

/// The composer text with every collapsed paste replaced by its content.
pub fn expand_paste_segments(input: &str, segments: &Vec<PasteSegment>) -> (r: String)
    requires
        segments_fit(segments@),
    ensures
        r@ == expand_from(input@, segments@, 0, 0),
{
    let v = chars_of(input);
    let mut result = String::new();
    let mut cursor: usize = 0;
    let mut k: usize = 0;
    assert(result@ + expand_from(v@, segments@, 0, 0) =~= expand_from(v@, segments@, 0, 0));
    while k < segments.len()
        invariant
            k <= segments@.len(),
            cursor <= v@.len(),
            v@ == input@,
            segments_fit(segments@),
            result@ + expand_from(v@, segments@, k as int, cursor as int) == expand_from(v@, segments@, 0, 0),
        decreases segments.len() - k,
    {
        let segment = &segments[k];
        assert(segments@[k as int].start + segments@[k as int].marker_len <= usize::MAX);
        let end = segment.end();
        if cursor > segment.start || end > v.len() {
        } else {
            let ghost before = result@;
            push_range(&mut result, &v, cursor, segment.start);
            push_str(&mut result, segment.content.as_str());
            assert(result@ + expand_from(v@, segments@, k as int + 1, end as int) =~= before
                + expand_from(v@, segments@, k as int, cursor as int));
            cursor = end;
        }
        k += 1;
    }
    let ghost before = result@;
    push_range(&mut result, &v, cursor, v.len());
    assert(v@.subrange(cursor as int, v@.len() as int) =~= v@.skip(cursor as int));
    result
}

/// Number of leading non-white-space characters (the command token).
pub open spec fn token_len(s: Seq<char>) -> nat
    decreases s.len(),
{
    if s.len() == 0 || is_white_space(s[0]) {
        0
    } else {
        1 + token_len(s.drop_first())
    }
}

proof fn lemma_token_len(s: Seq<char>)
    ensures
        token_len(s) <= s.len(),
        forall|i: int| 0 <= i < token_len(s) ==> !is_white_space(#[trigger] s[i]),
        token_len(s) < s.len() ==> is_white_space(s[token_len(s) as int]),
    decreases s.len(),
{
    if s.len() > 0 && !is_white_space(s[0]) {
        lemma_token_len(s.drop_first());
        assert forall|i: int| 0 <= i < token_len(s) implies !is_white_space(#[trigger] s[i]) by {
            if i > 0 {
                assert(s[i] == s.drop_first()[i - 1]);
            }
        }
    }
}

fn token_end(v: &[char]) -> (n: usize)
    ensures
        n == token_len(v@),
{
    proof {
        lemma_token_len(v@);
    }
    let mut i: usize = 0;
    while i < v.len() && !is_whitespace(v[i])
        invariant
            i <= token_len(v@) <= v@.len(),
            forall|k: int| 0 <= k < token_len(v@) ==> !is_white_space(#[trigger] v@[k]),
            token_len(v@) < v@.len() ==> is_white_space(v@[token_len(v@) as int]),
        decreases v.len() - i,
    {
        i += 1;
    }
    i
}

/// The arguments of a slash command: what follows the command token, with
/// leading white space removed.
pub open spec fn command_args(s: Seq<char>) -> Seq<char> {
    trim_start_seq(s.skip(token_len(s) as int))
}

fn command_args_of(v: &[char]) -> (r: Vec<char>)
    ensures
        r@ == command_args(v@),
{
    let t = token_end(v);
    proof {
        lemma_token_len(v@);
    }
    let mut rest: Vec<char> = Vec::new();
    assert(rest@ =~= v@.subrange(t as int, t as int));
    let mut i = t;
    while i < v.len()
        invariant
            t <= i <= v@.len(),
            t == token_len(v@),
            rest@ == v@.subrange(t as int, i as int),
        decreases v.len() - i,
    {
        rest.push(v[i]);
        assert(v@.subrange(t as int, i as int + 1) =~= v@.subrange(t as int, i as int).push(v@[i as int]));
        i += 1;
    }
    assert(rest@ =~= v@.skip(t as int));
    let start = skip_ws_start(&rest);
    proof {
        lemma_leading_ws(rest@);
    }
    let mut r: Vec<char> = Vec::new();
    let mut j = start;
    while j < rest.len()
        invariant
            start <= j <= rest@.len(),
            start == leading_ws(rest@),
            r@ == rest@.subrange(start as int, j as int),
        decreases rest.len() - j,
    {
        r.push(rest[j]);
        assert(rest@.subrange(start as int, j as int + 1) =~= rest@.subrange(start as int, j as int).push(rest@[j as int]));
        j += 1;
    }
    assert(r@ =~= trim_start_seq(rest@));
    r
}

/// The text after a slash command's token, without leading white space.
pub fn slash_command_args(input: &str) -> (r: String)
    ensures
        r@ == command_args(input@),
{
    let v = chars_of(input);
    let a = command_args_of(&v);
    string_of(&a)
}

/// What completing the command token of `input` to `/name` gives: the new
/// text and where the cursor goes.
pub open spec fn completed_command(s: Seq<char>, cursor: int, name: Seq<char>) -> (Seq<char>, int) {
    let args = command_args(s);
    let completed = if args.len() == 0 {
        seq!['/'] + name
    } else {
        seq!['/'] + name + seq![' '] + args
    };
    let token = token_len(s);
    let token_done = name.len() + 1int;
    let cur = if cursor <= token {
        token_done
    } else {
        let moved = token_done + (cursor - token);
        let moved = if moved <= usize::MAX {
            moved
        } else {
            usize::MAX as int
        };
        if completed.len() <= moved {
            completed.len() as int
        } else {
            moved
        }
    };
    (completed, cur)
}

/// Replaces the command token of `input` with `/name`, keeping its
/// arguments, and moves the cursor along.
pub fn complete_slash_command(input: &str, cursor: usize, name: &str) -> (r: (String, usize))
    requires
        name@.len() + 2 + input@.len() <= usize::MAX,
    ensures
        (r.0@, r.1 as int) == completed_command(input@, cursor as int, name@),
{
    let v = chars_of(input);
    let token_len = token_end(&v);
    let args = command_args_of(&v);
    let name_chars = chars_of(name);
    let mut completed = String::new();
    completed.push('/');
    push_str(&mut completed, name);
    if args.len() != 0 {
        completed.push(' ');
        push_range(&mut completed, &args, 0, args.len());
        assert(args@.subrange(0, args@.len() as int) =~= args@);
    }
    proof {
        lemma_token_len(v@);
        assert(args@.len() <= v@.len()) by {
            lemma_leading_ws(v@.skip(token_len as int));
        }
    }
    let completed_len = chars_of(completed.as_str()).len();
    let completed_token_len = name_chars.len() + 1;
    let new_cursor = if cursor <= token_len {
        completed_token_len
    } else {
        let moved = completed_token_len.saturating_add(cursor - token_len);
        if completed_len <= moved {
            completed_len
        } else {
            moved
        }
    };
    (completed, new_cursor)
}


/// A line of `str::lines` loses the `'\r'` of a `"\r\n"` ending.
pub open spec fn strip_cr(l: Seq<char>) -> Seq<char> {
    if l.len() > 0 && l.last() == '\r' {
        l.drop_last()
    } else {
        l
    }
}

/// `str::trim`, as a set trim over the white-space characters.
pub open spec fn trim_ws(s: Seq<char>) -> Seq<char> {
    trim_in(s, white_space_set())
}

/// The first line of `s` from `start` on (as `str::lines` splits) that has
/// something besides white space.
pub open spec fn first_text_line(s: Seq<char>, start: int) -> Option<Seq<char>>
    decreases s.len() - start,
{
    if start < 0 || start >= s.len() {
        None
    } else {
        let n = next_nl(s, start);
        let line = if start <= n < s.len() {
            strip_cr(s.subrange(start, n))
        } else {
            s.subrange(start, s.len() as int)
        };
        if trim_ws(line).len() > 0 {
            Some(line)
        } else if start <= n < s.len() {
            first_text_line(s, n + 1)
        } else {
            None
        }
    }
}

/// Runs of white space collapsed to one space, with leading and trailing
/// white space dropped (`split_whitespace` joined by spaces).
pub open spec fn collapse_runs(s: Seq<char>) -> Seq<char>
    decreases s.len(),
{
    if s.len() == 0 {
        s
    } else {
        let p = collapse_runs(s.drop_last());
        if is_white_space(s.last()) {
            if p.len() == 0 || p.last() == ' ' {
                p
            } else {
                p.push(' ')
            }
        } else {
            p.push(s.last())
        }
    }
}

pub open spec fn join_words(s: Seq<char>) -> Seq<char> {
    let r = collapse_runs(s);
    if r.len() > 0 && r.last() == ' ' {
        r.drop_last()
    } else {
        r
    }
}

pub open spec fn title_quotes() -> Seq<char> {
    seq!['"', '\'', '`', '*', '#']
}

pub open spec fn title_stops() -> Seq<char> {
    seq!['.', ':', ';']
}

/// A generated session title cleaned up: its first line with text, without
/// surrounding quotes, markup and final punctuation, white space collapsed,
/// and cut to 80 characters with an ellipsis.
pub open spec fn sanitized_title(title: Seq<char>) -> Option<Seq<char>> {
    match first_text_line(title, 0) {
        None => None,
        Some(line) => {
            let t = trim_ws(trim_end_in(trim_ws(trim_in(trim_ws(line), title_quotes())), title_stops()));
            if t.len() == 0 {
                None
            } else {
                let j = join_words(t);
                if j.len() > 80 {
                    Some(j.take(79).push('…'))
                } else {
                    Some(j)
                }
            }
        }
    }
}

fn has_text(v: &[char]) -> (b: bool)
    ensures
        b == (trim_ws(v@).len() > 0),
{
    let ws = ws_chars();
    let t = trim_set(v, &ws);
    t.len() > 0
}

fn ws_chars() -> (v: Vec<char>)
    ensures
        v@ == white_space_set(),
{
    let v = vec![
        '\u{9}', '\u{a}', '\u{b}', '\u{c}', '\u{d}', ' ', '\u{85}', '\u{a0}', '\u{1680}',
        '\u{2000}', '\u{2001}', '\u{2002}', '\u{2003}', '\u{2004}', '\u{2005}', '\u{2006}',
        '\u{2007}', '\u{2008}', '\u{2009}', '\u{200a}', '\u{2028}', '\u{2029}', '\u{202f}',
        '\u{205f}', '\u{3000}',
    ];
    assert(v@ =~= white_space_set());
    v
}

fn strip_cr_exec(v: Vec<char>) -> (r: Vec<char>)
    ensures
        r@ == strip_cr(v@),
{
    let mut v = v;
    if v.len() > 0 && v[v.len() - 1] == '\r' {
        v.pop();
    }
    v
}

fn first_text_line_of(v: &[char]) -> (r: Option<Vec<char>>)
    ensures
        r matches Some(l) ==> first_text_line(v@, 0) == Some(l@),
        r is None ==> first_text_line(v@, 0) is None,
{
    let mut start: usize = 0;
    while start < v.len()
        invariant
            start <= v@.len(),
            first_text_line(v@, start as int) == first_text_line(v@, 0),
        decreases v.len() - start,
    {
        let mut n = start;
        while n < v.len() && v[n] != '\n'
            invariant
                start <= n <= v@.len(),
                forall|k: int| start <= k < n ==> v@[k] != '\n',
            decreases v.len() - n,
        {
            n += 1;
        }
        proof {
            lemma_next_nl_at(v@, start as int, n as int);
        }
        let raw = crate::text::string_of_range(v, start, n);
        let piece = chars_of(raw.as_str());
        let line = if n < v.len() {
            strip_cr_exec(piece)
        } else {
            piece
        };
        if has_text(&line) {
            return Some(line);
        }
        if n >= v.len() {
            return None;
        }
        start = n + 1;
    }
    None
}

fn join_words_of(v: &[char]) -> (r: Vec<char>)
    ensures
        r@ == join_words(v@),
{
    let mut r: Vec<char> = Vec::new();
    let mut i: usize = 0;
    while i < v.len()
        invariant
            i <= v@.len(),
            r@ == collapse_runs(v@.take(i as int)),
        decreases v.len() - i,
    {
        assert(v@.take(i as int + 1).drop_last() =~= v@.take(i as int));
        let c = v[i];
        if is_whitespace(c) {
            if r.len() == 0 || r[r.len() - 1] == ' ' {
            } else {
                r.push(' ');
            }
        } else {
            r.push(c);
        }
        i += 1;
    }
    assert(v@.take(v@.len() as int) =~= v@);
    if r.len() > 0 && r[r.len() - 1] == ' ' {
        r.pop();
    }
    r
}

/// The cleaned-up title, or `None` when nothing is left of it.
pub fn sanitize_session_title(title: &str) -> (r: Option<String>)
    ensures
        r matches Some(t) ==> sanitized_title(title@) == Some(t@),
        r is None ==> sanitized_title(title@) is None,
{
    let v = chars_of(title);
    let line = match first_text_line_of(&v) {
        Some(line) => line,
        None => return None,
    };
    let ws = ws_chars();
    let quotes = vec!['"', '\'', '`', '*', '#'];
    assert(quotes@ =~= title_quotes());
    let stops = vec!['.', ':', ';'];
    assert(stops@ =~= title_stops());
    let t1 = trim_set(&line, &ws);
    let t2 = trim_set(&t1, &quotes);
    let t3 = trim_set(&t2, &ws);
    let t4 = trim_end_set(&t3, &stops);
    let t5 = trim_set(&t4, &ws);
    if t5.len() == 0 {
        return None;
    }
    let j = join_words_of(&t5);
    if j.len() > 80 {
        let mut s = string_of_range(&j, 0, 79);
        s.push('…');
        Some(s)
    } else {
        Some(string_of(&j))
    }
}

/// An image attached to a message.
#[derive(Clone, Debug, PartialEq, Eq)]
pub struct ImageContent {
    pub media_type: String,
    pub data: String,
}

/// A tool call requested by the model.
#[derive(Clone, Debug, PartialEq, Eq)]
pub struct ToolCall {
    pub id: String,
    pub name: String,
    pub arguments: String,
}

/// One block of a message's content.
#[derive(Clone, Debug, PartialEq, Eq)]
pub enum ContentBlock {
    Text(String),
    Image(ImageContent),
    ToolCall(ToolCall),
}

/// The texts of the text blocks, in order.
pub open spec fn text_parts(blocks: Seq<ContentBlock>) -> Seq<Seq<char>>
    decreases blocks.len(),
{
    if blocks.len() == 0 {
        Seq::empty()
    } else {
        let p = text_parts(blocks.drop_last());
        match blocks.last() {
            ContentBlock::Text(t) => p.push(t@),
            _ => p,
        }
    }
}

/// `parts` joined with `sep` between them (`[&str]::join`).
pub open spec fn joined(parts: Seq<Seq<char>>, sep: Seq<char>) -> Seq<char>
    decreases parts.len(),
{
    if parts.len() == 0 {
        Seq::empty()
    } else if parts.len() == 1 {
        parts[0]
    } else {
        joined(parts.drop_last(), sep) + sep + parts.last()
    }
}

/// The text blocks of a message joined by line breaks.
pub fn text_blocks(blocks: &Vec<ContentBlock>) -> (r: String)
    ensures
        r@ == joined(text_parts(blocks@), seq!['\n']),
{
    let mut r = String::new();
    let mut count: usize = 0;
    let mut i: usize = 0;
    while i < blocks.len()
        invariant
            i <= blocks@.len(),
            count == text_parts(blocks@.take(i as int)).len(),
            count <= i,
            r@ == joined(text_parts(blocks@.take(i as int)), seq!['\n']),
        decreases blocks.len() - i,
    {
        assert(blocks@.take(i as int + 1).drop_last() =~= blocks@.take(i as int));
        assert(blocks@.take(i as int + 1).last() == blocks@[i as int]);
        match &blocks[i] {
            ContentBlock::Text(t) => {
                let ghost before = r@;
                if count > 0 {
                    r.push('\n');
                }
                push_str(&mut r, t.as_str());
                proof {
                    let p = text_parts(blocks@.take(i as int));
                    if count > 0 {
                        assert(p.push(t@).drop_last() =~= p);
                        assert(r@ =~= joined(p, seq!['\n']) + seq!['\n'] + t@);
                    } else {
                        assert(p.push(t@) =~= seq![t@]);
                        assert(r@ =~= t@);
                    }
                }
                count += 1;
            },
            _ => {},
        }
        i += 1;
    }
    assert(blocks@.take(blocks@.len() as int) =~= blocks@);
    r
}

} // verus!

//! Turning the agent's run events into what the transcript view shows,
//! remembering the tool calls that are still open.
use vstd::prelude::*;
use std::collections::BTreeMap;
use crate::text::{decimal, decimal_string, push_str, str_eq, trim_seq, trimmed};
use crate::usage::ModelUsage;
use crate::width::strings_view;
use crate::wrap::{str_lines, text_lines};
use crate::questionnaire::{join_seqs, join_strings};
use crate::text::chars_of;

verus! {

// ---------------------------------------------------------------------
// Lists keyed by text: the newest entry of a key is the one that counts
// ---------------------------------------------------------------------

/// The index of the last entry of `s` with key `k`, or -1.
pub open spec fn last_key_index<K, V>(s: Seq<(K, V)>, k: K) -> int
    decreases s.len(),
{
    if s.len() == 0 {
        -1
    } else if s.last().0 == k {
        s.len() - 1
    } else {
        last_key_index(s.drop_last(), k)
    }
}

/// The value kept for key `k`.
pub open spec fn lookup<K, V>(s: Seq<(K, V)>, k: K) -> Option<V> {
    let i = last_key_index(s, k);
    if i < 0 {
        None
    } else {
        Some(s[i].1)
    }
}

/// `s` with the value of `k` set to `v`: the entry of `k` is replaced, or
/// a new one added at the end.
pub open spec fn set_entry<K, V>(s: Seq<(K, V)>, k: K, v: V) -> Seq<(K, V)> {
    let i = last_key_index(s, k);
    if i < 0 {
        s.push((k, v))
    } else {
        s.update(i, (k, v))
    }
}

/// `s` without any entry of key `k`.
pub open spec fn without_key<K, V>(s: Seq<(K, V)>, k: K) -> Seq<(K, V)>
    decreases s.len(),
{
    if s.len() == 0 {
        s
    } else if s.last().0 == k {
        without_key(s.drop_last(), k)
    } else {
        without_key(s.drop_last(), k).push(s.last())
    }
}

/// `last_key_index` is the last position of the key, or -1 when the key
/// does not occur.
proof fn lemma_last_key_index<K, V>(s: Seq<(K, V)>, k: K)
    ensures
        -1 <= last_key_index(s, k) < s.len(),
        last_key_index(s, k) >= 0 ==> s[last_key_index(s, k)].0 == k,
        forall|j: int| last_key_index(s, k) < j < s.len() ==> s[j].0 != k,
    decreases s.len(),
{
    if s.len() > 0 && s.last().0 != k {
        let d = s.drop_last();
        lemma_last_key_index(d, k);
        assert forall|j: int| last_key_index(s, k) < j < s.len() implies s[j].0 != k by {
            if j < d.len() {
                assert(s[j] == d[j]);
            }
        }
    }
}

/// A position of the key with no later one is `last_key_index`; with no
/// position at all it is -1.
proof fn lemma_last_key_index_is<K, V>(s: Seq<(K, V)>, k: K, i: int)
    requires
        -1 <= i < s.len(),
        i >= 0 ==> s[i].0 == k,
        forall|j: int| i < j < s.len() ==> s[j].0 != k,
    ensures
        last_key_index(s, k) == i,
    decreases s.len(),
{
    if s.len() > 0 && i != s.len() - 1 {
        assert(s.last().0 != k);
        lemma_last_key_index_is(s.drop_last(), k, i);
    }
}

/// Setting a key changes what is kept for that key alone.
pub proof fn lemma_lookup_set_entry<K, V>(s: Seq<(K, V)>, k: K, v: V, k2: K)
    ensures
        lookup(set_entry(s, k, v), k2) == (if k2 == k { Some(v) } else { lookup(s, k2) }),
{
    lemma_last_key_index(s, k);
    lemma_last_key_index(s, k2);
    let i = last_key_index(s, k);
    let t = set_entry(s, k, v);
    if k2 == k {
        if i < 0 {
            lemma_last_key_index_is(t, k, s.len() as int);
        } else {
            lemma_last_key_index_is(t, k, i);
        }
    } else {
        let i2 = last_key_index(s, k2);
        assert forall|j: int| i2 < j < t.len() implies t[j].0 != k2 by {
            if j < s.len() && j != i {
                assert(t[j] == s[j]);
            }
        }
        lemma_last_key_index_is(t, k2, i2);
        if i2 >= 0 {
            assert(i2 != i);
            assert(t[i2] == s[i2]);
        }
    }
}

/// Taking a key out leaves nothing for it and the rest as it was.
pub proof fn lemma_lookup_without_key<K, V>(s: Seq<(K, V)>, k: K, k2: K)
    ensures
        lookup(without_key(s, k), k2) == (if k2 == k { None } else { lookup(s, k2) }),
    decreases s.len(),
{
    if s.len() > 0 {
        let d = s.drop_last();
        lemma_lookup_without_key(d, k, k2);
        lemma_last_key_index(s, k2);
        lemma_last_key_index(d, k2);
        let w = without_key(d, k);
        lemma_last_key_index(w, k2);
        if s.last().0 == k {
            if k2 != k {
                let i2 = last_key_index(d, k2);
                lemma_last_key_index_is(s, k2, i2);
            }
        } else {
            let t = w.push(s.last());
            if s.last().0 == k2 {
                lemma_last_key_index_is(t, k2, w.len() as int);
            } else {
                let i2 = last_key_index(w, k2);
                lemma_last_key_index_is(t, k2, i2);
                let j2 = last_key_index(d, k2);
                lemma_last_key_index_is(s, k2, j2);
            }
        }
    } else {
        lemma_last_key_index(s, k2);
    }
}

/// A map of texts keyed by index, with its texts as character sequences.
pub open spec fn text_map(m: Map<usize, String>) -> Map<usize, Seq<char>> {
    m.map_values(|t: String| t@)
}

/// The text kept for key `k`, if any.
pub open spec fn text_at(m: Map<usize, Seq<char>>, k: usize) -> Option<Seq<char>> {
    if m.contains_key(k) {
        Some(m[k])
    } else {
        None
    }
}

/// Keeps `v` under key `k`.
fn set_text(m: &mut BTreeMap<usize, String>, k: usize, v: String)
    ensures
        text_map(final(m)@) == text_map(old(m)@).insert(k, v@),
{
    let ghost before = m@;
    m.insert(k, v);
    assert(text_map(m@) =~= text_map(before).insert(k, v@));
}

/// A copy of the text kept for key `k`.
fn get_text(m: &BTreeMap<usize, String>, k: usize) -> (r: Option<String>)
    ensures
        match r {
            Some(t) => text_at(text_map(m@), k) == Some(t@),
            None => text_at(text_map(m@), k) is None,
        },
{
    match m.get(&k) {
        Some(t) => Some(String::from_str(t.as_str())),
        None => None,
    }
}

// ---------------------------------------------------------------------
// Tools and the lines that show them
// ---------------------------------------------------------------------

/// What kind of operation a tool reports.
#[derive(Clone, Copy, Debug, PartialEq, Eq, Structural)]
pub enum Operation {
    /// None reported.
    Unset,
    /// A network request.
    Network,
    /// Any other operation.
    Other,
}

/// What a tool reports about its work, as far as the view shows it.
#[derive(Debug)]
pub struct ToolFacts {
    /// A one-line summary of the command it runs.
    pub command: Option<String>,
    /// The paths it touches, as text.
    pub paths: Vec<String>,
    /// The URLs it visits.
    pub urls: Vec<String>,
    /// A unified diff of what it changed.
    pub diff: Option<String>,
    pub operation: Operation,
}

/// `ToolFacts` as plain sequences.
pub struct FactsView {
    pub command: Option<Seq<char>>,
    pub paths: Seq<Seq<char>>,
    pub urls: Seq<Seq<char>>,
    pub diff: Option<Seq<char>>,
    pub operation: Operation,
}

/// An optional text as a sequence.
pub open spec fn opt_text(o: Option<String>) -> Option<Seq<char>> {
    match o {
        Some(t) => Some(t@),
        None => None,
    }
}

impl View for ToolFacts {
    type V = FactsView;

    open spec fn view(&self) -> FactsView {
        FactsView {
            command: opt_text(self.command),
            paths: strings_view(self.paths@),
            urls: strings_view(self.urls@),
            diff: opt_text(self.diff),
            operation: self.operation,
        }
    }
}

/// Facts with nothing reported.
pub open spec fn no_facts() -> FactsView {
    FactsView { command: None, paths: Seq::empty(), urls: Seq::empty(), diff: None, operation: Operation::Unset }
}

impl ToolFacts {
    /// Facts with nothing reported.
    pub fn none() -> (f: Self)
        ensures
            f@ == no_facts(),
    {
        let f = ToolFacts { command: None, paths: Vec::new(), urls: Vec::new(), diff: None, operation: Operation::Unset };
        assert(f@.paths =~= Seq::<Seq<char>>::empty());
        assert(f@.urls =~= Seq::<Seq<char>>::empty());
        f
    }

    /// Whether nothing is reported.
    pub fn is_none(&self) -> (b: bool)
        ensures
            b == (self@ == no_facts()),
    {
        let b = self.command.is_none() && self.paths.len() == 0 && self.urls.len() == 0 && self.diff.is_none()
            && self.operation == Operation::Unset;
        if b {
            assert(self@.paths =~= Seq::<Seq<char>>::empty());
            assert(self@.urls =~= Seq::<Seq<char>>::empty());
        }
        proof {
            if self@ == no_facts() {
                assert(self@.paths.len() == 0);
                assert(self@.urls.len() == 0);
            }
        }
        b
    }
}

/// A tool call the view keeps while it runs.
#[derive(Debug)]
pub struct ToolView {
    pub name: String,
    /// The call's arguments as JSON text, or none for an empty object.
    pub arguments: Option<String>,
    pub facts: ToolFacts,
}

/// `ToolView` as plain sequences.
pub struct ToolSpec {
    pub name: Seq<char>,
    pub arguments: Option<Seq<char>>,
    pub facts: FactsView,
}

impl View for ToolView {
    type V = ToolSpec;

    open spec fn view(&self) -> ToolSpec {
        ToolSpec { name: self.name@, arguments: opt_text(self.arguments), facts: self.facts@ }
    }
}

/// The line of an optional text.
pub open spec fn opt_line(o: Option<Seq<char>>) -> Seq<Seq<char>> {
    match o {
        Some(t) => seq![t],
        None => Seq::empty(),
    }
}

/// The tool's name followed by each path it touches, separated by spaces.
pub open spec fn name_with_paths(name: Seq<char>, paths: Seq<Seq<char>>) -> Seq<char>
    decreases paths.len(),
{
    if paths.len() == 0 {
        name
    } else {
        name_with_paths(name, paths.drop_last()) + " "@ + paths.last()
    }
}

/// Whether a diff line is a header (`--- `, `+++ ` or a `@@` hunk line)
/// rather than a change.
pub open spec fn is_diff_header(l: Seq<char>) -> bool {
    (l.len() >= 4 && (l.take(4) == "--- "@ || l.take(4) == "+++ "@)) || (l.len() >= 2 && l.take(2) == "@@"@)
}

/// The lines of a diff that are not headers.
pub open spec fn change_lines(lines: Seq<Seq<char>>) -> Seq<Seq<char>>
    decreases lines.len(),
{
    if lines.len() == 0 {
        lines
    } else if is_diff_header(lines.last()) {
        change_lines(lines.drop_last())
    } else {
        change_lines(lines.drop_last()).push(lines.last())
    }
}

/// A unified diff without its headers: the changed and context lines,
/// joined by line breaks.
pub open spec fn compact_diff(d: Seq<char>) -> Seq<char> {
    join_seqs(change_lines(str_lines(d)), "\n"@)
}

/// Whether a tool reports nothing but its name.
pub open spec fn reports_nothing(f: FactsView) -> bool {
    f.command is None && f.paths.len() == 0 && f.urls.len() == 0 && f.diff is None
}

/// The lines that show a tool: its name with the paths it touches, then
/// its command, its URLs and its diff without headers (when that leaves
/// anything); the arguments when it reports nothing else; the output
/// `content` when it holds more than white space and no diff is shown in
/// its place; and "network request" for a network tool that has nothing
/// else to show.
pub open spec fn tool_lines_of(t: ToolSpec, content: Option<Seq<char>>) -> Seq<Seq<char>> {
    let diff = match t.facts.diff {
        Some(d) => compact_diff(d),
        None => Seq::empty(),
    };
    let a = seq![name_with_paths(t.name, t.facts.paths)] + opt_line(t.facts.command) + t.facts.urls + if diff.len()
        > 0 {
        seq![diff]
    } else {
        Seq::empty()
    };
    let b = if reports_nothing(t.facts) && t.arguments is Some {
        a.push(t.arguments->0)
    } else {
        a
    };
    let c = match content {
        Some(x) => if trim_seq(x).len() > 0 && t.facts.diff is None {
            b.push(x)
        } else {
            b
        },
        None => b,
    };
    if t.facts.operation == Operation::Network && c.len() == 1 {
        c.push("network request"@)
    } else {
        c
    }
}

/// Whether `v` begins with `p`.
fn starts_with_chars(v: &Vec<char>, p: &str) -> (b: bool)
    ensures
        b == (v@.len() >= p@.len() && v@.take(p@.len() as int) == p@),
{
    let q = chars_of(p);
    if v.len() < q.len() {
        return false;
    }
    let mut i: usize = 0;
    while i < q.len()
        invariant
            q@ == p@,
            q@.len() <= v@.len(),
            i <= q@.len(),
            forall|k: int| 0 <= k < i ==> v@[k] == q@[k],
        decreases q@.len() - i,
    {
        if v[i] != q[i] {
            assert(v@.take(q@.len() as int)[i as int] != q@[i as int]);
            return false;
        }
        i += 1;
    }
    assert(v@.take(q@.len() as int) =~= q@);
    true
}

/// A diff without its headers (see `compact_diff`).
pub fn compact_unified_diff(diff: &str) -> (r: String)
    ensures
        r@ == compact_diff(diff@),
{
    let lines = text_lines(diff);
    let mut kept: Vec<String> = Vec::new();
    let mut i: usize = 0;
    while i < lines.len()
        invariant
            i <= lines@.len(),
            strings_view(lines@) == str_lines(diff@),
            strings_view(kept@) == change_lines(strings_view(lines@).take(i as int)),
        decreases lines@.len() - i,
    {
        let ghost all = strings_view(lines@);
        assert(all.take(i + 1).drop_last() =~= all.take(i as int));
        assert(all.take(i + 1).last() == lines@[i as int]@);
        let v = chars_of(lines[i].as_str());
        let header = starts_with_chars(&v, "--- ") || starts_with_chars(&v, "+++ ") || starts_with_chars(&v, "@@");
        proof {
            reveal_strlit("--- ");
            reveal_strlit("+++ ");
            reveal_strlit("@@");
            assert(v@ == lines@[i as int]@);
            assert(header == is_diff_header(v@));
        }
        if !header {
            let ghost before = kept@;
            kept.push(copy_string(&lines[i]));
            assert(strings_view(kept@) =~= strings_view(before).push(lines@[i as int]@));
        }
        i += 1;
    }
    assert(strings_view(lines@).take(i as int) =~= strings_view(lines@));
    join_strings(&kept, "\n")
}

/// A copy of a string.
fn copy_string(s: &String) -> (r: String)
    ensures
        r@ == s@,
{
    String::from_str(s.as_str())
}

/// A copy of an optional string.
fn copy_opt(s: &Option<String>) -> (r: Option<String>)
    ensures
        opt_text(r) == opt_text(*s),
{
    match s {
        Some(t) => Some(copy_string(t)),
        None => None,
    }
}

/// Appends copies of `more` to `lines`.
fn push_copies(lines: &mut Vec<String>, more: &Vec<String>)
    ensures
        strings_view(final(lines)@) == strings_view(old(lines)@) + strings_view(more@),
{
    let ghost start = strings_view(lines@);
    let mut i: usize = 0;
    while i < more.len()
        invariant
            i <= more@.len(),
            strings_view(lines@) == start + strings_view(more@).subrange(0, i as int),
        decreases more@.len() - i,
    {
        let ghost prev = lines@;
        lines.push(copy_string(&more[i]));
        assert(strings_view(lines@) =~= strings_view(prev).push(more@[i as int]@));
        i += 1;
        assert(strings_view(lines@) =~= start + strings_view(more@).subrange(0, i as int));
    }
    assert(strings_view(more@).subrange(0, i as int) =~= strings_view(more@));
}

/// A copy of a list of strings.
fn copy_strings(v: &Vec<String>) -> (r: Vec<String>)
    ensures
        strings_view(r@) == strings_view(v@),
{
    let mut r: Vec<String> = Vec::new();
    push_copies(&mut r, v);
    assert(strings_view(r@) =~= strings_view(v@));
    r
}

/// A copy of a tool's facts.
fn copy_facts(f: &ToolFacts) -> (r: ToolFacts)
    ensures
        r@ == f@,
{
    ToolFacts {
        command: copy_opt(&f.command),
        paths: copy_strings(&f.paths),
        urls: copy_strings(&f.urls),
        diff: copy_opt(&f.diff),
        operation: f.operation,
    }
}

/// A copy of a tool.
fn copy_tool(t: &ToolView) -> (r: ToolView)
    ensures
        r@ == t@,
{
    ToolView { name: copy_string(&t.name), arguments: copy_opt(&t.arguments), facts: copy_facts(&t.facts) }
}

/// The tool's name followed by each of `paths`.
fn name_with_path_list(name: &String, paths: &Vec<String>) -> (r: String)
    ensures
        r@ == name_with_paths(name@, strings_view(paths@)),
{
    let mut r = copy_string(name);
    let mut i: usize = 0;
    while i < paths.len()
        invariant
            i <= paths@.len(),
            r@ == name_with_paths(name@, strings_view(paths@).take(i as int)),
        decreases paths@.len() - i,
    {
        let ghost all = strings_view(paths@);
        assert(all.take(i + 1).drop_last() =~= all.take(i as int));
        assert(all.take(i + 1).last() == paths@[i as int]@);
        push_str(&mut r, " ");
        push_str(&mut r, paths[i].as_str());
        i += 1;
    }
    assert(strings_view(paths@).take(i as int) =~= strings_view(paths@));
    r
}

/// The lines that show `tool`, with its output `content` if any (see
/// `tool_lines_of`).
pub fn tool_lines(tool: &ToolView, content: Option<&str>) -> (lines: Vec<String>)
    ensures
        strings_view(lines@) == tool_lines_of(tool@, match content {
            Some(c) => Some(c@),
            None => None,
        }),
{
    let ghost t = tool@;
    let mut lines: Vec<String> = Vec::new();
    lines.push(name_with_path_list(&tool.name, &tool.facts.paths));
    assert(strings_view(lines@) =~= seq![name_with_paths(t.name, t.facts.paths)]);
    if let Some(command) = &tool.facts.command {
        lines.push(copy_string(command));
    }
    assert(strings_view(lines@) =~= seq![name_with_paths(t.name, t.facts.paths)] + opt_line(t.facts.command));
    push_copies(&mut lines, &tool.facts.urls);
    let ghost mid = lines@;
    let ghost diff = match t.facts.diff {
        Some(d) => compact_diff(d),
        None => Seq::<char>::empty(),
    };
    if let Some(d) = &tool.facts.diff {
        let compact = compact_unified_diff(d.as_str());
        if compact.as_str().unicode_len() > 0 {
            lines.push(compact);
            assert(strings_view(lines@) =~= strings_view(mid).push(diff));
        }
    }
    assert(strings_view(lines@) =~= seq![name_with_paths(t.name, t.facts.paths)] + opt_line(t.facts.command)
        + t.facts.urls + if diff.len() > 0 {
        seq![diff]
    } else {
        Seq::empty()
    });
    let nothing = tool.facts.command.is_none() && tool.facts.paths.len() == 0 && tool.facts.urls.len() == 0
        && tool.facts.diff.is_none();
    if nothing {
        if let Some(arguments) = &tool.arguments {
            lines.push(copy_string(arguments));
        }
    }
    if let Some(c) = content {
        if trimmed(c).len() > 0 && tool.facts.diff.is_none() {
            lines.push(String::from_str(c));
        }
    }
    if tool.facts.operation == Operation::Network && lines.len() == 1 {
        lines.push(String::from_str("network request"));
    }
    assert(strings_view(lines@) =~= tool_lines_of(tool@, match content {
        Some(c) => Some(c@),
        None => None,
    }));
    lines
}

/// The open tools keyed by call id, as plain sequences.
pub open spec fn tool_entries(v: Seq<(String, ToolView)>) -> Seq<(Seq<char>, ToolSpec)> {
    Seq::new(v.len(), |i: int| (v[i].0@, v[i].1@))
}

/// The position of the last tool with call id `id`.
fn find_tool_entry(entries: &Vec<(String, ToolView)>, id: &str) -> (r: Option<usize>)
    ensures
        match r {
            Some(i) => i < entries@.len() && i as int == last_key_index(tool_entries(entries@), id@),
            None => last_key_index(tool_entries(entries@), id@) == -1,
        },
{
    let ghost s = tool_entries(entries@);
    let mut i = entries.len();
    while i > 0
        invariant
            i <= entries@.len(),
            s == tool_entries(entries@),
            forall|j: int| i <= j < s.len() ==> s[j].0 != id@,
        decreases i,
    {
        if str_eq(entries[i - 1].0.as_str(), id) {
            proof {
                lemma_last_key_index_is(s, id@, i - 1);
            }
            return Some(i - 1);
        }
        i -= 1;
    }
    proof {
        lemma_last_key_index_is(s, id@, -1);
    }
    None
}

/// Keeps `tool` under call id `id`.
fn set_tool_entry(entries: &mut Vec<(String, ToolView)>, id: String, tool: ToolView)
    ensures
        tool_entries(final(entries)@) == set_entry(tool_entries(old(entries)@), id@, tool@),
{
    let ghost s = tool_entries(entries@);
    let ghost key = id@;
    let ghost t = tool@;
    match find_tool_entry(entries, id.as_str()) {
        Some(i) => {
            entries.set(i, (id, tool));
        },
        None => {
            entries.push((id, tool));
        },
    }
    assert(tool_entries(entries@) =~= set_entry(s, key, t));
}

/// The open tools without those of call id `id`.
fn without_tool_entry(entries: &Vec<(String, ToolView)>, id: &str) -> (r: Vec<(String, ToolView)>)
    ensures
        tool_entries(r@) == without_key(tool_entries(entries@), id@),
{
    let ghost s = tool_entries(entries@);
    let mut r: Vec<(String, ToolView)> = Vec::new();
    let mut i: usize = 0;
    while i < entries.len()
        invariant
            i <= entries@.len(),
            s == tool_entries(entries@),
            tool_entries(r@) == without_key(s.subrange(0, i as int), id@),
        decreases entries@.len() - i,
    {
        let ghost before = r@;
        assert(s.subrange(0, i + 1).drop_last() =~= s.subrange(0, i as int));
        if !str_eq(entries[i].0.as_str(), id) {
            r.push((copy_string(&entries[i].0), copy_tool(&entries[i].1)));
            assert(tool_entries(r@) =~= tool_entries(before).push(s[i as int]));
        }
        i += 1;
    }
    assert(s.subrange(0, i as int) =~= s);
    r
}

// ---------------------------------------------------------------------
// Run events and view events
// ---------------------------------------------------------------------

/// How a finished tool call ended.
pub enum Completion {
    /// It succeeded with `content` and reported `facts`.
    Success { content: String, facts: ToolFacts },
    /// It failed with a message.
    Failure(String),
    /// The tool could not be had.
    Unavailable,
    /// An ending the view does not know.
    Unknown,
}

/// An event of an agent run; `Q` is a request for the user's input, which
/// the view passes on as it is.
pub enum RunEvent<Q> {
    Started,
    StepStarted(usize),
    AssistantTextDelta(String),
    /// A piece of reasoning or of its summary.
    ReasoningDelta(String),
    /// A piece of a tool call as the model streams it: call `index`, its
    /// name once known, and more of its arguments.
    ToolCallUpdated { index: usize, name: Option<String>, arguments_delta: String },
    /// A complete tool call (arguments as JSON text, none for an empty object).
    ToolProposed { id: String, name: String, arguments: Option<String> },
    ToolStarted { call_id: String, name: String, facts: ToolFacts },
    /// Progress of a running tool: what it now reports, a text, and units
    /// done out of a total when it counts them.
    ToolUpdated { call_id: String, facts: ToolFacts, text: String, completed: Option<u64>, total: Option<u64> },
    ToolFinished { call_id: String, result: Completion },
    UsageUpdated(ModelUsage),
    /// Work the provider did on its own, such as a web search.
    ProviderActivity { kind: String, detail: String },
    HostInputRequested(Q),
    CompactionStarted,
    CompactionCompleted { previous_messages: usize, current_messages: usize },
    Completed,
    Cancelled,
    Failed(String),
    /// Any event the view has nothing to show for.
    Other,
}

/// Whose style a finished tool is drawn in.
pub enum ToolStyleOf {
    /// That of the tool with this name.
    Named(String),
    /// That of a web search.
    Web,
}

/// A change to the view model of a running turn.
pub enum ViewModelEvent {
    StepStarted(usize),
    ToolStarted { name: String, command: Option<String>, style: ToolStyleOf, display_lines: Vec<String> },
    OutputDelta(String),
    ReasoningDelta(String),
    Usage(ModelUsage),
    ToolUpdated { display_lines: Vec<String> },
    ToolCallUpdated { display_lines: Vec<String> },
    ToolFinished { ok: bool, style: ToolStyleOf, display_lines: Vec<String> },
}

/// What the view does with a run event.
pub enum ViewEvent<Q> {
    Update(ViewModelEvent),
    Questionnaire(Q),
    Notice(String),
    Completed,
    Cancelled,
    Failed(String),
    Ignored,
}

/// Turns run events into view events, remembering open tool calls and the
/// tool calls still being streamed.
pub struct SdkEventAdapter {
    proposed: Vec<(String, ToolView)>,
    partial_names: BTreeMap<usize, String>,
    partial_arguments: BTreeMap<usize, String>,
}

/// What the adapter remembers: open tools by call id (a keyed list whose
/// newest entry of a key counts; see `lookup`), and the names and
/// arguments so far of streamed calls by index.
pub struct AdapterState {
    pub proposed: Seq<(Seq<char>, ToolSpec)>,
    pub names: Map<usize, Seq<char>>,
    pub arguments: Map<usize, Seq<char>>,
}

impl View for SdkEventAdapter {
    type V = AdapterState;

    closed spec fn view(&self) -> AdapterState {
        AdapterState {
            proposed: tool_entries(self.proposed@),
            names: text_map(self.partial_names@),
            arguments: text_map(self.partial_arguments@),
        }
    }
}

/// The tool kept under `id`, or a bare "tool" when none is.
pub open spec fn tool_or_default(t: Option<ToolSpec>) -> ToolSpec {
    match t {
        Some(t) => t,
        None => ToolSpec { name: "tool"@, arguments: None, facts: no_facts() },
    }
}

/// Whether a tool call succeeded, the text it gave, and the facts it
/// reported at the end.
pub open spec fn completion_parts(c: Completion) -> (bool, Seq<char>, FactsView) {
    match c {
        Completion::Success { content, facts } => (true, content@, facts@),
        Completion::Failure(m) => (false, m@, no_facts()),
        Completion::Unavailable => (false, "tool is unavailable"@, no_facts()),
        Completion::Unknown => (false, "unknown tool result"@, no_facts()),
    }
}

/// What the adapter remembers after `e`.
pub open spec fn adapter_step<Q>(a: AdapterState, e: RunEvent<Q>) -> AdapterState {
    match e {
        RunEvent::ToolCallUpdated { index, name, arguments_delta } => {
            let names = match name {
                Some(n) => a.names.insert(index, n@),
                None => a.names,
            };
            let prior = match text_at(a.arguments, index) {
                Some(t) => t,
                None => Seq::empty(),
            };
            AdapterState { names, arguments: a.arguments.insert(index, prior + arguments_delta@), ..a }
        },
        RunEvent::ToolProposed { id, name, arguments } => AdapterState {
            proposed: set_entry(
                a.proposed,
                id@,
                ToolSpec { name: name@, arguments: opt_text(arguments), facts: no_facts() },
            ),
            ..a
        },
        RunEvent::ToolStarted { call_id, name, facts } => {
            let arguments = match lookup(a.proposed, call_id@) {
                Some(t) => t.arguments,
                None => None,
            };
            AdapterState {
                proposed: set_entry(a.proposed, call_id@, ToolSpec { name: name@, arguments, facts: facts@ }),
                ..a
            }
        },
        RunEvent::ToolUpdated { call_id, facts, .. } => match lookup(a.proposed, call_id@) {
            Some(t) => AdapterState {
                proposed: set_entry(a.proposed, call_id@, ToolSpec { facts: facts@, ..t }),
                ..a
            },
            None => a,
        },
        RunEvent::ToolFinished { call_id, .. } => AdapterState {
            proposed: without_key(a.proposed, call_id@),
            ..a
        },
        _ => a,
    }
}

/// The lines of a progress update for the tool kept under `id`.
pub open spec fn progress_lines(
    t: Option<ToolSpec>,
    text: Seq<char>,
    completed: Option<u64>,
    total: Option<u64>,
) -> Seq<Seq<char>> {
    let base = match t {
        Some(t) => tool_lines_of(t, None),
        None => seq!["tool"@],
    };
    let with_text = if trim_seq(text).len() > 0 {
        base.push(text)
    } else {
        base
    };
    match (completed, total) {
        (Some(c), Some(n)) => with_text.push("progress: "@ + decimal(c as nat) + "/"@ + decimal(n as nat)),
        _ => with_text,
    }
}

/// The tool shown when a call finishes: the one kept, with the facts
/// reported at the end when there are any.
pub open spec fn finished_tool(a: AdapterState, call_id: Seq<char>, facts: FactsView) -> ToolSpec {
    let tool = tool_or_default(lookup(a.proposed, call_id));
    if facts == no_facts() {
        tool
    } else {
        ToolSpec { facts, ..tool }
    }
}

/// Whether `v` is what the view makes of `e` when the adapter remembered
/// `a` before it.
pub open spec fn view_event_of<Q>(a: AdapterState, e: RunEvent<Q>, v: ViewEvent<Q>) -> bool {
    let next = adapter_step(a, e);
    match e {
        RunEvent::Started => v is Ignored,
        RunEvent::Other => v is Ignored,
        RunEvent::StepStarted(step) => v matches ViewEvent::Update(ViewModelEvent::StepStarted(x)) && x == step,
        RunEvent::AssistantTextDelta(t) => v matches ViewEvent::Update(ViewModelEvent::OutputDelta(x)) && x@ == t@,
        RunEvent::ReasoningDelta(t) => v matches ViewEvent::Update(ViewModelEvent::ReasoningDelta(x)) && x@ == t@,
        RunEvent::ToolCallUpdated { index, .. } => {
            let name = match text_at(next.names, index) {
                Some(n) => n,
                None => "tool"@,
            };
            let arguments = match text_at(next.arguments, index) {
                Some(t) => t,
                None => Seq::empty(),
            };
            v matches ViewEvent::Update(ViewModelEvent::ToolCallUpdated { display_lines })
                && strings_view(display_lines@) == crate::transcript::preview_of(name, arguments)
        },
        RunEvent::ToolProposed { name, arguments, .. } => v matches ViewEvent::Update(
            ViewModelEvent::ToolCallUpdated { display_lines },
        ) && strings_view(display_lines@) == seq![name@] + opt_line(opt_text(arguments)),
        RunEvent::ToolStarted { call_id, name, facts } => v matches ViewEvent::Update(
            ViewModelEvent::ToolStarted { name: n, command, style, display_lines },
        ) && n@ == name@ && (style matches ToolStyleOf::Named(sn) && sn@ == name@) && opt_text(command) == facts@.command && strings_view(display_lines@)
            == tool_lines_of(lookup(next.proposed, call_id@)->0, None),
        RunEvent::ToolUpdated { call_id, text, completed, total, .. } => v matches ViewEvent::Update(
            ViewModelEvent::ToolUpdated { display_lines },
        ) && strings_view(display_lines@) == progress_lines(lookup(next.proposed, call_id@), text@, completed, total),
        RunEvent::ToolFinished { call_id, result } => {
            let (ok, content, facts) = completion_parts(result);
            let done = finished_tool(a, call_id@, facts);
            v matches ViewEvent::Update(ViewModelEvent::ToolFinished { ok: o, style, display_lines }) && o == ok
                && (style matches ToolStyleOf::Named(n) && n@ == done.name) && strings_view(display_lines@)
                == tool_lines_of(done, Some(content))
        },
        RunEvent::UsageUpdated(u) => v matches ViewEvent::Update(ViewModelEvent::Usage(x)) && x == u,
        RunEvent::ProviderActivity { kind, detail } => if kind@ == "web_search"@ {
            v matches ViewEvent::Update(ViewModelEvent::ToolFinished { ok, style, display_lines }) && ok
                && style is Web && strings_view(display_lines@) == seq!["web search"@, detail@]
        } else {
            v matches ViewEvent::Notice(t) && t@ == kind@ + ": "@ + detail@
        },
        RunEvent::HostInputRequested(q) => v matches ViewEvent::Questionnaire(x) && x == q,
        RunEvent::CompactionStarted => v matches ViewEvent::Notice(t) && t@ == "compacting conversation context"@,
        RunEvent::CompactionCompleted { previous_messages, current_messages } => v matches ViewEvent::Notice(t)
            && t@ == "compacted conversation context ("@ + decimal(previous_messages as nat) + " to "@ + decimal(
            current_messages as nat,
        ) + " messages)"@,
        RunEvent::Completed => v is Completed,
        RunEvent::Cancelled => v is Cancelled,
        RunEvent::Failed(m) => v matches ViewEvent::Failed(x) && x@ == m@,
    }
}

/// A started tool keeps what it reported until it finishes: finishing it
/// with no new facts shows it with the name and facts it started with and
/// the arguments it was proposed with.
pub proof fn lemma_started_facts_shown_at_finish<Q>(a: AdapterState, call_id: String, name: String, facts: ToolFacts)
    ensures
        ({
            let started = adapter_step(a, RunEvent::<Q>::ToolStarted { call_id, name, facts });
            let arguments = match lookup(a.proposed, call_id@) {
                Some(t) => t.arguments,
                None => None,
            };
            finished_tool(started, call_id@, no_facts()) == ToolSpec { name: name@, arguments, facts: facts@ }
        }),
{
    let arguments = match lookup(a.proposed, call_id@) {
        Some(t) => t.arguments,
        None => None,
    };
    lemma_lookup_set_entry(a.proposed, call_id@, ToolSpec { name: name@, arguments, facts: facts@ }, call_id@);
}

impl SdkEventAdapter {
    /// An adapter that remembers nothing yet.
    pub fn new() -> (a: Self)
        ensures
            a@.proposed.len() == 0,
            a@.names.is_empty(),
            a@.arguments.is_empty(),
    {
        let a = SdkEventAdapter { proposed: Vec::new(), partial_names: BTreeMap::new(), partial_arguments: BTreeMap::new() };
        assert(a@.names =~= Map::empty());
        assert(a@.arguments =~= Map::empty());
        a
    }

    /// What the view makes of `event`: text and reasoning pieces, usage and
    /// the run's end pass through; a streamed tool call shows its name and
    /// arguments so far; a proposed, started, updated or finished tool shows
    /// what is known of it, and is remembered from proposal to finish;
    /// provider activity, compaction and other events become notices or
    /// are ignored.
    pub fn translate<Q>(&mut self, event: RunEvent<Q>) -> (v: ViewEvent<Q>)
        ensures
            final(self)@ == adapter_step(old(self)@, event),
            view_event_of(old(self)@, event, v),
    {
        let ghost a = self@;
        match event {
            RunEvent::Started => ViewEvent::Ignored,
            RunEvent::Other => ViewEvent::Ignored,
            RunEvent::StepStarted(step) => ViewEvent::Update(ViewModelEvent::StepStarted(step)),
            RunEvent::AssistantTextDelta(text) => ViewEvent::Update(ViewModelEvent::OutputDelta(text)),
            RunEvent::ReasoningDelta(text) => ViewEvent::Update(ViewModelEvent::ReasoningDelta(text)),
            RunEvent::ToolCallUpdated { index, name, arguments_delta } => {
                if let Some(name) = name {
                    set_text(&mut self.partial_names, index, name);
                }
                let mut arguments = match get_text(&self.partial_arguments, index) {
                    Some(t) => t,
                    None => String::new(),
                };
                push_str(&mut arguments, arguments_delta.as_str());
                let shown = match get_text(&self.partial_names, index) {
                    Some(n) => n,
                    None => String::from_str("tool"),
                };
                let lines = crate::transcript::preview_lines(shown.as_str(), arguments.as_str());
                set_text(&mut self.partial_arguments, index, arguments);
                ViewEvent::Update(ViewModelEvent::ToolCallUpdated { display_lines: lines })
            },
            RunEvent::ToolProposed { id, name, arguments } => {
                let mut lines: Vec<String> = Vec::new();
                lines.push(copy_string(&name));
                if let Some(text) = &arguments {
                    lines.push(copy_string(text));
                }
                assert(strings_view(lines@) =~= seq![name@] + opt_line(opt_text(arguments)));
                set_tool_entry(&mut self.proposed, id, ToolView { name, arguments, facts: ToolFacts::none() });
                ViewEvent::Update(ViewModelEvent::ToolCallUpdated { display_lines: lines })
            },
            RunEvent::ToolStarted { call_id, name, facts } => {
                let arguments = match find_tool_entry(&self.proposed, call_id.as_str()) {
                    Some(i) => copy_opt(&self.proposed[i].1.arguments),
                    None => None,
                };
                let command = copy_opt(&facts.command);
                let tool = ToolView { name: copy_string(&name), arguments, facts };
                let lines = tool_lines(&tool, None);
                let ghost key = call_id@;
                let ghost t = tool@;
                set_tool_entry(&mut self.proposed, call_id, tool);
                proof {
                    lemma_lookup_set_entry(a.proposed, key, t, key);
                }
                let style = ToolStyleOf::Named(copy_string(&name));
                ViewEvent::Update(ViewModelEvent::ToolStarted { name, command, style, display_lines: lines })
            },
            RunEvent::ToolUpdated { call_id, facts, text, completed, total } => {
                let ghost key = call_id@;
                let mut lines: Vec<String> = Vec::new();
                match find_tool_entry(&self.proposed, call_id.as_str()) {
                    Some(i) => {
                        let tool = ToolView {
                            name: copy_string(&self.proposed[i].1.name),
                            arguments: copy_opt(&self.proposed[i].1.arguments),
                            facts,
                        };
                        lines = tool_lines(&tool, None);
                        let ghost t = tool@;
                        set_tool_entry(&mut self.proposed, call_id, tool);
                        proof {
                            lemma_lookup_set_entry(a.proposed, key, t, key);
                        }
                    },
                    None => {
                        lines.push(String::from_str("tool"));
                        assert(strings_view(lines@) =~= seq!["tool"@]);
                    },
                }
                let ghost base = strings_view(lines@);
                assert(base == match lookup(adapter_step(a, event).proposed, key) {
                    Some(t) => tool_lines_of(t, None),
                    None => seq!["tool"@],
                });
                if trimmed(text.as_str()).len() > 0 {
                    lines.push(text);
                }
                let ghost with_text = strings_view(lines@);
                assert(with_text =~= (if trim_seq(text@).len() > 0 {
                    base.push(text@)
                } else {
                    base
                }));
                if let (Some(c), Some(n)) = (completed, total) {
                    let mut t = String::new();
                    push_str(&mut t, "progress: ");
                    push_str(&mut t, decimal_string(c).as_str());
                    push_str(&mut t, "/");
                    push_str(&mut t, decimal_string(n).as_str());
                    lines.push(t);
                    assert(strings_view(lines@) =~= with_text.push(
                        "progress: "@ + decimal(c as nat) + "/"@ + decimal(n as nat),
                    ));
                }
                ViewEvent::Update(ViewModelEvent::ToolUpdated { display_lines: lines })
            },
            RunEvent::ToolFinished { call_id, result } => {
                let tool = match find_tool_entry(&self.proposed, call_id.as_str()) {
                    Some(i) => copy_tool(&self.proposed[i].1),
                    None => ToolView { name: String::from_str("tool"), arguments: None, facts: ToolFacts::none() },
                };
                self.proposed = without_tool_entry(&self.proposed, call_id.as_str());
                let (ok, content, facts) = match result {
                    Completion::Success { content, facts } => (true, content, facts),
                    Completion::Failure(message) => (false, message, ToolFacts::none()),
                    Completion::Unavailable => (false, String::from_str("tool is unavailable"), ToolFacts::none()),
                    Completion::Unknown => (false, String::from_str("unknown tool result"), ToolFacts::none()),
                };
                let mut done = tool;
                if !facts.is_none() {
                    done.facts = facts;
                }
                let lines = tool_lines(&done, Some(content.as_str()));
                assert(done@ == finished_tool(a, call_id@, facts@));
                ViewEvent::Update(
                    ViewModelEvent::ToolFinished { ok, style: ToolStyleOf::Named(done.name), display_lines: lines },
                )
            },
            RunEvent::UsageUpdated(usage) => ViewEvent::Update(ViewModelEvent::Usage(usage)),
            RunEvent::ProviderActivity { kind, detail } => {
                if str_eq(kind.as_str(), "web_search") {
                    let mut lines: Vec<String> = Vec::new();
                    lines.push(String::from_str("web search"));
                    lines.push(detail);
                    assert(strings_view(lines@) =~= seq!["web search"@, detail@]);
                    ViewEvent::Update(ViewModelEvent::ToolFinished { ok: true, style: ToolStyleOf::Web, display_lines: lines })
                } else {
                    let mut t = kind;
                    push_str(&mut t, ": ");
                    push_str(&mut t, detail.as_str());
                    ViewEvent::Notice(t)
                }
            },
            RunEvent::HostInputRequested(request) => ViewEvent::Questionnaire(request),
            RunEvent::CompactionStarted => ViewEvent::Notice(String::from_str("compacting conversation context")),
            RunEvent::CompactionCompleted { previous_messages, current_messages } => {
                let mut t = String::new();
                push_str(&mut t, "compacted conversation context (");
                push_str(&mut t, decimal_string(previous_messages as u64).as_str());
                push_str(&mut t, " to ");
                push_str(&mut t, decimal_string(current_messages as u64).as_str());
                push_str(&mut t, " messages)");
                ViewEvent::Notice(t)
            },
            RunEvent::Completed => ViewEvent::Completed,
            RunEvent::Cancelled => ViewEvent::Cancelled,
            RunEvent::Failed(message) => ViewEvent::Failed(message),
        }
    }
}

} // verus!

//! `@` file mentions in the composer: the mention under the cursor, fuzzy
//! ranking of workspace paths, the palette's scroll window, and the path
//! texts shown for a directory scope.
use vstd::prelude::*;
use crate::picker::{fuzzy_rank, fuzzy_ranking};
use crate::text::{contains_str, has_substring, str_eq, trim_end_set, trim_end_in,
    ascii_lower_seq, chars_of, decimal, decimal_string, is_white_space, is_whitespace, push_str, string_of, string_of_range, trim_seq, trimmed};
use crate::width::strings_view;
use crate::questionnaire::{join_seqs, join_strings};

verus! {

/// An `@` mention being typed: where it starts and ends (in characters)
/// and the path query after the `@`.
#[derive(Clone, Debug, PartialEq, Eq)]
pub struct FileMention {
    pub start: usize,
    pub end: usize,
    pub query: String,
}

/// Where the word ending at `cursor` starts: after the last white space
/// before it.
pub open spec fn word_start_before(s: Seq<char>, cursor: int) -> int
    decreases cursor,
{
    if cursor <= 0 {
        0
    } else if is_white_space(s[cursor - 1]) {
        cursor
    } else {
        word_start_before(s, cursor - 1)
    }
}

/// Where the word holding `cursor` ends: at the first white space from
/// `cursor` on, or at the end of the text.
pub open spec fn word_end_after(s: Seq<char>, cursor: int) -> int
    decreases s.len() - cursor,
{
    if cursor >= s.len() {
        s.len() as int
    } else if is_white_space(s[cursor]) {
        cursor
    } else {
        word_end_after(s, cursor + 1)
    }
}

/// The mention under the cursor (the cursor held to the text): the word
/// before the cursor, when it starts with `@` and holds no other `@`, is
/// the query; the mention reaches on to the end of the word, so that
/// completing it replaces the whole word.
pub open spec fn mention_at(s: Seq<char>, cursor: int) -> Option<(int, int, Seq<char>)> {
    let c = if cursor < s.len() {
        cursor
    } else {
        s.len() as int
    };
    let start = word_start_before(s, c);
    let token = s.subrange(start, c);
    if token.len() > 0 && token[0] == '@' && !token.drop_first().contains('@') {
        Some((start, word_end_after(s, c), token.drop_first()))
    } else {
        None
    }
}

proof fn lemma_word_start_before(s: Seq<char>, cursor: int)
    requires
        0 <= cursor <= s.len(),
    ensures
        0 <= word_start_before(s, cursor) <= cursor,
    decreases cursor,
{
    if cursor > 0 && !is_white_space(s[cursor - 1]) {
        lemma_word_start_before(s, cursor - 1);
    }
}

/// The `@` mention under the cursor, if any.
pub fn active_file_mention(input: &str, cursor: usize) -> (m: Option<FileMention>)
    ensures
        match m {
            Some(f) => mention_at(input@, cursor as int) == Some(
                (f.start as int, f.end as int, f.query@),
            ),
            None => mention_at(input@, cursor as int) is None,
        },
{
    let chars = chars_of(input);
    let c = if cursor < chars.len() {
        cursor
    } else {
        chars.len()
    };
    let mut start = c;
    while start > 0 && !is_whitespace(chars[start - 1])
        invariant
            start <= c <= chars@.len(),
            word_start_before(chars@, c as int) == word_start_before(chars@, start as int),
        decreases start,
    {
        start -= 1;
    }
    let ghost token = chars@.subrange(start as int, c as int);
    if start == c || chars[start] != '@' {
        return None;
    }
    let mut k = start + 1;
    while k < c
        invariant
            chars@ == input@,
            c == (if cursor < chars@.len() {
                cursor as int
            } else {
                chars@.len() as int
            }),
            start == word_start_before(chars@, c as int),
            token == chars@.subrange(start as int, c as int),
            chars@[start as int] == '@',
            start < k <= c <= chars@.len(),
            forall|j: int| start < j < k ==> chars@[j] != '@',
        decreases c - k,
    {
        if chars[k] == '@' {
            assert(token.drop_first()[k - start - 1] == '@');
            return None;
        }
        k += 1;
    }
    assert(!token.drop_first().contains('@')) by {
        if token.drop_first().contains('@') {
            let j = choose|j: int| 0 <= j < token.drop_first().len() && token.drop_first()[j] == '@';
            assert(chars@[start + 1 + j] == '@');
        }
    }
    let query = string_of_range(&chars, start + 1, c);
    assert(query@ =~= token.drop_first());
    let mut end = c;
    while end < chars.len() && !is_whitespace(chars[end])
        invariant
            c <= end <= chars@.len(),
            word_end_after(chars@, c as int) == word_end_after(chars@, end as int),
        decreases chars@.len() - end,
    {
        end += 1;
    }
    Some(FileMention { start, end, query })
}

/// The most paths the palette ranks for a query.
pub const MAX_RANKED_FILE_MATCHES: usize = 500;

/// The paths a query keeps: all of them for a blank query, else the best
/// fuzzy matches (best score first, ties in the order given), at most
/// `MAX_RANKED_FILE_MATCHES` of them.
pub open spec fn ranked_paths(paths: Seq<Seq<char>>, query: Seq<char>) -> Seq<Seq<char>> {
    let q = trim_seq(query);
    if q.len() == 0 {
        paths
    } else {
        let r = fuzzy_ranking(paths, q, paths.len() as int);
        let k = if r.len() < MAX_RANKED_FILE_MATCHES {
            r.len()
        } else {
            MAX_RANKED_FILE_MATCHES as nat
        };
        Seq::new(k, |j: int| paths[r[j] as int])
    }
}

/// The paths that `query` fuzzily matches, best first, at most
/// `MAX_RANKED_FILE_MATCHES`.
pub fn fuzzy_matching_paths(paths: &[String], query: &str) -> (r: Vec<String>)
    ensures
        strings_view(r@) == ranked_paths(strings_view(paths@), query@),
{
    let ghost pv = strings_view(paths@);
    let _n = paths.len();
    let q = trimmed(query);
    let mut out: Vec<String> = Vec::new();
    if q.len() == 0 {
        let mut i: usize = 0;
        while i < paths.len()
            invariant
                i <= paths@.len(),
                pv == strings_view(paths@),
                strings_view(out@) == pv.take(i as int),
            decreases paths@.len() - i,
        {
            let p = paths[i].clone();
            let ghost before = out@;
            out.push(p);
            assert(strings_view(out@) =~= strings_view(before).push(p@));
            assert(pv.take(i as int + 1) =~= pv.take(i as int).push(pv[i as int]));
            i += 1;
        }
        assert(pv.take(paths@.len() as int) =~= pv);
        return out;
    }
    let qs = string_of(&q);
    let ranked = fuzzy_rank(paths, qs.as_str());
    proof {
        crate::picker::lemma_fuzzy_ranking_ordered(pv, q@, pv.len() as int);
        assert(paths@.len() == paths.len());
    }
    let k = if ranked.len() < MAX_RANKED_FILE_MATCHES {
        ranked.len()
    } else {
        MAX_RANKED_FILE_MATCHES
    };
    let mut j: usize = 0;
    while j < k
        invariant
            k <= ranked@.len(),
            pv == strings_view(paths@),
            ranked@ == fuzzy_ranking(pv, q@, pv.len() as int),
            forall|t: int| 0 <= t < ranked@.len() ==> (#[trigger] ranked@[t]) < pv.len(),
            j <= k,
            strings_view(out@) == Seq::new(j as nat, |t: int| pv[ranked@[t] as int]),
        decreases k - j,
    {
        let idx = ranked[j];
        assert(ranked@[j as int] < pv.len());
        let p = paths[idx].clone();
        assert(p@ == pv[idx as int]);
        let ghost before = out@;
        out.push(p);
        assert(strings_view(out@) =~= strings_view(before).push(p@));
        assert(strings_view(out@) =~= Seq::new((j + 1) as nat, |t: int| pv[ranked@[t] as int]));
        j += 1;
    }
    out
}

/// The palette's scroll window: the first shown match (keeping the
/// selection, held to the matches, on the last visible row at most), and
/// how many matches are hidden above and below.
pub open spec fn scroll_counts(count: int, selected: int, rows: int) -> (int, int, int) {
    if count == 0 || rows == 0 {
        (0, 0, 0)
    } else {
        let sel = if selected < count - 1 {
            selected
        } else {
            count - 1
        };
        let low = if sel + 1 >= rows {
            sel + 1 - rows
        } else {
            0
        };
        let start = if low < count - 1 {
            low
        } else {
            count - 1
        };
        let visible = if rows < count - start {
            rows
        } else {
            count - start
        };
        (start, start, count - (start + visible))
    }
}

/// The first shown match and the numbers of matches hidden above and below.
pub fn file_palette_scroll_counts(match_count: usize, selected_index: usize, visible_rows: usize) -> (r: (usize, usize, usize))
    ensures
        (r.0 as int, r.1 as int, r.2 as int) == scroll_counts(match_count as int, selected_index as int, visible_rows as int),
{
    if match_count == 0 || visible_rows == 0 {
        return (0, 0, 0);
    }
    let selected_index = if selected_index < match_count - 1 {
        selected_index
    } else {
        match_count - 1
    };
    let low = (selected_index + 1).saturating_sub(visible_rows);
    let start = if low < match_count - 1 {
        low
    } else {
        match_count - 1
    };
    let visible = if visible_rows < match_count - start {
        visible_rows
    } else {
        match_count - start
    };
    let above = start;
    let below = match_count - (start + visible);
    (start, above, below)
}

/// The footer under a scrolled palette: hidden matches above and below and
/// the total, when anything is hidden.
pub open spec fn scroll_footer(above: nat, below: nat, total: nat) -> Option<Seq<char>> {
    if above == 0 && below == 0 {
        None
    } else {
        let a: Seq<Seq<char>> = if above > 0 {
            seq!["↑ "@ + decimal(above) + " more"@]
        } else {
            Seq::empty()
        };
        let b = if below > 0 {
            a.push("↓ "@ + decimal(below) + " more"@)
        } else {
            a
        };
        Some(join_seqs(b.push(decimal(total) + " total"@), " · "@))
    }
}

/// The footer under a scrolled palette, if anything is hidden.
pub fn file_palette_scroll_footer(above: usize, below: usize, total: usize) -> (r: Option<String>)
    ensures
        match r {
            Some(t) => scroll_footer(above as nat, below as nat, total as nat) == Some(t@),
            None => scroll_footer(above as nat, below as nat, total as nat) is None,
        },
{
    if above == 0 && below == 0 {
        return None;
    }
    let mut parts: Vec<String> = Vec::new();
    if above > 0 {
        let mut t = String::new();
        push_str(&mut t, "↑ ");
        push_str(&mut t, decimal_string(above as u64).as_str());
        push_str(&mut t, " more");
        parts.push(t);
    }
    if below > 0 {
        let mut t = String::new();
        push_str(&mut t, "↓ ");
        push_str(&mut t, decimal_string(below as u64).as_str());
        push_str(&mut t, " more");
        parts.push(t);
    }
    let mut t = String::new();
    push_str(&mut t, decimal_string(total as u64).as_str());
    push_str(&mut t, " total");
    parts.push(t);
    proof {
        let a: Seq<Seq<char>> = if above > 0 {
            seq!["↑ "@ + decimal(above as nat) + " more"@]
        } else {
            Seq::empty()
        };
        let b = if below > 0 {
            a.push("↓ "@ + decimal(below as nat) + " more"@)
        } else {
            a
        };
        assert(strings_view(parts@) =~= b.push(decimal(total as nat) + " total"@));
    }
    Some(join_strings(&parts, " · "))
}

// ---------------------------------------------------------------------
// Path texts
// ---------------------------------------------------------------------

/// One component of a path (as `std::path::Component` gives it, with the
/// text converted lossily).
#[derive(Clone, Debug)]
pub enum PathPart {
    Root,
    Prefix(String),
    Normal(String),
    Current,
    Parent,
}

/// A path component as a mathematical value.
pub enum PartView {
    Root,
    Prefix(Seq<char>),
    Normal(Seq<char>),
    Current,
    Parent,
}

impl View for PathPart {
    type V = PartView;

    open spec fn view(&self) -> PartView {
        match self {
            PathPart::Root => PartView::Root,
            PathPart::Prefix(t) => PartView::Prefix(t@),
            PathPart::Normal(t) => PartView::Normal(t@),
            PathPart::Current => PartView::Current,
            PathPart::Parent => PartView::Parent,
        }
    }
}

pub open spec fn parts_view(v: Seq<PathPart>) -> Seq<PartView> {
    Seq::new(v.len(), |i: int| v[i]@)
}

fn part_eq(a: &PathPart, b: &PathPart) -> (r: bool)
    ensures
        r == (a@ == b@),
{
    match (a, b) {
        (PathPart::Root, PathPart::Root) => true,
        (PathPart::Current, PathPart::Current) => true,
        (PathPart::Parent, PathPart::Parent) => true,
        (PathPart::Prefix(x), PathPart::Prefix(y)) => str_eq(x.as_str(), y.as_str()),
        (PathPart::Normal(x), PathPart::Normal(y)) => str_eq(x.as_str(), y.as_str()),
        _ => false,
    }
}

/// The length of the common leading components of `a` and `b`.
pub open spec fn shared_len(a: Seq<PartView>, b: Seq<PartView>, k: int) -> int
    decreases a.len() - k,
{
    if k < 0 || k >= a.len() || k >= b.len() || a[k] != b[k] {
        k
    } else {
        shared_len(a, b, k + 1)
    }
}

/// The names of `to[k..]`, skipping `.`; `None` at a `..`, a root or a
/// prefix.
pub open spec fn normal_names(to: Seq<PartView>, k: int) -> Option<Seq<Seq<char>>>
    decreases to.len() - k,
{
    if k < 0 || k >= to.len() {
        Some(Seq::empty())
    } else {
        match normal_names(to, k + 1) {
            None => None,
            Some(rest) => match to[k] {
                PartView::Normal(t) => Some(seq![t] + rest),
                PartView::Current => Some(rest),
                _ => None,
            },
        }
    }
}

/// The path from `from` to `to` (both canonical), as `..` steps up and
/// the names down, joined by `/`; `.` when they are the same.
pub open spec fn relative_text(from: Seq<PartView>, to: Seq<PartView>) -> Option<Seq<char>> {
    let shared = shared_len(from, to, 0);
    match normal_names(to, shared) {
        None => None,
        Some(names) => {
            let ups = Seq::new((from.len() - shared) as nat, |i: int| ".."@);
            let parts = ups + names;
            if parts.len() == 0 {
                Some("."@)
            } else {
                Some(join_seqs(parts, "/"@))
            }
        },
    }
}

proof fn lemma_shared_len(a: Seq<PartView>, b: Seq<PartView>, k: int)
    requires
        0 <= k <= a.len(),
        k <= b.len(),
    ensures
        k <= shared_len(a, b, k) <= a.len(),
        shared_len(a, b, k) <= b.len(),
    decreases a.len() - k,
{
    if k < a.len() && k < b.len() && a[k] == b[k] {
        lemma_shared_len(a, b, k + 1);
    }
}

fn normal_names_in(to: &[PathPart], from: usize) -> (r: Option<Vec<String>>)
    ensures
        match r {
            Some(v) => normal_names(parts_view(to@), from as int) == Some(strings_view(v@)),
            None => normal_names(parts_view(to@), from as int) is None,
        },
{
    let ghost tv = parts_view(to@);
    let n = to.len();
    if from >= n {
        let v: Vec<String> = Vec::new();
        assert(strings_view(v@) =~= Seq::<Seq<char>>::empty());
        return Some(v);
    }
    let mut names: Vec<String> = Vec::new();
    let mut k: usize = n;
    assert(strings_view(names@) =~= Seq::<Seq<char>>::empty());
    while k > from
        invariant
            tv == parts_view(to@),
            n == to@.len(),
            from <= k <= n,
            normal_names(tv, k as int) == Some(strings_view(names@)),
        decreases k,
    {
        k -= 1;
        assert(tv[k as int] == to@[k as int]@);
        match &to[k] {
            PathPart::Normal(t) => {
                names.insert(0, t.clone());
                assert(strings_view(names@) =~= seq![t@] + strings_view(names@).drop_first());
            },
            PathPart::Current => {},
            _ => {
                proof {
                    lemma_normal_names_stuck(tv, from as int, k as int);
                }
                return None;
            },
        }
        proof {
            match to@[k as int] {
                PathPart::Normal(t) => {
                    assert(strings_view(names@).drop_first() == normal_names(tv, k + 1)->0);
                },
                _ => {},
            }
        }
    }
    Some(names)
}

proof fn lemma_normal_names_stuck(to: Seq<PartView>, from: int, k: int)
    requires
        0 <= from <= k < to.len(),
        !(to[k] is Normal || to[k] is Current),
    ensures
        normal_names(to, from) is None,
    decreases k - from,
{
    if from < k {
        lemma_normal_names_stuck(to, from + 1, k);
    }
}

/// The path from `from` to `to` (both canonical, as components), or
/// `None` when `to` cannot be reached by names from the common part.
pub fn relative_path(from: &[PathPart], to: &[PathPart]) -> (r: Option<String>)
    ensures
        match r {
            Some(t) => relative_text(parts_view(from@), parts_view(to@)) == Some(t@),
            None => relative_text(parts_view(from@), parts_view(to@)) is None,
        },
{
    let ghost fv = parts_view(from@);
    let ghost tv = parts_view(to@);
    let mut shared: usize = 0;
    while shared < from.len() && shared < to.len() && part_eq(&from[shared], &to[shared])
        invariant
            fv == parts_view(from@),
            tv == parts_view(to@),
            shared <= from@.len(),
            shared <= to@.len(),
            shared_len(fv, tv, 0) == shared_len(fv, tv, shared as int),
        decreases from@.len() - shared,
    {
        assert(fv[shared as int] == from@[shared as int]@ && tv[shared as int] == to@[shared as int]@);
        shared += 1;
    }
    proof {
        if shared < from.len() && shared < to.len() {
            assert(fv[shared as int] == from@[shared as int]@ && tv[shared as int] == to@[shared as int]@);
        }
    }
    let names = match normal_names_in(to, shared) {
        None => return None,
        Some(names) => names,
    };
    let mut parts: Vec<String> = Vec::new();
    let mut i = shared;
    while i < from.len()
        invariant
            shared <= i <= from@.len(),
            strings_view(parts@) == Seq::new((i - shared) as nat, |j: int| ".."@),
        decreases from@.len() - i,
    {
        let ghost before = strings_view(parts@);
        let up = String::from_str("..");
        parts.push(up);
        assert(strings_view(parts@) =~= before.push(up@));
        assert(strings_view(parts@) =~= Seq::new((i + 1 - shared) as nat, |j: int| ".."@));
        i += 1;
    }
    let ghost ups = strings_view(parts@);
    let mut j: usize = 0;
    while j < names.len()
        invariant
            j <= names@.len(),
            strings_view(parts@) == ups + strings_view(names@).take(j as int),
        decreases names@.len() - j,
    {
        let ghost before = strings_view(parts@);
        let name = names[j].clone();
        assert(name@ == strings_view(names@)[j as int]);
        parts.push(name);
        assert(strings_view(parts@) =~= before.push(name@));
        assert(strings_view(names@).take(j as int + 1) =~= strings_view(names@).take(j as int).push(name@));
        assert(strings_view(parts@) =~= ups + strings_view(names@).take(j as int + 1));
        j += 1;
    }
    assert(strings_view(names@).take(names@.len() as int) =~= strings_view(names@));
    if parts.len() == 0 {
        Some(String::from_str("."))
    } else {
        Some(join_strings(&parts, "/"))
    }
}

/// The texts of the components of a path written with `/`: the root as
/// an empty first part, `..` for a parent, a prefix as it reads, and `.`
/// left out.
pub open spec fn unix_parts(parts: Seq<PartView>) -> Seq<Seq<char>>
    decreases parts.len(),
{
    if parts.len() == 0 {
        Seq::empty()
    } else {
        let prev = unix_parts(parts.drop_last());
        match parts.last() {
            PartView::Root => prev.push(Seq::empty()),
            PartView::Normal(t) => prev.push(t),
            PartView::Current => prev,
            PartView::Parent => prev.push(".."@),
            PartView::Prefix(t) => prev.push(t),
        }
    }
}

/// A path written with `/` separators; the root alone is `/`.
pub open spec fn unix_text(parts: Seq<PartView>) -> Seq<char> {
    let u = unix_parts(parts);
    if u.len() == 1 && u[0].len() == 0 {
        "/"@
    } else {
        join_seqs(u, "/"@)
    }
}

/// A path written with `/` separators.
pub fn path_to_unix_string(path: &[PathPart]) -> (t: String)
    ensures
        t@ == unix_text(parts_view(path@)),
{
    let ghost pv = parts_view(path@);
    let mut parts: Vec<String> = Vec::new();
    let mut i: usize = 0;
    while i < path.len()
        invariant
            pv == parts_view(path@),
            i <= path@.len(),
            strings_view(parts@) == unix_parts(pv.take(i as int)),
        decreases path@.len() - i,
    {
        assert(pv.take(i as int + 1).drop_last() =~= pv.take(i as int));
        assert(pv.take(i as int + 1).last() == path@[i as int]@);
        let ghost before = strings_view(parts@);
        match &path[i] {
            PathPart::Root => {
                parts.push(String::new());
                assert(strings_view(parts@) =~= before.push(Seq::<char>::empty()));
            },
            PathPart::Normal(t) => {
                parts.push(t.clone());
                assert(strings_view(parts@) =~= before.push(t@));
            },
            PathPart::Current => {},
            PathPart::Parent => {
                parts.push(String::from_str(".."));
                assert(strings_view(parts@) =~= before.push(".."@));
            },
            PathPart::Prefix(t) => {
                parts.push(t.clone());
                assert(strings_view(parts@) =~= before.push(t@));
            },
        }
        i += 1;
    }
    assert(pv.take(path@.len() as int) =~= pv);
    if parts.len() == 1 && chars_of(parts[0].as_str()).len() == 0 {
        String::from_str("/")
    } else {
        join_strings(&parts, "/")
    }
}

/// The names of a path below the workspace root joined by `/`; `None` for
/// an empty path or one that climbs or is absolute.
pub open spec fn relative_display(parts: Seq<PartView>) -> Option<Seq<char>> {
    match normal_names(parts, 0) {
        None => None,
        Some(names) => if names.len() == 0 {
            None
        } else {
            Some(join_seqs(names, "/"@))
        },
    }
}

/// A discovered file's path below the workspace root (its components after
/// the root), written with `/`.
pub fn display_relative_path(relative: &[PathPart]) -> (r: Option<String>)
    ensures
        match r {
            Some(t) => relative_display(parts_view(relative@)) == Some(t@),
            None => relative_display(parts_view(relative@)) is None,
        },
{
    match normal_names_in(relative, 0) {
        None => None,
        Some(names) => if names.len() == 0 {
            None
        } else {
            Some(join_strings(&names, "/"))
        },
    }
}

/// The prefix of a directory scope, trying in turn the form below the home
/// directory (`~/…/`), the path relative to the working directory (nothing
/// for the working directory itself), and the absolute path, always ending
/// in `/`; a form is tried only when it is given.
pub open spec fn dir_prefix(home_relative: Option<Seq<PartView>>, cwd_relative: Option<Seq<char>>, dir: Seq<PartView>) -> Seq<char> {
    match home_relative {
        Some(rel) => {
            let r = unix_text(rel);
            if r.len() == 0 {
                "~/"@
            } else {
                "~/"@ + r + "/"@
            }
        },
        None => match cwd_relative {
            Some(rel) => if rel == "."@ {
                Seq::empty()
            } else {
                rel + "/"@
            },
            None => {
                let a = unix_text(dir);
                if a.len() > 0 && a.last() == '/' {
                    a
                } else {
                    a.push('/')
                }
            },
        },
    }
}

pub open spec fn opt_parts_view(o: Option<&[PathPart]>) -> Option<Seq<PartView>> {
    match o {
        Some(p) => Some(parts_view(p@)),
        None => None,
    }
}

pub open spec fn opt_str_view(o: Option<&str>) -> Option<Seq<char>> {
    match o {
        Some(p) => Some(p@),
        None => None,
    }
}

fn prefix_from_forms(home_relative: Option<&[PathPart]>, cwd_relative: Option<&str>, dir: &[PathPart]) -> (t: String)
    ensures
        t@ == dir_prefix(opt_parts_view(home_relative), opt_str_view(cwd_relative), parts_view(dir@)),
{
    match home_relative {
        Some(rel) => {
            let r = path_to_unix_string(rel);
            if chars_of(r.as_str()).len() == 0 {
                return String::from_str("~/");
            }
            let mut t = String::new();
            push_str(&mut t, "~/");
            push_str(&mut t, r.as_str());
            push_str(&mut t, "/");
            t
        },
        None => match cwd_relative {
            Some(rel) => {
                if str_eq(rel, ".") {
                    return String::new();
                }
                let mut t = String::new();
                push_str(&mut t, rel);
                push_str(&mut t, "/");
                t
            },
            None => {
                let a = path_to_unix_string(dir);
                let v = chars_of(a.as_str());
                if v.len() > 0 && v[v.len() - 1] == '/' {
                    a
                } else {
                    let mut t = a;
                    t.push('/');
                    t
                }
            },
        },
    }
}


/// How the user typed the directory of a scoped query.
#[derive(Clone, Copy, Debug, PartialEq, Eq, Structural)]
pub enum ScopeForm {
    /// `~` or `~/…`.
    Home,
    /// Relative to the working directory.
    Relative,
    /// An absolute path.
    Absolute,
}

/// Whether a typed directory starts at the home directory.
pub open spec fn is_home_query(d: Seq<char>) -> bool {
    d == "~"@ || (d.len() >= 2 && d[0] == '~' && d[1] == '/')
}

/// The form of a typed directory, given whether it reads as an absolute
/// path.
pub open spec fn scope_form(d: Seq<char>, absolute: bool) -> ScopeForm {
    if is_home_query(d) {
        ScopeForm::Home
    } else if absolute {
        ScopeForm::Absolute
    } else {
        ScopeForm::Relative
    }
}

/// The form of a typed directory, given whether it reads as an absolute
/// path on this platform.
pub fn typed_scope_form(directory: &str, absolute: bool) -> (f: ScopeForm)
    ensures
        f == scope_form(directory@, absolute),
{
    let v = chars_of(directory);
    let home = (v.len() == 1 && v[0] == '~') || (v.len() >= 2 && v[0] == '~' && v[1] == '/');
    proof {
        reveal_strlit("~");
        assert(v@.len() == 1 && v@[0] == '~' ==> v@ =~= "~"@);
    }
    if home {
        ScopeForm::Home
    } else if absolute {
        ScopeForm::Absolute
    } else {
        ScopeForm::Relative
    }
}

/// Whether `s` could read as an absolute path on some platform: it starts
/// with a separator or holds a drive prefix.
pub open spec fn may_be_absolute(s: Seq<char>) -> bool {
    (s.len() > 0 && (s[0] == '/' || s[0] == '\\')) || s.contains(':')
}

/// Whether `s` reads as an absolute path (`Path::is_absolute`). What makes a
/// path absolute depends on the platform; on every platform a path that
/// starts with no separator and holds no drive prefix is not absolute.
#[verifier::external_body]
fn path_is_absolute(s: &str) -> (b: bool)
    ensures
        !may_be_absolute(s@) ==> !b,
{
    std::path::Path::new(s).is_absolute()
}

/// The form of a typed directory on this platform: `~` forms are home
/// forms, paths this platform reads as absolute are absolute, the rest are
/// relative (a path without separator or drive prefix always is).
pub fn directory_scope_form(directory: &str) -> (f: ScopeForm)
    ensures
        exists|absolute: bool| (!may_be_absolute(directory@) ==> !absolute) && f == #[trigger] scope_form(
            directory@,
            absolute,
        ),
{
    let absolute = path_is_absolute(directory);
    typed_scope_form(directory, absolute)
}

/// Where a typed directory is found: the home directory, a path below it,
/// the text as typed, or a path below the working directory.
#[derive(Clone, Debug)]
pub enum UserPathPlan {
    Home,
    HomeJoin(String),
    AsTyped,
    CwdJoin,
}

/// How a typed directory is resolved: `~` is the home directory and `~/x`
/// is `x` below it when the home directory is known (else the text is taken
/// as typed), an absolute path is taken as typed, any other path is joined
/// to the working directory.
pub open spec fn user_path_plan_spec(path: Seq<char>, has_home: bool, absolute: bool) -> (UserPathPlanView) {
    if path == "~"@ {
        if has_home {
            UserPathPlanView::Home
        } else {
            UserPathPlanView::AsTyped
        }
    } else if path.len() >= 2 && path[0] == '~' && path[1] == '/' {
        if has_home {
            UserPathPlanView::HomeJoin(path.skip(2))
        } else {
            UserPathPlanView::AsTyped
        }
    } else if absolute {
        UserPathPlanView::AsTyped
    } else {
        UserPathPlanView::CwdJoin
    }
}

/// A resolution plan as a mathematical value.
pub enum UserPathPlanView {
    Home,
    HomeJoin(Seq<char>),
    AsTyped,
    CwdJoin,
}

impl View for UserPathPlan {
    type V = UserPathPlanView;

    open spec fn view(&self) -> UserPathPlanView {
        match self {
            UserPathPlan::Home => UserPathPlanView::Home,
            UserPathPlan::HomeJoin(r) => UserPathPlanView::HomeJoin(r@),
            UserPathPlan::AsTyped => UserPathPlanView::AsTyped,
            UserPathPlan::CwdJoin => UserPathPlanView::CwdJoin,
        }
    }
}

/// How to resolve the typed directory `path`, given whether the home
/// directory is known and whether `path` reads as absolute.
pub fn user_path_plan(path: &str, has_home: bool, absolute: bool) -> (p: UserPathPlan)
    ensures
        p@ == user_path_plan_spec(path@, has_home, absolute),
{
    let v = chars_of(path);
    proof {
        reveal_strlit("~");
        assert(v@.len() == 1 && v@[0] == '~' ==> v@ =~= "~"@);
    }
    if v.len() == 1 && v[0] == '~' {
        if has_home {
            UserPathPlan::Home
        } else {
            UserPathPlan::AsTyped
        }
    } else if v.len() >= 2 && v[0] == '~' && v[1] == '/' {
        if has_home {
            let rest = crate::text::string_of_range(&v, 2, v.len());
            assert(v@.subrange(2, v@.len() as int) =~= v@.skip(2));
            UserPathPlan::HomeJoin(rest)
        } else {
            UserPathPlan::AsTyped
        }
    } else if absolute {
        UserPathPlan::AsTyped
    } else {
        UserPathPlan::CwdJoin
    }
}

/// How to resolve the typed directory `path` on this platform (see
/// `user_path_plan_spec`), given whether the home directory is known.
pub fn resolve_user_path_plan(path: &str, has_home: bool) -> (p: UserPathPlan)
    ensures
        exists|absolute: bool| (!may_be_absolute(path@) ==> !absolute) && p@ == #[trigger] user_path_plan_spec(
            path@,
            has_home,
            absolute,
        ),
{
    let absolute = path_is_absolute(path);
    user_path_plan(path, has_home, absolute)
}

/// The prefix shown before the paths of a directory scope, in the form the
/// user typed: a `~` query shows `~/…/` (falling back to the other forms
/// when the directory is not below the home directory), a relative query
/// shows the path from the working directory (else the absolute path), an
/// absolute query shows the absolute path.
pub open spec fn scope_prefix(
    form: ScopeForm,
    home_relative: Option<Seq<PartView>>,
    cwd_relative: Option<Seq<char>>,
    dir: Seq<PartView>,
) -> Seq<char> {
    match form {
        ScopeForm::Home => dir_prefix(home_relative, cwd_relative, dir),
        ScopeForm::Relative => dir_prefix(None, cwd_relative, dir),
        ScopeForm::Absolute => dir_prefix(None, None, dir),
    }
}

/// The prefix shown before the paths of a directory scope (see
/// `scope_prefix`), given how the directory was typed, its components
/// below the home directory (when it lies there) and its path relative to
/// the working directory (when there is one).
pub fn display_dir_prefix(
    form: ScopeForm,
    home_relative: Option<&[PathPart]>,
    cwd_relative: Option<&str>,
    dir: &[PathPart],
) -> (t: String)
    ensures
        t@ == scope_prefix(form, opt_parts_view(home_relative), opt_str_view(cwd_relative), parts_view(dir@)),
{
    match form {
        ScopeForm::Home => prefix_from_forms(home_relative, cwd_relative, dir),
        ScopeForm::Relative => prefix_from_forms(None, cwd_relative, dir),
        ScopeForm::Absolute => prefix_from_forms(None, None, dir),
    }
}

/// How a directory-scoped query splits into the directory and the rest:
/// a query ending in `/` names the directory (trailing slashes dropped),
/// else it splits at its last `/`; an empty directory is the root `/`.
/// `None` when the query has no `/`.
pub open spec fn scope_query(query: Seq<char>) -> Option<(Seq<char>, Seq<char>)> {
    if query.len() == 0 || !query.contains('/') {
        None
    } else {
        let (dir, residual) = if query.last() == '/' {
            (trim_end_in(query, seq!['/']), Seq::<char>::empty())
        } else {
            let i = last_slash(query, query.len() as int);
            (query.take(i), query.skip(i + 1))
        };
        Some((if dir.len() == 0 {
            "/"@
        } else {
            dir
        }, residual))
    }
}

/// The position of the last `/` before `i`.
pub open spec fn last_slash(s: Seq<char>, i: int) -> int
    decreases i,
{
    if i <= 0 {
        -1
    } else if s[i - 1] == '/' {
        i - 1
    } else {
        last_slash(s, i - 1)
    }
}

proof fn lemma_last_slash(s: Seq<char>, i: int)
    requires
        0 <= i <= s.len(),
    ensures
        -1 <= last_slash(s, i) < i,
        last_slash(s, i) >= 0 ==> s[last_slash(s, i)] == '/',
        (exists|k: int| 0 <= k < i && s[k] == '/') ==> last_slash(s, i) >= 0,
    decreases i,
{
    if i > 0 && s[i - 1] != '/' {
        lemma_last_slash(s, i - 1);
        if exists|k: int| 0 <= k < i && s[k] == '/' {
            let k = choose|k: int| 0 <= k < i && s[k] == '/';
            assert(k < i - 1);
        }
    }
}

/// The directory and the rest of a directory-scoped query, if it has a `/`.
pub fn directory_scope_query(query: &str) -> (r: Option<(String, String)>)
    ensures
        match r {
            Some((d, rest)) => scope_query(query@) == Some((d@, rest@)),
            None => scope_query(query@) is None,
        },
{
    let q = chars_of(query);
    let n = q.len();
    let mut i = n;
    while i > 0 && q[i - 1] != '/'
        invariant
            q@ == query@,
            i <= n == q@.len(),
            last_slash(q@, n as int) == last_slash(q@, i as int),
            forall|k: int| i <= k < n ==> q@[k] != '/',
        decreases i,
    {
        i -= 1;
    }
    proof {
        lemma_last_slash(q@, n as int);
    }
    if n == 0 || i == 0 {
        proof {
            if n > 0 && q@.contains('/') {
                let k = choose|k: int| 0 <= k < q@.len() && q@[k] == '/';
                assert(k >= i);
            }
        }
        return None;
    }
    assert(q@.contains('/')) by {
        assert(q@[i - 1] == '/');
    }
    let (dir, residual) = if q[n - 1] == '/' {
        let slash = vec!['/'];
        assert(slash@ =~= seq!['/']);
        (trim_end_set(&q, &slash), Vec::new())
    } else {
        let d = crate::text::string_of_range(&q, 0, i - 1);
        let r = crate::text::string_of_range(&q, i, n);
        (chars_of(d.as_str()), chars_of(r.as_str()))
    };
    proof {
        if q@.last() != '/' {
            assert(dir@ =~= q@.take(i - 1));
            assert(residual@ =~= q@.skip(i as int));
        } else {
            assert(residual@ =~= Seq::<char>::empty());
        }
    }
    let dir_text = if dir.len() == 0 {
        String::from_str("/")
    } else {
        string_of(&dir)
    };
    Some((dir_text, string_of(&residual)))
}

/// The paths offered under a directory scope: the scope's paths that the
/// rest of the query matches (all of them when nothing follows the last
/// `/`), each shown with the scope's display prefix.
pub open spec fn scoped_paths(paths: Seq<Seq<char>>, residual: Seq<char>, prefix: Seq<char>) -> Seq<Seq<char>> {
    let m = if residual.len() == 0 {
        paths
    } else {
        ranked_paths(paths, residual)
    };
    Seq::new(m.len(), |i: int| prefix + m[i])
}

/// The paths offered under a directory scope (see `scoped_paths`).
pub fn scoped_file_matches(paths: &[String], residual: &str, display_prefix: &str) -> (r: Vec<String>)
    ensures
        strings_view(r@) == scoped_paths(strings_view(paths@), residual@, display_prefix@),
{
    let ghost pv = strings_view(paths@);
    let matches = if chars_of(residual).len() == 0 {
        let mut all: Vec<String> = Vec::new();
        let mut i: usize = 0;
        while i < paths.len()
            invariant
                i <= paths@.len(),
                pv == strings_view(paths@),
                strings_view(all@) == pv.take(i as int),
            decreases paths@.len() - i,
        {
            let ghost before = strings_view(all@);
            let copy = String::from_str(paths[i].as_str());
            assert(copy@ == pv[i as int]);
            all.push(copy);
            assert(strings_view(all@) =~= before.push(copy@));
            assert(pv.take(i as int + 1) =~= pv.take(i as int).push(pv[i as int]));
            i += 1;
        }
        assert(pv.take(paths@.len() as int) =~= pv);
        all
    } else {
        fuzzy_matching_paths(paths, residual)
    };
    let ghost mv = strings_view(matches@);
    let mut out: Vec<String> = Vec::new();
    let mut j: usize = 0;
    while j < matches.len()
        invariant
            j <= matches@.len(),
            mv == strings_view(matches@),
            strings_view(out@) == Seq::new(j as nat, |k: int| display_prefix@ + mv[k]),
        decreases matches@.len() - j,
    {
        let mut line = String::from_str(display_prefix);
        crate::text::push_str(&mut line, matches[j].as_str());
        let ghost before = strings_view(out@);
        assert(line@ == display_prefix@ + mv[j as int]);
        out.push(line);
        assert(strings_view(out@) =~= before.push(line@));
        assert(strings_view(out@) =~= Seq::new(j as nat + 1, |k: int| display_prefix@ + mv[k]));
        j += 1;
    }
    out
}

// ---------------------------------------------------------------------
// The order of workspace paths
// ---------------------------------------------------------------------

/// Whether text `a` comes before `b` in the order of `str`: compared
/// character by character (UTF-8 keeps the order of code points), a proper
/// prefix first.
pub open spec fn text_before(a: Seq<char>, b: Seq<char>) -> bool
    decreases a.len(),
{
    if a.len() == 0 {
        b.len() > 0
    } else if b.len() == 0 {
        false
    } else if a[0] != b[0] {
        (a[0] as int) < (b[0] as int)
    } else {
        text_before(a.drop_first(), b.drop_first())
    }
}

/// No text comes before itself.
pub proof fn lemma_text_before_irreflexive(a: Seq<char>)
    ensures
        !text_before(a, a),
    decreases a.len(),
{
    if a.len() > 0 {
        lemma_text_before_irreflexive(a.drop_first());
    }
}

/// The order of texts is transitive.
pub proof fn lemma_text_before_transitive(a: Seq<char>, b: Seq<char>, c: Seq<char>)
    requires
        text_before(a, b),
        text_before(b, c),
    ensures
        text_before(a, c),
    decreases a.len(),
{
    if a.len() > 0 && b.len() > 0 && c.len() > 0 && a[0] == b[0] && b[0] == c[0] {
        lemma_text_before_transitive(a.drop_first(), b.drop_first(), c.drop_first());
    }
}

/// Of two different texts, one comes before the other.
pub proof fn lemma_text_before_total(a: Seq<char>, b: Seq<char>)
    requires
        a != b,
    ensures
        text_before(a, b) || text_before(b, a),
    decreases a.len(),
{
    if a.len() > 0 && b.len() > 0 && a[0] == b[0] {
        if a.drop_first() == b.drop_first() {
            assert(a.drop_first().len() == b.drop_first().len());
            assert(a.len() == b.len());
            assert forall|i: int| 0 <= i < a.len() implies a[i] == b[i] by {
                if i > 0 {
                    assert(a[i] == a.drop_first()[i - 1]);
                    assert(b[i] == b.drop_first()[i - 1]);
                }
            }
            assert(a =~= b);
        } else {
            lemma_text_before_total(a.drop_first(), b.drop_first());
        }
    } else if a.len() == 0 && b.len() == 0 {
        assert(a =~= b);
    } else if a.len() > 0 && b.len() > 0 {
        assert((a[0] as int) != (b[0] as int));
    }
}

/// Whether path `a` is listed before `b`: by their ASCII-lowercased text,
/// then by the text itself.
pub open spec fn path_before(a: Seq<char>, b: Seq<char>) -> bool {
    text_before(ascii_lower_seq(a), ascii_lower_seq(b)) || (ascii_lower_seq(a) == ascii_lower_seq(b)
        && text_before(a, b))
}

/// The listing order of paths is transitive.
pub proof fn lemma_path_before_transitive(a: Seq<char>, b: Seq<char>, c: Seq<char>)
    requires
        path_before(a, b),
        path_before(b, c),
    ensures
        path_before(a, c),
{
    let (la, lb, lc) = (ascii_lower_seq(a), ascii_lower_seq(b), ascii_lower_seq(c));
    if text_before(la, lb) && text_before(lb, lc) {
        lemma_text_before_transitive(la, lb, lc);
    } else if la == lb && lb == lc {
        lemma_text_before_transitive(a, b, c);
    }
}

/// No path is listed before itself.
pub proof fn lemma_path_before_irreflexive(a: Seq<char>)
    ensures
        !path_before(a, a),
{
    lemma_text_before_irreflexive(a);
    lemma_text_before_irreflexive(ascii_lower_seq(a));
}

/// Of two different paths, one is listed before the other.
pub proof fn lemma_path_before_total(a: Seq<char>, b: Seq<char>)
    requires
        a != b,
    ensures
        path_before(a, b) || path_before(b, a),
{
    if ascii_lower_seq(a) != ascii_lower_seq(b) {
        lemma_text_before_total(ascii_lower_seq(a), ascii_lower_seq(b));
    } else {
        lemma_text_before_total(a, b);
    }
}

fn chars_before(a: &[char], b: &[char]) -> (r: bool)
    ensures
        r == text_before(a@, b@),
{
    let mut i: usize = 0;
    assert(a@.skip(0) =~= a@);
    assert(b@.skip(0) =~= b@);
    while i < a.len() && i < b.len() && a[i] == b[i]
        invariant
            i <= a@.len(),
            i <= b@.len(),
            text_before(a@, b@) == text_before(a@.skip(i as int), b@.skip(i as int)),
        decreases a@.len() - i,
    {
        assert(a@.skip(i as int).drop_first() =~= a@.skip(i as int + 1));
        assert(b@.skip(i as int).drop_first() =~= b@.skip(i as int + 1));
        i += 1;
    }
    if i == a.len() {
        assert(a@.skip(i as int).len() == 0);
        i < b.len()
    } else if i == b.len() {
        assert(b@.skip(i as int).len() == 0);
        false
    } else {
        assert(a@.skip(i as int)[0] == a@[i as int]);
        assert(b@.skip(i as int)[0] == b@[i as int]);
        a[i] < b[i]
    }
}

/// Whether path `a` is listed before `b` (see `path_before`).
pub fn path_is_before(a: &str, b: &str) -> (r: bool)
    ensures
        r == path_before(a@, b@),
{
    let la = crate::text::ascii_lowercase_chars(a);
    let lb = crate::text::ascii_lowercase_chars(b);
    if chars_before(&la, &lb) {
        true
    } else if crate::markdown::chars_equal(&la, &lb) {
        chars_before(&chars_of(a), &chars_of(b))
    } else {
        false
    }
}

/// Whether the paths are in the order of `path_before`.
pub open spec fn paths_sorted(s: Seq<Seq<char>>) -> bool {
    forall|i: int, j: int| 0 <= i < j < s.len() ==> !path_before(#[trigger] s[j], #[trigger] s[i])
}

/// The workspace paths in their listed order (see `path_before`): the same
/// paths, sorted.
pub fn sort_file_paths(paths: Vec<String>) -> (sorted: Vec<String>)
    ensures
        strings_view(sorted@).to_multiset() == strings_view(paths@).to_multiset(),
        paths_sorted(strings_view(sorted@)),
{
    let ghost pv = strings_view(paths@);
    let mut rest = paths;
    let mut sorted: Vec<String> = Vec::new();
    let n = rest.len();
    let mut i: usize = 0;
    proof {
        assert(strings_view(sorted@) =~= Seq::<Seq<char>>::empty());
        assert(pv.take(0) =~= Seq::<Seq<char>>::empty());
    }
    while i < n
        invariant
            n == pv.len(),
            i <= n,
            strings_view(rest@) == pv.skip(i as int),
            rest@.len() == n - i,
            strings_view(sorted@).to_multiset() == pv.take(i as int).to_multiset(),
            paths_sorted(strings_view(sorted@)),
        decreases n - i,
    {
        let ghost rv = rest@;
        let p = rest.remove(0);
        proof {
            assert(strings_view(rv)[0] == p@);
            assert(pv.skip(i as int)[0] == pv[i as int]);
            assert(strings_view(rest@) =~= strings_view(rv).drop_first());
            assert(pv.skip(i as int).drop_first() =~= pv.skip(i as int + 1));
        }
        let ghost sv = strings_view(sorted@);
        let mut pos: usize = 0;
        while pos < sorted.len() && !path_is_before(p.as_str(), sorted[pos].as_str())
            invariant
                pos <= sorted@.len(),
                sv == strings_view(sorted@),
                forall|k: int| 0 <= k < pos ==> !path_before(p@, #[trigger] sv[k]),
            decreases sorted@.len() - pos,
        {
            pos += 1;
        }
        proof {
            if pos < sv.len() {
                assert(path_before(p@, sv[pos as int]));
            }
            let nv = sv.insert(pos as int, p@);
            assert forall|a: int, b: int| 0 <= a < b < nv.len() implies !path_before(#[trigger] nv[b], #[trigger] nv[a]) by {
                if a < pos && b < pos + 1 {
                    if b == pos {
                        assert(nv[b] == p@);
                        assert(nv[a] == sv[a]);
                    } else {
                        assert(nv[a] == sv[a] && nv[b] == sv[b]);
                    }
                } else if a < pos {
                    assert(nv[a] == sv[a] && nv[b] == sv[b - 1]);
                } else if a == pos {
                    assert(nv[a] == p@ && nv[b] == sv[b - 1]);
                    if path_before(sv[b - 1], p@) {
                        if b - 1 > pos {
                            lemma_path_before_transitive(sv[b - 1], p@, sv[pos as int]);
                        } else {
                            lemma_path_before_transitive(sv[b - 1], p@, sv[b - 1]);
                            lemma_path_before_irreflexive(sv[b - 1]);
                        }
                    }
                } else {
                    assert(nv[a] == sv[a - 1] && nv[b] == sv[b - 1]);
                }
            }
        }
        sorted.insert(pos, p);
        proof {
            assert(strings_view(sorted@) =~= sv.insert(pos as int, p@));
            vstd::seq_lib::to_multiset_insert(sv, pos as int, p@);
            assert(pv.take(i as int + 1) =~= pv.take(i as int).push(pv[i as int]));
            vstd::seq_lib::to_multiset_build(pv.take(i as int), pv[i as int]);
        }
        i += 1;
    }
    assert(pv.take(n as int) =~= pv);
    sorted
}

/// Whether a path (relative to where files are looked for) is hidden: one
/// of its components begins with a dot.
pub open spec fn is_hidden_path(p: Seq<char>) -> bool {
    (p.len() > 0 && p[0] == '.') || has_substring(p, "/."@)
}

/// The paths offered for `query`: hidden ones only when the query holds a
/// dot.
pub open spec fn shown_paths(paths: Seq<Seq<char>>, query: Seq<char>) -> Seq<Seq<char>>
    decreases paths.len(),
{
    if paths.len() == 0 {
        paths
    } else if has_substring(query, "."@) || !is_hidden_path(paths.last()) {
        shown_paths(paths.drop_last(), query).push(paths.last())
    } else {
        shown_paths(paths.drop_last(), query)
    }
}

/// The paths offered for `query` (see `shown_paths`), in their order.
pub fn skip_hidden_paths(paths: &[String], query: &str) -> (r: Vec<String>)
    ensures
        strings_view(r@) == shown_paths(strings_view(paths@), query@),
{
    let dot = contains_str(query, ".");
    let mut r: Vec<String> = Vec::new();
    let mut i: usize = 0;
    while i < paths.len()
        invariant
            i <= paths@.len(),
            dot == has_substring(query@, "."@),
            strings_view(r@) == shown_paths(strings_view(paths@).take(i as int), query@),
        decreases paths@.len() - i,
    {
        let ghost all = strings_view(paths@);
        assert(all.take(i + 1).drop_last() =~= all.take(i as int));
        assert(all.take(i + 1).last() == paths@[i as int]@);
        let v = chars_of(paths[i].as_str());
        let hidden = (v.len() > 0 && v[0] == '.') || contains_str(paths[i].as_str(), "/.");
        if dot || !hidden {
            let ghost before = r@;
            r.push(String::from_str(paths[i].as_str()));
            assert(strings_view(r@) =~= strings_view(before).push(paths@[i as int]@));
        }
        i += 1;
    }
    assert(strings_view(paths@).take(i as int) =~= strings_view(paths@));
    r
}

} // verus!

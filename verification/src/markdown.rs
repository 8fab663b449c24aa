//! Inline Markdown while a reply streams in: which delimiters, links and
//! URLs are complete, how a line reads once its markers are removed, and
//! how much of the streamed text can be shown without later changing.
//! Positions count characters.
use vstd::prelude::*;
use std::ops::Range;
use crate::text::{chars_of, is_white_space, is_whitespace, occurs_at, push_str, string_of, string_of_range};
use crate::wrap::{lemma_split_on_nonempty, ranges_view, ranges_of_chars, split_on, ws_ranges};
use crate::width::{char_display_width, char_w, display_w, display_width, hard_wrap, hard_wrap_state, sum_w, unicode_str_width, unicode_width_of_str};
use crate::text::{leading_ws, lemma_leading_ws, skip_ws_start, text_fits, trim_start_seq, trim_seq, trimmed};

verus! {

/// What `char::is_alphanumeric` says of `c` (Unicode `Alphabetic` or
/// `Numeric`).
pub uninterp spec fn char_alphanumeric(c: char) -> bool;

/// `char::is_alphanumeric` of std: whether `c` is alphabetic or numeric in
/// Unicode's tables. Only named here.
#[verifier::external_body]
fn is_alphanumeric(c: char) -> (b: bool)
    ensures
        b == char_alphanumeric(c),
{
    c.is_alphanumeric()
}

/// Letters, digits and the underscore.
pub open spec fn word_char(c: char) -> bool {
    char_alphanumeric(c) || c == '_'
}

/// Whether `ch` can be part of a word.
pub fn is_word_char(ch: char) -> (b: bool)
    ensures
        b == word_char(ch),
{
    is_alphanumeric(ch) || ch == '_'
}

/// Whether `index` lies in one of `ranges` (half-open).
pub open spec fn inside(index: int, ranges: Seq<(int, int)>) -> bool {
    exists|j: int| 0 <= j < ranges.len() && (#[trigger] ranges[j]).0 <= index < ranges[j].1
}

/// Whether `index` lies in one of `ranges`.
pub fn is_inside_ranges(index: usize, ranges: &[Range<usize>]) -> (b: bool)
    ensures
        b == inside(index as int, ranges_view(ranges@)),
{
    let mut j: usize = 0;
    while j < ranges.len()
        invariant
            j <= ranges@.len(),
            forall|k: int| 0 <= k < j ==> !((#[trigger] ranges@[k]).start <= index < ranges@[k].end),
        decreases ranges@.len() - j,
    {
        if ranges[j].start <= index && index < ranges[j].end {
            assert(ranges_view(ranges@)[j as int].0 <= index < ranges_view(ranges@)[j as int].1);
            return true;
        }
        j += 1;
    }
    assert forall|k: int| 0 <= k < ranges_view(ranges@).len() implies !((#[trigger] ranges_view(ranges@)[k]).0
        <= index < ranges_view(ranges@)[k].1) by {
        assert(ranges_view(ranges@)[k] == (ranges@[k].start as int, ranges@[k].end as int));
    }
    false
}

/// First position from `from` on that holds `c` outside `ranges`.
pub open spec fn char_outside_from(s: Seq<char>, c: char, from: int, ranges: Seq<(int, int)>) -> Option<int>
    decreases s.len() - from,
{
    if from < 0 || from >= s.len() {
        None
    } else if s[from] == c && !inside(from, ranges) {
        Some(from)
    } else {
        char_outside_from(s, c, from + 1, ranges)
    }
}

pub proof fn lemma_char_outside_from(s: Seq<char>, c: char, from: int, ranges: Seq<(int, int)>)
    requires
        0 <= from,
    ensures
        char_outside_from(s, c, from, ranges) matches Some(i) ==> from <= i < s.len() && s[i] == c,
    decreases s.len() - from,
{
    if from < s.len() && !(s[from] == c && !inside(from, ranges)) {
        lemma_char_outside_from(s, c, from + 1, ranges);
    }
}

fn char_outside_in(v: &[char], c: char, from: usize, ranges: &[Range<usize>]) -> (r: Option<usize>)
    ensures
        match r {
            Some(i) => char_outside_from(v@, c, from as int, ranges_view(ranges@)) == Some(i as int),
            None => char_outside_from(v@, c, from as int, ranges_view(ranges@)) is None,
        },
{
    let mut i = from;
    while i < v.len()
        invariant
            from <= i,
            char_outside_from(v@, c, from as int, ranges_view(ranges@)) == char_outside_from(
                v@,
                c,
                i as int,
                ranges_view(ranges@),
            ),
        decreases v@.len() - i,
    {
        if v[i] == c && !is_inside_ranges(i, ranges) {
            return Some(i);
        }
        i += 1;
    }
    None
}

/// The first position from `search_from` on that holds `needle` outside
/// `ignored_ranges`.
pub fn find_char_outside_ranges(line: &str, needle: char, search_from: usize, ignored_ranges: &[Range<usize>]) -> (r: Option<usize>)
    requires
        search_from <= line@.len(),
    ensures
        match r {
            Some(i) => char_outside_from(line@, needle, search_from as int, ranges_view(ignored_ranges@))
                == Some(i as int),
            None => char_outside_from(line@, needle, search_from as int, ranges_view(ignored_ranges@))
                is None,
        },
{
    let v = chars_of(line);
    char_outside_in(&v, needle, search_from, ignored_ranges)
}

/// First occurrence of `m` in `s` at or after `from` (`str::find` on the
/// rest of the text).
pub open spec fn occurrence_from(s: Seq<char>, m: Seq<char>, from: int) -> Option<int>
    decreases s.len() + 1 - from,
{
    if from < 0 || from + m.len() > s.len() {
        None
    } else if occurs_at(s, m, from) {
        Some(from)
    } else {
        occurrence_from(s, m, from + 1)
    }
}

pub proof fn lemma_occurrence_from(s: Seq<char>, m: Seq<char>, from: int)
    requires
        0 <= from,
    ensures
        occurrence_from(s, m, from) matches Some(i) ==> from <= i && i + m.len() <= s.len()
            && occurs_at(s, m, i),
    decreases s.len() + 1 - from,
{
    if from + m.len() <= s.len() && !occurs_at(s, m, from) {
        lemma_occurrence_from(s, m, from + 1);
    }
}

fn matches_at(v: &[char], m: &[char], i: usize) -> (b: bool)
    requires
        i + m@.len() <= v@.len(),
    ensures
        b == occurs_at(v@, m@, i as int),
{
    let n = v.len();
    let mut k: usize = 0;
    while k < m.len()
        invariant
            n == v@.len(),
            i + m@.len() <= v@.len(),
            k <= m@.len(),
            forall|j: int| 0 <= j < k ==> v@[i + j] == m@[j],
        decreases m@.len() - k,
    {
        if v[i + k] != m[k] {
            assert(v@.subrange(i as int, i + m@.len())[k as int] != m@[k as int]);
            return false;
        }
        k += 1;
    }
    assert(v@.subrange(i as int, i + m@.len()) =~= m@);
    true
}

/// The first occurrence of `m` in `v` at or after `from`.
pub fn occurrence_in(v: &[char], m: &[char], from: usize) -> (r: Option<usize>)
    ensures
        match r {
            Some(i) => occurrence_from(v@, m@, from as int) == Some(i as int),
            None => occurrence_from(v@, m@, from as int) is None,
        },
{
    if m.len() > v.len() {
        return None;
    }
    let last = v.len() - m.len();
    let mut i = from;
    while i <= last
        invariant
            last + m@.len() == v@.len(),
            from <= i,
            occurrence_from(v@, m@, from as int) == occurrence_from(v@, m@, i as int),
        decreases last + 1 - i,
    {
        if matches_at(v, m, i) {
            return Some(i);
        }
        if i == last {
            return None;
        }
        i += 1;
    }
    None
}

/// The first occurrence of `m` from `from` on that starts outside `ranges`;
/// an occurrence inside them is stepped over whole.
pub open spec fn marker_outside_from(s: Seq<char>, m: Seq<char>, from: int, ranges: Seq<(int, int)>) -> Option<int>
    decreases s.len() + 1 - from,
{
    if m.len() == 0 || from < 0 {
        None
    } else {
        match occurrence_from(s, m, from) {
            None => None,
            Some(i) => if i < from {
                None
            } else if !inside(i, ranges) {
                Some(i)
            } else {
                proof {
                    lemma_occurrence_from(s, m, from);
                }
                marker_outside_from(s, m, i + m.len(), ranges)
            },
        }
    }
}

pub proof fn lemma_marker_outside_from(s: Seq<char>, m: Seq<char>, from: int, ranges: Seq<(int, int)>)
    requires
        0 <= from,
    ensures
        marker_outside_from(s, m, from, ranges) matches Some(i) ==> from <= i && i + m.len() <= s.len()
            && occurs_at(s, m, i) && m.len() > 0,
    decreases s.len() + 1 - from,
{
    if m.len() > 0 {
        lemma_occurrence_from(s, m, from);
        match occurrence_from(s, m, from) {
            None => {},
            Some(i) => if i >= from && inside(i, ranges) {
                lemma_marker_outside_from(s, m, i + m.len(), ranges);
            },
        }
    }
}

fn marker_outside_in(v: &[char], m: &[char], from: usize, ranges: &[Range<usize>]) -> (r: Option<usize>)
    ensures
        match r {
            Some(i) => marker_outside_from(v@, m@, from as int, ranges_view(ranges@)) == Some(i as int),
            None => marker_outside_from(v@, m@, from as int, ranges_view(ranges@)) is None,
        },
{
    if m.len() == 0 {
        return None;
    }
    let n = v.len();
    let mut current = from;
    loop
        invariant
            n == v@.len(),
            m@.len() > 0,
            from <= current,
            marker_outside_from(v@, m@, from as int, ranges_view(ranges@)) == marker_outside_from(
                v@,
                m@,
                current as int,
                ranges_view(ranges@),
            ),
        decreases v@.len() + 1 - current,
    {
        let found = occurrence_in(v, m, current);
        proof {
            lemma_occurrence_from(v@, m@, current as int);
        }
        match found {
            None => return None,
            Some(index) => {
                if !is_inside_ranges(index, ranges) {
                    return Some(index);
                }
                current = index + m.len();
            },
        }
    }
}

/// The first occurrence of `marker` from `search_from` on that starts
/// outside `ignored_ranges`.
pub fn find_marker_outside_ranges(line: &str, marker: &str, search_from: usize, ignored_ranges: &[Range<usize>]) -> (r: Option<usize>)
    requires
        search_from <= line@.len(),
    ensures
        match r {
            Some(i) => marker_outside_from(line@, marker@, search_from as int, ranges_view(ignored_ranges@))
                == Some(i as int),
            None => marker_outside_from(line@, marker@, search_from as int, ranges_view(ignored_ranges@))
                is None,
        },
{
    let v = chars_of(line);
    let m = chars_of(marker);
    marker_outside_in(&v, &m, search_from, ignored_ranges)
}

// ---------------------------------------------------------------------
// Complete delimiters, links and URLs
// ---------------------------------------------------------------------

/// The character before position `i`, if any.
pub open spec fn char_before(s: Seq<char>, i: int) -> Option<char> {
    if 0 < i <= s.len() {
        Some(s[i - 1])
    } else {
        None
    }
}

/// The character at position `i`, if any.
pub open spec fn char_at(s: Seq<char>, i: int) -> Option<char> {
    if 0 <= i < s.len() {
        Some(s[i])
    } else {
        None
    }
}

/// Whether a marker is a single `c`.
pub open spec fn is_single(m: Seq<char>, c: char) -> bool {
    m.len() == 1 && m[0] == c
}

/// Whether a delimiter at `start` can open or close while streaming: it is
/// not followed by white space, nor preceded by white space at the very
/// end, and an underscore does not sit inside a word.
pub open spec fn valid_stream_delimiter(s: Seq<char>, m: Seq<char>, start: int) -> bool {
    let before = char_before(s, start);
    let after = char_at(s, start + m.len());
    if (after matches Some(a) && is_white_space(a)) || (before matches Some(b) && is_white_space(b)
        && after is None) {
        false
    } else {
        !is_single(m, '_') || !(before matches Some(b) && after matches Some(a) && word_char(b)
            && word_char(a))
    }
}

fn char_before_in(v: &[char], i: usize) -> (r: Option<char>)
    ensures
        r == char_before(v@, i as int),
{
    if 0 < i && i <= v.len() {
        Some(v[i - 1])
    } else {
        None
    }
}

fn char_at_in(v: &[char], i: usize) -> (r: Option<char>)
    ensures
        r == char_at(v@, i as int),
{
    if i < v.len() {
        Some(v[i])
    } else {
        None
    }
}

fn is_single_in(m: &[char], c: char) -> (b: bool)
    ensures
        b == is_single(m@, c),
{
    m.len() == 1 && m[0] == c
}

fn valid_delimiter_in(v: &[char], m: &[char], start: usize) -> (b: bool)
    requires
        start + m@.len() <= v@.len(),
    ensures
        b == valid_stream_delimiter(v@, m@, start as int),
{
    let _n = v.len();
    let before = char_before_in(v, start);
    let after = char_at_in(v, start + m.len());
    let after_ws = match after {
        Some(a) => is_whitespace(a),
        None => false,
    };
    let before_ws = match before {
        Some(b) => is_whitespace(b),
        None => false,
    };
    if after_ws || (before_ws && after.is_none()) {
        return false;
    }
    let inside_word = match (before, after) {
        (Some(b), Some(a)) => is_word_char(b) && is_word_char(a),
        _ => false,
    };
    !is_single_in(m, '_') || !inside_word
}

/// Whether the delimiter `marker` at `marker_start` can open or close while
/// streaming.
pub fn is_valid_stream_delimiter(line: &str, marker: &str, marker_start: usize) -> (b: bool)
    requires
        marker_start + marker@.len() <= line@.len(),
    ensures
        b == valid_stream_delimiter(line@, marker@, marker_start as int),
{
    let v = chars_of(line);
    let m = chars_of(marker);
    valid_delimiter_in(&v, &m, marker_start)
}

/// Whether an underscore at `start` may delimit emphasis: not when word
/// characters stand on both sides.
pub open spec fn valid_underscore(s: Seq<char>, start: int) -> bool {
    !(char_before(s, start) matches Some(b) && char_at(s, start + 1) matches Some(a) && word_char(b)
        && word_char(a))
}

fn valid_underscore_in(v: &[char], start: usize) -> (b: bool)
    requires
        start < v@.len(),
    ensures
        b == valid_underscore(v@, start as int),
{
    let _n = v.len();
    match (char_before_in(v, start), char_at_in(v, start + 1)) {
        (Some(b), Some(a)) => !(is_word_char(b) && is_word_char(a)),
        _ => true,
    }
}

/// Whether an underscore at `marker_start` may delimit emphasis.
pub fn is_valid_underscore_delimiter(line: &str, marker_start: usize) -> (b: bool)
    requires
        marker_start < line@.len(),
    ensures
        b == valid_underscore(line@, marker_start as int),
{
    let v = chars_of(line);
    valid_underscore_in(&v, marker_start)
}

/// Two asterisks.
pub open spec fn double_star() -> Seq<char> {
    seq!['*', '*']
}

/// Where the delimiter opened before `content_start` closes, searching
/// from `from`: the next valid occurrence outside `ranges` (for a single
/// asterisk, not part of a double one), if it closes something non-empty.
pub open spec fn delim_end(s: Seq<char>, m: Seq<char>, ranges: Seq<(int, int)>, from: int, content_start: int) -> Option<int>
    decreases s.len() + 1 - from,
{
    if from < 0 {
        None
    } else {
        match marker_outside_from(s, m, from, ranges) {
            None => None,
            Some(e) => {
                proof {
                    lemma_marker_outside_from(s, m, from, ranges);
                }
                if is_single(m, '*') && occurs_at(s, double_star(), e) {
                    delim_end(s, m, ranges, e + m.len(), content_start)
                } else if !valid_stream_delimiter(s, m, e) {
                    delim_end(s, m, ranges, e + m.len(), content_start)
                } else if e > content_start {
                    Some(e)
                } else {
                    None
                }
            },
        }
    }
}

pub proof fn lemma_delim_end(s: Seq<char>, m: Seq<char>, ranges: Seq<(int, int)>, from: int, content_start: int)
    requires
        0 <= from,
    ensures
        delim_end(s, m, ranges, from, content_start) matches Some(e) ==> from <= e && content_start < e
            && e + m.len() <= s.len() && m.len() > 0 && occurs_at(s, m, e),
    decreases s.len() + 1 - from,
{
    lemma_marker_outside_from(s, m, from, ranges);
    match marker_outside_from(s, m, from, ranges) {
        None => {},
        Some(e) => {
            if (is_single(m, '*') && occurs_at(s, double_star(), e)) || !valid_stream_delimiter(s, m, e) {
                lemma_delim_end(s, m, ranges, e + m.len(), content_start);
            }
        },
    }
}

/// The complete `m`-delimited spans from `from` on, outside `ranges`;
/// `None` when one is opened but never closed.
pub open spec fn delim_ranges_from(s: Seq<char>, m: Seq<char>, ranges: Seq<(int, int)>, from: int) -> Option<Seq<(int, int)>>
    decreases s.len() + 1 - from,
{
    if from < 0 {
        None
    } else {
        match marker_outside_from(s, m, from, ranges) {
            None => Some(Seq::empty()),
            Some(st) => {
                proof {
                    lemma_marker_outside_from(s, m, from, ranges);
                    lemma_delim_end(s, m, ranges, st + m.len(), st + m.len());
                }
                if is_single(m, '*') && occurs_at(s, double_star(), st) {
                    delim_ranges_from(s, m, ranges, st + m.len())
                } else if !valid_stream_delimiter(s, m, st) {
                    delim_ranges_from(s, m, ranges, st + m.len())
                } else {
                    match delim_end(s, m, ranges, st + m.len(), st + m.len()) {
                        None => None,
                        Some(e) => match delim_ranges_from(s, m, ranges, e + m.len()) {
                            None => None,
                            Some(rest) => Some(seq![(st, e + m.len())] + rest),
                        },
                    }
                }
            },
        }
    }
}

/// The complete spans are what they claim: each starts and ends with the
/// marker, holds something between them, and they follow each other in
/// order without overlapping, all from `from` on.
pub proof fn lemma_delim_ranges_shape(s: Seq<char>, m: Seq<char>, ranges: Seq<(int, int)>, from: int)
    requires
        0 <= from,
    ensures
        delim_ranges_from(s, m, ranges, from) matches Some(rs) ==> {
            &&& forall|i: int|
                0 <= i < rs.len() ==> from <= (#[trigger] rs[i]).0 && rs[i].0 + 2 * m.len() < rs[i].1 && rs[i].1
                    <= s.len() && occurs_at(s, m, rs[i].0) && occurs_at(s, m, rs[i].1 - m.len())
            &&& forall|i: int| 0 <= i < rs.len() - 1 ==> (#[trigger] rs[i]).1 <= rs[i + 1].0
        },
    decreases s.len() + 1 - from,
{
    lemma_marker_outside_from(s, m, from, ranges);
    match marker_outside_from(s, m, from, ranges) {
        None => {},
        Some(st) => {
            if (is_single(m, '*') && occurs_at(s, double_star(), st)) || !valid_stream_delimiter(s, m, st) {
                lemma_delim_ranges_shape(s, m, ranges, st + m.len());
            } else {
                lemma_delim_end(s, m, ranges, st + m.len(), st + m.len());
                match delim_end(s, m, ranges, st + m.len(), st + m.len()) {
                    None => {},
                    Some(e) => {
                        lemma_delim_ranges_shape(s, m, ranges, e + m.len());
                        match delim_ranges_from(s, m, ranges, e + m.len()) {
                            None => {},
                            Some(rest) => {
                                let rs = seq![(st, e + m.len())] + rest;
                                assert(delim_ranges_from(s, m, ranges, from) == Some(rs));
                                assert(e + m.len() - m.len() == e);
                                assert forall|i: int| 0 <= i < rs.len() implies from <= (#[trigger] rs[i]).0 && rs[i].0
                                    + 2 * m.len() < rs[i].1 && rs[i].1 <= s.len() && occurs_at(s, m, rs[i].0)
                                    && occurs_at(s, m, rs[i].1 - m.len()) by {
                                    if i > 0 {
                                        assert(rs[i] == rest[i - 1]);
                                    }
                                }
                                assert forall|i: int| 0 <= i < rs.len() - 1 implies (#[trigger] rs[i]).1 <= rs[i
                                    + 1].0 by {
                                    if i > 0 {
                                        assert(rs[i] == rest[i - 1]);
                                        assert(rs[i + 1] == rest[i]);
                                    } else {
                                        assert(rs[1] == rest[0]);
                                    }
                                }
                            },
                        }
                    },
                }
            }
        },
    }
}

/// `acc` followed by the ranges of `r`, when there are any.
pub open spec fn prepend_ranges(acc: Seq<(int, int)>, r: Option<Seq<(int, int)>>) -> Option<Seq<(int, int)>> {
    match r {
        None => None,
        Some(x) => Some(acc + x),
    }
}

pub open spec fn opt_ranges_view(r: Option<Vec<Range<usize>>>) -> Option<Seq<(int, int)>> {
    match r {
        None => None,
        Some(v) => Some(ranges_view(v@)),
    }
}

fn delim_end_in(v: &[char], m: &[char], ranges: &[Range<usize>], from: usize, content_start: usize) -> (r: Option<usize>)
    requires
        m@.len() > 0,
    ensures
        match r {
            Some(e) => delim_end(v@, m@, ranges_view(ranges@), from as int, content_start as int) == Some(e as int),
            None => delim_end(v@, m@, ranges_view(ranges@), from as int, content_start as int) is None,
        },
{
    let n = v.len();
    let star2 = vec!['*', '*'];
    assert(star2@ =~= double_star());
    let mut end_from = from;
    loop
        invariant
            n == v@.len(),
            m@.len() > 0,
            star2@ == double_star(),
            delim_end(v@, m@, ranges_view(ranges@), from as int, content_start as int) == delim_end(
                v@,
                m@,
                ranges_view(ranges@),
                end_from as int,
                content_start as int,
            ),
        decreases v@.len() + 1 - end_from,
    {
        let found = marker_outside_in(v, m, end_from, ranges);
        proof {
            lemma_marker_outside_from(v@, m@, end_from as int, ranges_view(ranges@));
        }
        match found {
            None => return None,
            Some(e) => {
                let is_double = is_single_in(m, '*') && e + 1 < n && matches_at(v, &star2, e);
                if is_double || !valid_delimiter_in(v, m, e) {
                    end_from = e + m.len();
                } else if e > content_start {
                    return Some(e);
                } else {
                    return None;
                }
            },
        }
    }
}

fn delim_ranges_in(v: &[char], m: &[char], ranges: &[Range<usize>]) -> (r: Option<Vec<Range<usize>>>)
    requires
        m@.len() > 0,
    ensures
        opt_ranges_view(r) == delim_ranges_from(v@, m@, ranges_view(ranges@), 0),
{
    let n = v.len();
    let star2 = vec!['*', '*'];
    assert(star2@ =~= double_star());
    let mut out: Vec<Range<usize>> = Vec::new();
    let mut search_from: usize = 0;
    loop
        invariant
            n == v@.len(),
            m@.len() > 0,
            star2@ == double_star(),
            delim_ranges_from(v@, m@, ranges_view(ranges@), 0) == prepend_ranges(
                ranges_view(out@),
                delim_ranges_from(v@, m@, ranges_view(ranges@), search_from as int),
            ),
        decreases v@.len() + 1 - search_from,
    {
        let found = marker_outside_in(v, m, search_from, ranges);
        proof {
            lemma_marker_outside_from(v@, m@, search_from as int, ranges_view(ranges@));
        }
        match found {
            None => {
                assert(ranges_view(out@) + Seq::<(int, int)>::empty() =~= ranges_view(out@));
                return Some(out);
            },
            Some(start) => {
                let is_double = is_single_in(m, '*') && start + 1 < n && matches_at(v, &star2, start);
                if is_double || !valid_delimiter_in(v, m, start) {
                    search_from = start + m.len();
                } else {
                    let content_start = start + m.len();
                    proof {
                        lemma_delim_end(v@, m@, ranges_view(ranges@), content_start as int, content_start as int);
                    }
                    match delim_end_in(v, m, ranges, content_start, content_start) {
                        None => return None,
                        Some(end) => {
                            let ghost before = ranges_view(out@);
                            out.push(start..end + m.len());
                            proof {
                                assert(ranges_view(out@) =~= before.push((start as int, end + m@.len())));
                                let rest = delim_ranges_from(v@, m@, ranges_view(ranges@), end + m@.len());
                                match rest {
                                    None => {},
                                    Some(x) => {
                                        assert(before + (seq![(start as int, end + m@.len())] + x) =~= ranges_view(out@) + x);
                                    },
                                }
                            }
                            search_from = end + m.len();
                        },
                    }
                }
            },
        }
    }
}

/// The complete spans delimited by `marker` outside `ignored_ranges`, or
/// `None` when one is left open.
pub fn complete_delimiter_ranges(line: &str, marker: &str, ignored_ranges: &[Range<usize>]) -> (r: Option<Vec<Range<usize>>>)
    requires
        marker@.len() > 0,
    ensures
        opt_ranges_view(r) == delim_ranges_from(line@, marker@, ranges_view(ignored_ranges@), 0),
{
    let v = chars_of(line);
    let m = chars_of(marker);
    delim_ranges_in(&v, &m, ignored_ranges)
}

/// The complete links `[label](target)` from `from` on whose brackets lie
/// outside `ranges`; `None` when one is left unfinished or empty.
pub open spec fn link_ranges_from(s: Seq<char>, ranges: Seq<(int, int)>, from: int) -> Option<Seq<(int, int)>>
    decreases s.len() + 1 - from,
{
    if from < 0 {
        None
    } else {
        match char_outside_from(s, '[', from, ranges) {
            None => Some(Seq::empty()),
            Some(st) => {
                proof {
                    lemma_char_outside_from(s, '[', from, ranges);
                    lemma_char_outside_from(s, ']', st + 1, ranges);
                    lemma_occurrence_from(s, seq![')'], st + 1);
                }
                match char_outside_from(s, ']', st + 1, ranges) {
                    None => None,
                    Some(close) => if !(close + 1 < s.len() && s[close + 1] == '(') {
                        link_ranges_from(s, ranges, close + 1)
                    } else if close + 2 >= s.len() {
                        None
                    } else {
                        proof {
                            lemma_occurrence_from(s, seq![')'], close + 2);
                        }
                        match occurrence_from(s, seq![')'], close + 2) {
                            None => None,
                            Some(te) => if close == st + 1 || te == close + 2 {
                                None
                            } else {
                                match link_ranges_from(s, ranges, te + 1) {
                                    None => None,
                                    Some(rest) => Some(seq![(st, te + 1)] + rest),
                                }
                            },
                        }
                    },
                }
            },
        }
    }
}

fn link_ranges_in(v: &[char], ranges: &[Range<usize>]) -> (r: Option<Vec<Range<usize>>>)
    ensures
        opt_ranges_view(r) == link_ranges_from(v@, ranges_view(ranges@), 0),
{
    let n = v.len();
    let close_paren = vec![')'];
    assert(close_paren@ =~= seq![')']);
    let mut out: Vec<Range<usize>> = Vec::new();
    let mut search_from: usize = 0;
    loop
        invariant
            n == v@.len(),
            close_paren@ == seq![')'],
            link_ranges_from(v@, ranges_view(ranges@), 0) == prepend_ranges(
                ranges_view(out@),
                link_ranges_from(v@, ranges_view(ranges@), search_from as int),
            ),
        decreases v@.len() + 1 - search_from,
    {
        let found = char_outside_in(v, '[', search_from, ranges);
        proof {
            lemma_char_outside_from(v@, '[', search_from as int, ranges_view(ranges@));
        }
        let start = match found {
            None => {
                assert(ranges_view(out@) + Seq::<(int, int)>::empty() =~= ranges_view(out@));
                return Some(out);
            },
            Some(start) => start,
        };
        let close = match char_outside_in(v, ']', start + 1, ranges) {
            None => return None,
            Some(close) => close,
        };
        proof {
            lemma_char_outside_from(v@, ']', start + 1, ranges_view(ranges@));
        }
        if !(close + 1 < n && v[close + 1] == '(') {
            search_from = close + 1;
        } else if close + 2 >= n {
            return None;
        } else {
            let target_end = match occurrence_in(v, &close_paren, close + 2) {
                None => return None,
                Some(te) => te,
            };
            proof {
                lemma_occurrence_from(v@, seq![')'], close + 2);
            }
            if close == start + 1 || target_end == close + 2 {
                return None;
            }
            let ghost before = ranges_view(out@);
            out.push(start..target_end + 1);
            proof {
                assert(ranges_view(out@) =~= before.push((start as int, target_end + 1)));
                match link_ranges_from(v@, ranges_view(ranges@), target_end + 1) {
                    None => {},
                    Some(x) => {
                        assert(before + (seq![(start as int, target_end + 1)] + x) =~= ranges_view(out@) + x);
                    },
                }
            }
            search_from = target_end + 1;
        }
    }
}

/// The complete links outside `ignored_ranges`, or `None` when one is left
/// unfinished or empty.
pub fn complete_link_ranges(line: &str, ignored_ranges: &[Range<usize>]) -> (r: Option<Vec<Range<usize>>>)
    ensures
        opt_ranges_view(r) == link_ranges_from(line@, ranges_view(ignored_ranges@), 0),
{
    let v = chars_of(line);
    link_ranges_in(&v, ignored_ranges)
}

/// `https://`.
pub open spec fn https_scheme() -> Seq<char> {
    seq!['h', 't', 't', 'p', 's', ':', '/', '/']
}

/// `http://`.
pub open spec fn http_scheme() -> Seq<char> {
    seq!['h', 't', 't', 'p', ':', '/', '/']
}

/// The earliest start of a URL scheme from `from` on.
pub open spec fn url_start_from(s: Seq<char>, from: int) -> Option<int> {
    match (occurrence_from(s, https_scheme(), from), occurrence_from(s, http_scheme(), from)) {
        (Some(a), Some(b)) => Some(
            if a < b {
                a
            } else {
                b
            },
        ),
        (Some(a), None) => Some(a),
        (None, Some(b)) => Some(b),
        (None, None) => None,
    }
}

fn scheme_chars() -> (r: (Vec<char>, Vec<char>))
    ensures
        r.0@ == https_scheme(),
        r.1@ == http_scheme(),
{
    let a = vec!['h', 't', 't', 'p', 's', ':', '/', '/'];
    let b = vec!['h', 't', 't', 'p', ':', '/', '/'];
    assert(a@ =~= https_scheme());
    assert(b@ =~= http_scheme());
    (a, b)
}

fn url_start_in(v: &[char], from: usize) -> (r: Option<usize>)
    ensures
        match r {
            Some(i) => url_start_from(v@, from as int) == Some(i as int),
            None => url_start_from(v@, from as int) is None,
        },
{
    let (https, http) = scheme_chars();
    match (occurrence_in(v, &https, from), occurrence_in(v, &http, from)) {
        (Some(a), Some(b)) => Some(
            if a < b {
                a
            } else {
                b
            },
        ),
        (Some(a), None) => Some(a),
        (None, Some(b)) => Some(b),
        (None, None) => None,
    }
}

/// The earliest start of `https://` or `http://` from `search_from` on.
pub fn next_raw_url_start(line: &str, search_from: usize) -> (r: Option<usize>)
    requires
        search_from <= line@.len(),
    ensures
        match r {
            Some(i) => url_start_from(line@, search_from as int) == Some(i as int),
            None => url_start_from(line@, search_from as int) is None,
        },
{
    let v = chars_of(line);
    url_start_in(&v, search_from)
}

pub proof fn lemma_url_start_from(s: Seq<char>, from: int)
    requires
        0 <= from,
    ensures
        url_start_from(s, from) matches Some(i) ==> from <= i && i + 7 <= s.len(),
{
    lemma_occurrence_from(s, https_scheme(), from);
    lemma_occurrence_from(s, http_scheme(), from);
}

/// Whether some character from `from` on is white space.
pub open spec fn ws_from(s: Seq<char>, from: int) -> bool {
    exists|k: int| from <= k < s.len() && is_white_space(#[trigger] s[k])
}

/// Whether a URL starts outside `ranges` and runs to the end of the text
/// (no white space after it yet), from `from` on.
pub open spec fn unclosed_url_from(s: Seq<char>, ranges: Seq<(int, int)>, from: int) -> bool
    decreases s.len() + 1 - from,
{
    if from < 0 {
        false
    } else {
        match url_start_from(s, from) {
            None => false,
            Some(st) => {
                proof {
                    lemma_url_start_from(s, from);
                }
                if !inside(st, ranges) && !ws_from(s, st) {
                    true
                } else {
                    unclosed_url_from(s, ranges, st + 7)
                }
            },
        }
    }
}

fn ws_from_in(v: &[char], from: usize) -> (b: bool)
    ensures
        b == ws_from(v@, from as int),
{
    let mut k = from;
    while k < v.len()
        invariant
            from <= k,
            forall|j: int| from <= j < k ==> !is_white_space(#[trigger] v@[j]),
        decreases v@.len() - k,
    {
        if is_whitespace(v[k]) {
            return true;
        }
        k += 1;
    }
    false
}

fn unclosed_url_in(v: &[char], ranges: &[Range<usize>]) -> (b: bool)
    ensures
        b == unclosed_url_from(v@, ranges_view(ranges@), 0),
{
    let n = v.len();
    let mut search_from: usize = 0;
    loop
        invariant
            n == v@.len(),
            unclosed_url_from(v@, ranges_view(ranges@), 0) == unclosed_url_from(
                v@,
                ranges_view(ranges@),
                search_from as int,
            ),
        decreases v@.len() + 1 - search_from,
    {
        let found = url_start_in(v, search_from);
        proof {
            lemma_url_start_from(v@, search_from as int);
        }
        match found {
            None => return false,
            Some(start) => {
                if !is_inside_ranges(start, ranges) && !ws_from_in(v, start) {
                    return true;
                }
                search_from = start + 7;
            },
        }
    }
}

/// Whether a URL outside `ignored_ranges` is still being streamed (nothing
/// but URL characters after its start).
pub fn has_unclosed_raw_url(line: &str, ignored_ranges: &[Range<usize>]) -> (b: bool)
    ensures
        b == unclosed_url_from(line@, ranges_view(ignored_ranges@), 0),
{
    let v = chars_of(line);
    unclosed_url_in(&v, ignored_ranges)
}

/// A backtick, two asterisks, one asterisk, an underscore.
pub open spec fn tick() -> Seq<char> {
    seq!['`']
}

pub open spec fn star() -> Seq<char> {
    seq!['*']
}

pub open spec fn underscore() -> Seq<char> {
    seq!['_']
}

/// Whether the line still has inline Markdown that a later chunk may
/// change: an open code span, an unfinished link, a URL at the end, or an
/// open bold, italic or underscore span (outside code and links).
pub open spec fn unresolved_inline(s: Seq<char>) -> bool {
    match delim_ranges_from(s, tick(), Seq::empty(), 0) {
        None => true,
        Some(code) => match link_ranges_from(s, code, 0) {
            None => true,
            Some(links) => {
                let ignored = code + links;
                unclosed_url_from(s, ignored, 0) || delim_ranges_from(s, double_star(), ignored, 0) is None
                    || delim_ranges_from(s, star(), ignored, 0) is None || delim_ranges_from(
                    s,
                    underscore(),
                    ignored,
                    0,
                ) is None
            },
        },
    }
}

fn concat_ranges(a: Vec<Range<usize>>, b: Vec<Range<usize>>) -> (r: Vec<Range<usize>>)
    ensures
        ranges_view(r@) == ranges_view(a@) + ranges_view(b@),
{
    let mut r = a;
    let ghost start = ranges_view(r@);
    let mut i: usize = 0;
    while i < b.len()
        invariant
            i <= b@.len(),
            ranges_view(r@) == start + ranges_view(b@).take(i as int),
        decreases b@.len() - i,
    {
        let x = b[i].start..b[i].end;
        let ghost before = ranges_view(r@);
        r.push(x);
        assert(ranges_view(r@) =~= before.push((b@[i as int].start as int, b@[i as int].end as int)));
        assert(ranges_view(b@).take(i as int + 1) =~= ranges_view(b@).take(i as int).push(
            ranges_view(b@)[i as int],
        ));
        i += 1;
    }
    assert(ranges_view(b@).take(b@.len() as int) =~= ranges_view(b@));
    r
}

fn unresolved_in(v: &[char]) -> (b: bool)
    ensures
        b == unresolved_inline(v@),
{
    let tick_m = vec!['`'];
    let stars = vec!['*', '*'];
    let star_m = vec!['*'];
    let under = vec!['_'];
    assert(tick_m@ =~= tick());
    assert(stars@ =~= double_star());
    assert(star_m@ =~= star());
    assert(under@ =~= underscore());
    let none: Vec<Range<usize>> = Vec::new();
    assert(ranges_view(none@) =~= Seq::<(int, int)>::empty());
    let code = match delim_ranges_in(v, &tick_m, &none) {
        None => return true,
        Some(code) => code,
    };
    let links = match link_ranges_in(v, &code) {
        None => return true,
        Some(links) => links,
    };
    let ignored = concat_ranges(code, links);
    unclosed_url_in(v, &ignored) || delim_ranges_in(v, &stars, &ignored).is_none()
        || delim_ranges_in(v, &star_m, &ignored).is_none() || delim_ranges_in(v, &under, &ignored).is_none()
}

/// Whether the line still has inline Markdown that a later chunk may
/// change.
pub fn has_unresolved_inline_markdown(line: &str) -> (b: bool)
    ensures
        b == unresolved_inline(line@),
{
    let v = chars_of(line);
    unresolved_in(&v)
}

// ---------------------------------------------------------------------
// Inline spans
// ---------------------------------------------------------------------

/// How a piece of inline Markdown is drawn.
#[derive(Clone, Copy, Debug, PartialEq, Eq, Structural)]
pub enum SegmentStyle {
    Text,
    InlineCode,
    Bold,
    Italic,
    Link,
}

/// The next inline construct of a line, with positions in characters.
pub enum SpanView {
    Styled(int, int, int, SegmentStyle),
    Link(int, int, Seq<char>, Seq<char>),
    RawUrl(int, int),
}

/// Where a span starts.
pub open spec fn span_start(sp: SpanView) -> int {
    match sp {
        SpanView::Styled(st, _, _, _) => st,
        SpanView::Link(st, _, _, _) => st,
        SpanView::RawUrl(st, _) => st,
    }
}

/// How long a span's opening marker is (one for links and URLs).
pub open spec fn span_marker_len(sp: SpanView) -> int {
    match sp {
        SpanView::Styled(_, ml, _, _) => ml,
        _ => 1,
    }
}

/// The first link `[label](target)` of `s` (plain search), when label and
/// target are not empty.
pub open spec fn link_span(s: Seq<char>) -> Option<SpanView> {
    match occurrence_from(s, seq!['['], 0) {
        None => None,
        Some(st) => match occurrence_from(s, seq![']'], st + 1) {
            None => None,
            Some(close) => if !(close + 1 < s.len() && s[close + 1] == '(') || close + 2 >= s.len() {
                None
            } else {
                match occurrence_from(s, seq![')'], close + 2) {
                    None => None,
                    Some(te) => {
                        let label = s.subrange(st + 1, close);
                        let target = s.subrange(close + 2, te);
                        if label.len() > 0 && target.len() > 0 {
                            Some(SpanView::Link(st, te + 1, label, target))
                        } else {
                            None
                        }
                    },
                }
            },
        },
    }
}

/// Characters dropped from the end of a bare URL.
pub open spec fn url_trailer(c: char) -> bool {
    c == '.' || c == ',' || c == ';' || c == ':' || c == '!' || c == '?' || c == ')' || c == ']'
}

/// The first white space from `from` on, else the end.
pub open spec fn ws_or_end(s: Seq<char>, from: int) -> int
    decreases s.len() - from,
{
    if from < 0 || from >= s.len() {
        s.len() as int
    } else if is_white_space(s[from]) {
        from
    } else {
        ws_or_end(s, from + 1)
    }
}

/// `end` moved back over trailing punctuation, not past `start`.
pub open spec fn trim_trailers(s: Seq<char>, start: int, end: int) -> int
    decreases end - start,
{
    if end > start && 0 < end <= s.len() && url_trailer(s[end - 1]) {
        trim_trailers(s, start, end - 1)
    } else {
        end
    }
}

/// The first bare URL of `s`: from its scheme to the next white space,
/// without trailing punctuation.
pub open spec fn raw_url_span(s: Seq<char>) -> Option<SpanView> {
    match url_start_from(s, 0) {
        None => None,
        Some(st) => {
            let end = trim_trailers(s, st, ws_or_end(s, st));
            if end > st {
                Some(SpanView::RawUrl(st, end))
            } else {
                None
            }
        },
    }
}

/// Where an emphasis opened before `content_start` closes (plain search;
/// an underscore inside a word does not close).
pub open spec fn delimited_end(s: Seq<char>, m: Seq<char>, from: int, content_start: int) -> Option<int>
    decreases s.len() + 1 - from,
{
    if from < 0 || m.len() == 0 {
        None
    } else {
        match occurrence_from(s, m, from) {
            None => None,
            Some(e) => {
                proof {
                    lemma_occurrence_from(s, m, from);
                }
                if is_single(m, '_') && !valid_underscore(s, e) {
                    delimited_end(s, m, e + m.len(), content_start)
                } else if e > content_start {
                    Some(e)
                } else {
                    None
                }
            },
        }
    }
}

pub proof fn lemma_delimited_end(s: Seq<char>, m: Seq<char>, from: int, content_start: int)
    requires
        0 <= from,
    ensures
        delimited_end(s, m, from, content_start) matches Some(e) ==> from <= e && content_start < e
            && e + m.len() <= s.len() && m.len() > 0,
    decreases s.len() + 1 - from,
{
    if m.len() > 0 {
        lemma_occurrence_from(s, m, from);
        match occurrence_from(s, m, from) {
            None => {},
            Some(e) => if is_single(m, '_') && !valid_underscore(s, e) {
                lemma_delimited_end(s, m, e + m.len(), content_start);
            },
        }
    }
}

/// The first span delimited by `m` from `from` on: an opening marker (not
/// the first half of `**` for a single asterisk, not inside a word for an
/// underscore) and the next marker after some content.
pub open spec fn delimited_from(s: Seq<char>, m: Seq<char>, from: int) -> Option<(int, int)>
    decreases s.len() + 1 - from,
{
    if from < 0 || m.len() == 0 {
        None
    } else {
        match occurrence_from(s, m, from) {
            None => None,
            Some(st) => {
                proof {
                    lemma_occurrence_from(s, m, from);
                }
                if is_single(m, '*') && occurs_at(s, double_star(), st) {
                    delimited_from(s, m, st + m.len())
                } else if is_single(m, '_') && !valid_underscore(s, st) {
                    delimited_from(s, m, st + m.len())
                } else {
                    match delimited_end(s, m, st + m.len(), st + m.len()) {
                        Some(e) => Some((st, e)),
                        None => delimited_from(s, m, st + m.len()),
                    }
                }
            },
        }
    }
}

pub proof fn lemma_delimited_from(s: Seq<char>, m: Seq<char>, from: int)
    requires
        0 <= from,
    ensures
        delimited_from(s, m, from) matches Some((st, e)) ==> from <= st && st + m.len() < e && e
            + m.len() <= s.len() && m.len() > 0,
    decreases s.len() + 1 - from,
{
    if m.len() > 0 {
        lemma_occurrence_from(s, m, from);
        match occurrence_from(s, m, from) {
            None => {},
            Some(st) => {
                lemma_delimited_end(s, m, st + m.len(), st + m.len());
                if (is_single(m, '*') && occurs_at(s, double_star(), st)) || (is_single(m, '_')
                    && !valid_underscore(s, st)) || delimited_end(s, m, st + m.len(), st + m.len()) is None {
                    lemma_delimited_from(s, m, st + m.len());
                }
            },
        }
    }
}

/// The styled span delimited by `m`, drawn with `style`.
pub open spec fn styled_span(s: Seq<char>, m: Seq<char>, style: SegmentStyle) -> Option<SpanView> {
    match delimited_from(s, m, 0) {
        None => None,
        Some((st, e)) => Some(SpanView::Styled(st, m.len() as int, e, style)),
    }
}

/// Whether span `a` is taken before `b`: it starts earlier, or at the same
/// place with a longer marker.
pub open spec fn span_before(a: SpanView, b: SpanView) -> bool {
    span_start(a) < span_start(b) || (span_start(a) == span_start(b) && span_marker_len(a)
        > span_marker_len(b))
}

/// The better of the best span so far and a candidate; the earlier
/// candidate wins a tie.
pub open spec fn pick_span(best: Option<SpanView>, c: Option<SpanView>) -> Option<SpanView> {
    match c {
        None => best,
        Some(x) => match best {
            None => Some(x),
            Some(b) => if span_before(x, b) {
                Some(x)
            } else {
                Some(b)
            },
        },
    }
}

/// The next inline construct of `s`: the earliest of a link, a bare URL, a
/// code span, bold, and italics with `*` or `_`; at the same start the
/// longer marker wins, then the one listed first.
pub open spec fn next_span(s: Seq<char>) -> Option<SpanView> {
    let a = pick_span(None, link_span(s));
    let b = pick_span(a, raw_url_span(s));
    let c = pick_span(b, styled_span(s, tick(), SegmentStyle::InlineCode));
    let d = pick_span(c, styled_span(s, double_star(), SegmentStyle::Bold));
    let e = pick_span(d, styled_span(s, star(), SegmentStyle::Italic));
    pick_span(e, styled_span(s, underscore(), SegmentStyle::Italic))
}

/// Where the text after a span resumes.
pub open spec fn span_resume(sp: SpanView) -> int {
    match sp {
        SpanView::Styled(_, ml, e, _) => e + ml,
        SpanView::Link(_, end, _, _) => end,
        SpanView::RawUrl(_, end) => end,
    }
}

pub proof fn lemma_next_span(s: Seq<char>)
    ensures
        next_span(s) matches Some(sp) ==> 0 <= span_start(sp) < span_resume(sp) <= s.len() && match sp {
            SpanView::Styled(st, ml, e, _) => 1 <= ml && st + ml < e,
            SpanView::Link(st, end, _, _) => true,
            SpanView::RawUrl(st, end) => st < end,
        },
{
    lemma_occurrence_from(s, seq!['['], 0);
    match occurrence_from(s, seq!['['], 0) {
        None => {},
        Some(st) => {
            lemma_occurrence_from(s, seq![']'], st + 1);
            match occurrence_from(s, seq![']'], st + 1) {
                None => {},
                Some(close) => {
                    lemma_occurrence_from(s, seq![')'], close + 2);
                },
            }
        },
    }
    lemma_url_start_from(s, 0);
    match url_start_from(s, 0) {
        None => {},
        Some(st) => {
            lemma_ws_or_end(s, st);
            lemma_trim_trailers(s, st, ws_or_end(s, st));
        },
    }
    lemma_delimited_from(s, tick(), 0);
    lemma_delimited_from(s, double_star(), 0);
    lemma_delimited_from(s, star(), 0);
    lemma_delimited_from(s, underscore(), 0);
}


proof fn lemma_trim_trailers(s: Seq<char>, start: int, end: int)
    requires
        start <= end,
    ensures
        start <= trim_trailers(s, start, end) <= end,
    decreases end - start,
{
    if end > start && 0 < end <= s.len() && url_trailer(s[end - 1]) {
        lemma_trim_trailers(s, start, end - 1);
    }
}

proof fn lemma_ws_or_end(s: Seq<char>, from: int)
    requires
        0 <= from <= s.len(),
    ensures
        from <= ws_or_end(s, from) <= s.len(),
        forall|k: int| from <= k < ws_or_end(s, from) ==> !is_white_space(#[trigger] s[k]),
        ws_or_end(s, from) < s.len() ==> is_white_space(s[ws_or_end(s, from)]),
    decreases s.len() - from,
{
    if from < s.len() && !is_white_space(s[from]) {
        lemma_ws_or_end(s, from + 1);
    }
}

proof fn lemma_trim_trailers_kept(s: Seq<char>, start: int, end: int)
    requires
        0 <= start <= end <= s.len(),
    ensures
        start <= trim_trailers(s, start, end) <= end,
        forall|k: int| trim_trailers(s, start, end) <= k < end ==> url_trailer(#[trigger] s[k]),
        trim_trailers(s, start, end) > start ==> !url_trailer(s[trim_trailers(s, start, end) - 1]),
    decreases end - start,
{
    if end > start && 0 < end <= s.len() && url_trailer(s[end - 1]) {
        lemma_trim_trailers_kept(s, start, end - 1);
    }
}

/// A bare URL runs from its scheme over characters that are not white
/// space, and never ends in sentence punctuation (`.`, `,`, `;`, `:`,
/// `!`, `?`, `)`, `]`): what is left between it and the next white space
/// is only such punctuation.
pub proof fn lemma_raw_url_shape(s: Seq<char>)
    ensures
        raw_url_span(s) matches Some(SpanView::RawUrl(st, end)) ==> {
            &&& 0 <= st < end <= s.len()
            &&& forall|k: int| st <= k < end ==> !is_white_space(#[trigger] s[k])
            &&& ({
                let c = s[end - 1];
                c != '.' && c != ',' && c != ';' && c != ':' && c != '!' && c != '?' && c != ')' && c != ']'
            })
            &&& forall|k: int|
                end <= k < s.len() && (forall|m: int| end <= m <= k ==> !is_white_space(#[trigger] s[m])) ==> {
                    let c = #[trigger] s[k];
                    c == '.' || c == ',' || c == ';' || c == ':' || c == '!' || c == '?' || c == ')' || c == ']'
                }
        },
{
    lemma_url_start_from(s, 0);
    match url_start_from(s, 0) {
        None => {},
        Some(st) => {
            lemma_ws_or_end(s, st);
            let wo = ws_or_end(s, st);
            lemma_trim_trailers_kept(s, st, wo);
            let end = trim_trailers(s, st, wo);
            if end > st {
                assert forall|k: int|
                    end <= k < s.len() && (forall|m: int| end <= m <= k ==> !is_white_space(#[trigger] s[m])) implies {
                    let c = #[trigger] s[k];
                    c == '.' || c == ',' || c == ';' || c == ':' || c == '!' || c == '?' || c == ')' || c == ']'
                } by {
                    if k >= wo {
                        assert(!is_white_space(s[wo]));
                    }
                    assert(url_trailer(s[k]));
                }
            }
        },
    }
}

/// The pieces of a line with its inline Markdown resolved: plain text,
/// code, bold, italics, and links as "label: target" with the target drawn
/// as a link.
pub open spec fn segments_of(s: Seq<char>) -> Seq<(Seq<char>, SegmentStyle)>
    decreases s.len(),
{
    if s.len() == 0 {
        Seq::empty()
    } else {
        match next_span(s) {
            None => seq![(s, SegmentStyle::Text)],
            Some(sp) => {
                proof {
                    lemma_next_span(s);
                }
                let st = span_start(sp);
                let before: Seq<(Seq<char>, SegmentStyle)> = if st > 0 {
                    seq![(s.subrange(0, st), SegmentStyle::Text)]
                } else {
                    Seq::empty()
                };
                let middle: Seq<(Seq<char>, SegmentStyle)> = match sp {
                    SpanView::Styled(_, ml, e, style) => seq![(s.subrange(st + ml, e), style)],
                    SpanView::Link(_, _, label, target) => seq![
                        (label, SegmentStyle::Text),
                        (seq![':', ' '], SegmentStyle::Text),
                        (target, SegmentStyle::Link),
                    ],
                    SpanView::RawUrl(_, end) => seq![(s.subrange(st, end), SegmentStyle::Link)],
                };
                before + middle + segments_of(s.subrange(span_resume(sp), s.len() as int))
            },
        }
    }
}

/// The texts of the segments, joined.
pub open spec fn segments_text(segs: Seq<(Seq<char>, SegmentStyle)>) -> Seq<char>
    decreases segs.len(),
{
    if segs.len() == 0 {
        Seq::empty()
    } else {
        segments_text(segs.drop_last()) + segs.last().0
    }
}

/// How a line reads once its inline Markdown is resolved.
pub open spec fn inline_text(s: Seq<char>) -> Seq<char> {
    segments_text(segments_of(s))
}

/// The next inline construct of a line.
#[derive(Debug)]
pub enum MarkdownSpan {
    Styled { start: usize, marker_len: usize, end: usize, style: SegmentStyle },
    Link { start: usize, end: usize, label: String, target: String },
    RawUrl { start: usize, end: usize },
}

impl View for MarkdownSpan {
    type V = SpanView;

    open spec fn view(&self) -> SpanView {
        match self {
            MarkdownSpan::Styled { start, marker_len, end, style } => SpanView::Styled(
                *start as int,
                *marker_len as int,
                *end as int,
                *style,
            ),
            MarkdownSpan::Link { start, end, label, target } => SpanView::Link(
                *start as int,
                *end as int,
                label@,
                target@,
            ),
            MarkdownSpan::RawUrl { start, end } => SpanView::RawUrl(*start as int, *end as int),
        }
    }
}

pub open spec fn opt_span_view(o: Option<MarkdownSpan>) -> Option<SpanView> {
    match o {
        Some(sp) => Some(sp@),
        None => None,
    }
}

/// The first `[label](target)` link of a line, if both parts are non-empty.
fn next_markdown_link(v: &[char]) -> (r: Option<MarkdownSpan>)
    ensures
        opt_span_view(r) == link_span(v@),
{
    let n = v.len();
    let open = vec!['['];
    let close_b = vec![']'];
    let close_p = vec![')'];
    assert(open@ =~= seq!['[']);
    assert(close_b@ =~= seq![']']);
    assert(close_p@ =~= seq![')']);
    let start = match occurrence_in(v, &open, 0) {
        None => return None,
        Some(st) => st,
    };
    proof {
        lemma_occurrence_from(v@, seq!['['], 0);
    }
    let close = match occurrence_in(v, &close_b, start + 1) {
        None => return None,
        Some(c) => c,
    };
    proof {
        lemma_occurrence_from(v@, seq![']'], start + 1);
    }
    if !(close + 1 < n && v[close + 1] == '(') || close + 2 >= n {
        return None;
    }
    let target_end = match occurrence_in(v, &close_p, close + 2) {
        None => return None,
        Some(te) => te,
    };
    proof {
        lemma_occurrence_from(v@, seq![')'], close + 2);
    }
    if close > start + 1 && target_end > close + 2 {
        let label = string_of_range(v, start + 1, close);
        let target = string_of_range(v, close + 2, target_end);
        Some(MarkdownSpan::Link { start, end: target_end + 1, label, target })
    } else {
        None
    }
}

/// The first bare `http://` or `https://` address of a line, without
/// trailing punctuation.
fn next_raw_url(v: &[char]) -> (r: Option<MarkdownSpan>)
    ensures
        opt_span_view(r) == raw_url_span(v@),
{
    let n = v.len();
    let start = match url_start_in(v, 0) {
        None => return None,
        Some(st) => st,
    };
    proof {
        lemma_url_start_from(v@, 0);
    }
    let mut end = start;
    while end < n && !is_whitespace(v[end])
        invariant
            n == v@.len(),
            start <= end <= n,
            ws_or_end(v@, start as int) == ws_or_end(v@, end as int),
        decreases n - end,
    {
        end += 1;
    }
    while end > start && (v[end - 1] == '.' || v[end - 1] == ',' || v[end - 1] == ';' || v[end - 1]
        == ':' || v[end - 1] == '!' || v[end - 1] == '?' || v[end - 1] == ')' || v[end - 1] == ']')
        invariant
            n == v@.len(),
            start <= end <= n,
            trim_trailers(v@, start as int, ws_or_end(v@, start as int)) == trim_trailers(
                v@,
                start as int,
                end as int,
            ),
        decreases end - start,
    {
        end -= 1;
    }
    if end > start {
        Some(MarkdownSpan::RawUrl { start, end })
    } else {
        None
    }
}

fn delimited_end_in(v: &[char], m: &[char], from: usize, content_start: usize) -> (r: Option<usize>)
    requires
        m@.len() > 0,
    ensures
        match r {
            Some(e) => delimited_end(v@, m@, from as int, content_start as int) == Some(e as int),
            None => delimited_end(v@, m@, from as int, content_start as int) is None,
        },
{
    let n = v.len();
    let mut end_from = from;
    loop
        invariant
            n == v@.len(),
            m@.len() > 0,
            delimited_end(v@, m@, from as int, content_start as int) == delimited_end(
                v@,
                m@,
                end_from as int,
                content_start as int,
            ),
        decreases v@.len() + 1 - end_from,
    {
        let found = occurrence_in(v, m, end_from);
        proof {
            lemma_occurrence_from(v@, m@, end_from as int);
        }
        match found {
            None => return None,
            Some(e) => {
                if is_single_in(m, '_') && !valid_underscore_in(v, e) {
                    end_from = e + m.len();
                } else if e > content_start {
                    return Some(e);
                } else {
                    return None;
                }
            },
        }
    }
}

/// The first non-empty run enclosed by the marker `m`.
fn next_delimited(v: &[char], m: &[char], style: SegmentStyle) -> (r: Option<MarkdownSpan>)
    requires
        m@.len() > 0,
    ensures
        opt_span_view(r) == styled_span(v@, m@, style),
{
    let n = v.len();
    let star2 = vec!['*', '*'];
    assert(star2@ =~= double_star());
    let mut search_from: usize = 0;
    loop
        invariant
            n == v@.len(),
            m@.len() > 0,
            star2@ == double_star(),
            delimited_from(v@, m@, 0) == delimited_from(v@, m@, search_from as int),
        decreases v@.len() + 1 - search_from,
    {
        let found = occurrence_in(v, m, search_from);
        proof {
            lemma_occurrence_from(v@, m@, search_from as int);
        }
        match found {
            None => return None,
            Some(start) => {
                let is_double = is_single_in(m, '*') && start + 1 < n && matches_at(v, &star2, start);
                let bad_under = is_single_in(m, '_') && !valid_underscore_in(v, start);
                if is_double || bad_under {
                    search_from = start + m.len();
                } else {
                    let content_start = start + m.len();
                    proof {
                        lemma_delimited_end(v@, m@, content_start as int, content_start as int);
                    }
                    match delimited_end_in(v, m, content_start, content_start) {
                        Some(end) => {
                            return Some(
                                MarkdownSpan::Styled { start, marker_len: m.len(), end, style },
                            );
                        },
                        None => {
                            search_from = content_start;
                        },
                    }
                }
            },
        }
    }
}

fn span_before_exec(a: &MarkdownSpan, b: &MarkdownSpan) -> (r: bool)
    ensures
        r == span_before(a@, b@),
{
    let (sa, ma) = match a {
        MarkdownSpan::Styled { start, marker_len, .. } => (*start, *marker_len),
        MarkdownSpan::Link { start, .. } => (*start, 1),
        MarkdownSpan::RawUrl { start, .. } => (*start, 1),
    };
    let (sb, mb) = match b {
        MarkdownSpan::Styled { start, marker_len, .. } => (*start, *marker_len),
        MarkdownSpan::Link { start, .. } => (*start, 1),
        MarkdownSpan::RawUrl { start, .. } => (*start, 1),
    };
    sa < sb || (sa == sb && ma > mb)
}

fn pick_span_exec(best: Option<MarkdownSpan>, c: Option<MarkdownSpan>) -> (r: Option<MarkdownSpan>)
    ensures
        opt_span_view(r) == pick_span(opt_span_view(best), opt_span_view(c)),
{
    match c {
        None => best,
        Some(x) => match best {
            None => Some(x),
            Some(b) => if span_before_exec(&x, &b) {
                Some(x)
            } else {
                Some(b)
            },
        },
    }
}

fn next_span_in(v: &[char]) -> (r: Option<MarkdownSpan>)
    ensures
        opt_span_view(r) == next_span(v@),
{
    let tick_m = vec!['`'];
    let stars = vec!['*', '*'];
    let star_m = vec!['*'];
    let under = vec!['_'];
    assert(tick_m@ =~= tick());
    assert(stars@ =~= double_star());
    assert(star_m@ =~= star());
    assert(under@ =~= underscore());
    let a = pick_span_exec(None, next_markdown_link(v));
    let b = pick_span_exec(a, next_raw_url(v));
    let c = pick_span_exec(b, next_delimited(v, &tick_m, SegmentStyle::InlineCode));
    let d = pick_span_exec(c, next_delimited(v, &stars, SegmentStyle::Bold));
    let e = pick_span_exec(d, next_delimited(v, &star_m, SegmentStyle::Italic));
    pick_span_exec(e, next_delimited(v, &under, SegmentStyle::Italic))
}

/// The next inline construct of `line`.
pub fn next_markdown_span(line: &str) -> (r: Option<MarkdownSpan>)
    ensures
        opt_span_view(r) == next_span(line@),
{
    let v = chars_of(line);
    next_span_in(&v)
}

/// A piece of a resolved line and how it is drawn.
#[derive(Clone, Debug)]
pub struct StyledSegment {
    pub text: String,
    pub style: SegmentStyle,
}

pub open spec fn segs_view(v: Seq<StyledSegment>) -> Seq<(Seq<char>, SegmentStyle)> {
    Seq::new(v.len(), |i: int| (v[i].text@, v[i].style))
}

fn suffix(v: &[char], from: usize) -> (r: Vec<char>)
    requires
        from <= v@.len(),
    ensures
        r@ == v@.subrange(from as int, v@.len() as int),
{
    let mut r: Vec<char> = Vec::new();
    let mut i = from;
    while i < v.len()
        invariant
            from <= i <= v@.len(),
            r@ == v@.subrange(from as int, i as int),
        decreases v@.len() - i,
    {
        r.push(v[i]);
        assert(v@.subrange(from as int, i + 1) =~= v@.subrange(from as int, i as int).push(v@[i as int]));
        i += 1;
    }
    r
}

fn push_segment(out: &mut Vec<StyledSegment>, text: String, style: SegmentStyle)
    ensures
        segs_view(final(out)@) == segs_view(old(out)@).push((text@, style)),
{
    let ghost before = out@;
    out.push(StyledSegment { text, style });
    assert(segs_view(out@) =~= segs_view(before).push((text@, style)));
}

/// The pieces of `line` with its inline Markdown resolved (see
/// `segments_of`).
#[verifier::rlimit(40)]
#[verifier::spinoff_prover]
pub fn markdown_inline_segments(line: &str) -> (r: Vec<StyledSegment>)
    ensures
        segs_view(r@) == segments_of(line@),
{
    let v = chars_of(line);
    let n = v.len();
    let mut out: Vec<StyledSegment> = Vec::new();
    let mut pos: usize = 0;
    assert(v@.subrange(0, n as int) =~= v@);
    assert(segs_view(out@) =~= Seq::<(Seq<char>, SegmentStyle)>::empty());
    while pos < n
        invariant
            n == v@.len(),
            pos <= n,
            v@ == line@,
            segs_view(out@) + segments_of(v@.subrange(pos as int, n as int)) == segments_of(v@),
        decreases n - pos,
    {
        let rest = suffix(&v, pos);
        let ghost r = rest@;
        let ghost before = segs_view(out@);
        proof {
            lemma_next_span(r);
        }
        match next_span_in(&rest) {
            None => {
                push_segment(&mut out, string_of(&rest), SegmentStyle::Text);
                assert(segments_of(r) == seq![(r, SegmentStyle::Text)]);
                assert(v@.subrange(n as int, n as int) =~= Seq::<char>::empty());
                assert(segs_view(out@) + segments_of(v@.subrange(n as int, n as int)) =~= before
                    + segments_of(r));
                pos = n;
            },
            Some(span) => {
                let ghost sp = span@;
                let st = match &span {
                    MarkdownSpan::Styled { start, .. } => *start,
                    MarkdownSpan::Link { start, .. } => *start,
                    MarkdownSpan::RawUrl { start, .. } => *start,
                };
                if st > 0 {
                    push_segment(&mut out, string_of_range(&rest, 0, st), SegmentStyle::Text);
                }
                let ghost after_before = segs_view(out@);
                let resume = match span {
                    MarkdownSpan::Styled { start, marker_len, end, style } => {
                        push_segment(
                            &mut out,
                            string_of_range(&rest, start + marker_len, end),
                            style,
                        );
                        end + marker_len
                    },
                    MarkdownSpan::Link { start, end, label, target } => {
                        push_segment(&mut out, label, SegmentStyle::Text);
                        let colon = vec![':', ' '];
                        let sep = string_of(&colon);
                        push_segment(&mut out, sep, SegmentStyle::Text);
                        push_segment(&mut out, target, SegmentStyle::Link);
                        end
                    },
                    MarkdownSpan::RawUrl { start, end } => {
                        push_segment(&mut out, string_of_range(&rest, start, end), SegmentStyle::Link);
                        end
                    },
                };
                proof {
                    assert(resume == span_resume(sp));
                    let bseq: Seq<(Seq<char>, SegmentStyle)> = if st > 0 {
                        seq![(r.subrange(0, st as int), SegmentStyle::Text)]
                    } else {
                        Seq::empty()
                    };
                    let mseq: Seq<(Seq<char>, SegmentStyle)> = match sp {
                        SpanView::Styled(_, ml, e, style) => seq![(r.subrange(st + ml, e), style)],
                        SpanView::Link(_, _, label, target) => seq![
                            (label, SegmentStyle::Text),
                            (seq![':', ' '], SegmentStyle::Text),
                            (target, SegmentStyle::Link),
                        ],
                        SpanView::RawUrl(_, end) => seq![(r.subrange(st as int, end), SegmentStyle::Link)],
                    };
                    assert(after_before =~= before + bseq);
                    assert(segs_view(out@) =~= before + bseq + mseq);
                    assert(r.subrange(resume as int, r.len() as int) =~= v@.subrange(pos + resume, n as int));
                    assert(segments_of(r) == bseq + mseq + segments_of(r.subrange(resume as int, r.len() as int)));
                    assert(segs_view(out@) + segments_of(v@.subrange(pos + resume, n as int)) =~= before
                        + segments_of(r));
                }
                pos = pos + resume;
            },
        }
    }
    out
}

fn segments_text_of(segs: &Vec<StyledSegment>) -> (t: String)
    ensures
        t@ == segments_text(segs_view(segs@)),
{
    let mut t = String::new();
    let mut i: usize = 0;
    while i < segs.len()
        invariant
            i <= segs@.len(),
            t@ == segments_text(segs_view(segs@).take(i as int)),
        decreases segs@.len() - i,
    {
        push_str(&mut t, segs[i].text.as_str());
        assert(segs_view(segs@).take(i as int + 1).drop_last() =~= segs_view(segs@).take(i as int));
        i += 1;
    }
    assert(segs_view(segs@).take(segs@.len() as int) =~= segs_view(segs@));
    t
}

/// How `line` reads once its inline Markdown is resolved.
pub fn markdown_inline_text(line: &str) -> (t: String)
    ensures
        t@ == inline_text(line@),
{
    let segs = markdown_inline_segments(line);
    segments_text_of(&segs)
}

// ---------------------------------------------------------------------
// Code blocks and dividers
// ---------------------------------------------------------------------

/// Whether a line opens or closes a code block: it starts with three
/// backticks after leading white space.
pub open spec fn is_fence_line(p: Seq<char>) -> bool {
    let t = trim_start_seq(p);
    t.len() >= 3 && t[0] == '`' && t[1] == '`' && t[2] == '`'
}

/// Whether the code block is open after the lines `pieces`, starting from
/// `open`.
pub open spec fn fence_state(pieces: Seq<Seq<char>>, open: bool) -> bool
    decreases pieces.len(),
{
    if pieces.len() == 0 {
        open
    } else {
        let st = fence_state(pieces.drop_last(), open);
        if is_fence_line(pieces.last()) {
            !st
        } else {
            st
        }
    }
}

/// Whether the line starting at `line_start` is inside a code block, given
/// whether one was open at the start of `s`.
pub open spec fn in_code_block_at(s: Seq<char>, line_start: int, open: bool) -> bool {
    fence_state(split_on(s.take(line_start), '\n'), open)
}

pub(crate) fn is_fence_line_in(p: &[char]) -> (b: bool)
    ensures
        b == is_fence_line(p@),
{
    let k = skip_ws_start(p);
    proof {
        lemma_leading_ws(p@);
    }
    let n = p.len();
    let ghost t = trim_start_seq(p@);
    assert(t.len() == n - k);
    if n - k >= 3 {
        assert(t[0] == p@[k as int] && t[1] == p@[k + 1] && t[2] == p@[k + 2]);
        p[k] == '`' && p[k + 1] == '`' && p[k + 2] == '`'
    } else {
        false
    }
}

/// Whether the line starting at `line_start` is inside a code block: the
/// fence lines before it toggle `in_code_block`.
pub fn line_starts_in_code_block(text: &str, line_start: usize, in_code_block: bool) -> (b: bool)
    requires
        line_start <= text@.len(),
    ensures
        b == in_code_block_at(text@, line_start as int, in_code_block),
{
    let v = chars_of(text);
    in_code_block_in(&v, line_start, in_code_block)
}

fn in_code_block_in(v: &[char], line_start: usize, in_code_block: bool) -> (b: bool)
    requires
        line_start <= v@.len(),
    ensures
        b == in_code_block_at(v@, line_start as int, in_code_block),
{
    let mut state = in_code_block;
    let mut piece: Vec<char> = Vec::new();
    let mut i: usize = 0;
    proof {
        assert(v@.take(0) =~= Seq::<char>::empty());
    }
    while i < line_start
        invariant
            i <= line_start <= v@.len(),
            split_on(v@.take(i as int), '\n').len() >= 1,
            piece@ == split_on(v@.take(i as int), '\n').last(),
            state == fence_state(split_on(v@.take(i as int), '\n').drop_last(), in_code_block),
        decreases line_start - i,
    {
        let c = v[i];
        proof {
            assert(v@.take(i as int + 1).drop_last() =~= v@.take(i as int));
            lemma_split_on_nonempty(v@.take(i as int), '\n');
        }
        if c == '\n' {
            if is_fence_line_in(&piece) {
                state = !state;
            }
            piece = Vec::new();
            proof {
                let p = split_on(v@.take(i as int), '\n');
                let q = split_on(v@.take(i as int + 1), '\n');
                assert(q.drop_last() =~= p);
                assert(p =~= p.drop_last().push(p.last()));
            }
        } else {
            piece.push(c);
            proof {
                let p = split_on(v@.take(i as int), '\n');
                let q = split_on(v@.take(i as int + 1), '\n');
                assert(q.drop_last() =~= p.drop_last());
            }
        }
        i += 1;
    }
    proof {
        let p = split_on(v@.take(line_start as int), '\n');
        assert(p =~= p.drop_last().push(p.last()));
    }
    if is_fence_line_in(&piece) {
        state = !state;
    }
    state
}

/// The width of the text inside a code block's borders.
pub open spec fn code_content_width(width: nat) -> nat {
    let w = if width == 0 {
        1
    } else {
        width
    };
    if w == 1 {
        1
    } else if w <= 3 {
        (w - 1) as nat
    } else {
        (w - 4) as nat
    }
}

/// The width of the text inside a code block's borders, for a block
/// `width` columns wide.
pub fn code_block_stream_content_width(width: usize) -> (w: usize)
    ensures
        w == code_content_width(width as nat),
{
    let width = if width == 0 {
        1
    } else {
        width
    };
    if width == 1 {
        1
    } else if width <= 3 {
        width - 1
    } else {
        width - 4
    }
}

/// Whether a line may be the start of a code fence: after leading white
/// space it starts with three backticks, or is one or two backticks so far.
pub open spec fn fence_fragment(line: Seq<char>) -> bool {
    let t = trim_start_seq(line);
    t.len() > 0 && ((t.len() >= 3 && t[0] == '`' && t[1] == '`' && t[2] == '`') || (t.len() < 3
        && forall|i: int| 0 <= i < t.len() ==> #[trigger] t[i] == '`'))
}

fn fence_fragment_in(v: &[char]) -> (b: bool)
    ensures
        b == fence_fragment(v@),
{
    let k = skip_ws_start(v);
    proof {
        lemma_leading_ws(v@);
    }
    let n = v.len();
    let ghost t = trim_start_seq(v@);
    assert(t.len() == n - k);
    assert(forall|i: int| 0 <= i < t.len() ==> t[i] == v@[k + i]);
    if n - k == 0 {
        false
    } else if n - k >= 3 {
        v[k] == '`' && v[k + 1] == '`' && v[k + 2] == '`'
    } else if n - k == 1 {
        assert(t[0] == v@[k as int]);
        v[k] == '`'
    } else {
        assert(t[0] == v@[k as int]);
        assert(t[1] == v@[k + 1]);
        v[k] == '`' && v[k + 1] == '`'
    }
}

/// Whether `line` may be the start of a code fence.
pub fn starts_with_code_fence_fragment(line: &str) -> (b: bool)
    ensures
        b == fence_fragment(line@),
{
    let v = chars_of(line);
    fence_fragment_in(&v)
}

/// The characters of `s` that are not white space.
pub open spec fn non_ws(s: Seq<char>) -> Seq<char>
    decreases s.len(),
{
    if s.len() == 0 {
        s
    } else if is_white_space(s.last()) {
        non_ws(s.drop_last())
    } else {
        non_ws(s.drop_last()).push(s.last())
    }
}

/// Whether a line is a thematic break: at least three of the same `-`,
/// `*` or `_`, with nothing else but white space.
pub open spec fn divider(line: Seq<char>) -> bool {
    let m = non_ws(trim_seq(line));
    m.len() >= 3 && (m[0] == '-' || m[0] == '*' || m[0] == '_') && forall|i: int|
        0 <= i < m.len() ==> #[trigger] m[i] == m[0]
}

/// Whether `line` is a thematic break.
pub fn is_markdown_divider(line: &str) -> (b: bool)
    ensures
        b == divider(line@),
{
    let t = trimmed(line);
    let mut m: Vec<char> = Vec::new();
    let mut i: usize = 0;
    while i < t.len()
        invariant
            i <= t@.len(),
            m@ == non_ws(t@.take(i as int)),
        decreases t@.len() - i,
    {
        assert(t@.take(i as int + 1).drop_last() =~= t@.take(i as int));
        if !is_whitespace(t[i]) {
            m.push(t[i]);
        }
        i += 1;
    }
    assert(t@.take(t@.len() as int) =~= t@);
    if m.len() < 3 {
        return false;
    }
    let marker = m[0];
    if !(marker == '-' || marker == '*' || marker == '_') {
        return false;
    }
    let mut j: usize = 0;
    while j < m.len()
        invariant
            m@ == non_ws(trim_seq(line@)),
            marker == '-' || marker == '*' || marker == '_',
            j <= m@.len(),
            m@.len() >= 3,
            marker == m@[0],
            forall|k: int| 0 <= k < j ==> m@[k] == marker,
        decreases m@.len() - j,
    {
        if m[j] != marker {
            return false;
        }
        j += 1;
    }
    true
}

/// The label of a code block's copy button: " COPY " from nine columns,
/// "COPY" from six, none below.
pub fn code_block_copy_label(width: usize) -> (l: Option<&'static str>)
    ensures
        width >= 9 ==> (l matches Some(t) && t@ == " COPY "@),
        6 <= width < 9 ==> (l matches Some(t) && t@ == "COPY"@),
        width < 6 ==> l is None,
{
    if width >= 9 {
        Some(" COPY ")
    } else if width >= 6 {
        Some("COPY")
    } else {
        None
    }
}

/// The columns of a code block's copy button: it ends one column before
/// the right border.
pub fn code_block_copy_columns(width: usize) -> (r: Option<Range<usize>>)
    ensures
        width >= 9 ==> (r matches Some(c) && c.start == width - 7 && c.end == width - 1),
        6 <= width < 9 ==> (r matches Some(c) && c.start == width - 5 && c.end == width - 1),
        width < 6 ==> r is None,
{
    let label = match code_block_copy_label(width) {
        None => return None,
        Some(l) => l,
    };
    proof {
        reveal_strlit(" COPY ");
        reveal_strlit("COPY");
    }
    let label_width = unicode_width_of_str(label);
    let start = width.saturating_sub(label_width + 1);
    Some(start..start + label_width)
}

// ---------------------------------------------------------------------
// How much of a streamed reply is settled
// ---------------------------------------------------------------------

pub proof fn lemma_segments_text_concat(a: Seq<(Seq<char>, SegmentStyle)>, b: Seq<(Seq<char>, SegmentStyle)>)
    ensures
        segments_text(a + b) == segments_text(a) + segments_text(b),
    decreases b.len(),
{
    if b.len() == 0 {
        assert(a + b =~= a);
        assert(segments_text(b) =~= Seq::<char>::empty());
        assert(segments_text(a) + segments_text(b) =~= segments_text(a));
    } else {
        lemma_segments_text_concat(a, b.drop_last());
        assert((a + b).drop_last() =~= a + b.drop_last());
        assert((a + b).last() == b.last());
        assert(segments_text(a + b) == segments_text(a + b.drop_last()) + b.last().0);
        assert(segments_text(a) + segments_text(b) =~= segments_text(a) + segments_text(b.drop_last())
            + b.last().0);
    }
}

proof fn lemma_segments_text_one(x: (Seq<char>, SegmentStyle))
    ensures
        segments_text(seq![x]) == x.0,
{
    assert(seq![x].drop_last() =~= Seq::<(Seq<char>, SegmentStyle)>::empty());
    assert(segments_text(Seq::<(Seq<char>, SegmentStyle)>::empty()) =~= Seq::<char>::empty());
    assert(segments_text(seq![x]) =~= x.0);
}

/// Resolving inline Markdown never makes a line longer.
pub proof fn lemma_inline_text_len(s: Seq<char>)
    ensures
        inline_text(s).len() <= s.len(),
    decreases s.len(),
{
    if s.len() > 0 {
        match next_span(s) {
            None => {
                assert(segments_of(s) == seq![(s, SegmentStyle::Text)]);
                lemma_segments_text_one((s, SegmentStyle::Text));
            },
            Some(sp) => {
                lemma_next_span(s);
                let st = span_start(sp);
                let before: Seq<(Seq<char>, SegmentStyle)> = if st > 0 {
                    seq![(s.subrange(0, st), SegmentStyle::Text)]
                } else {
                    Seq::empty()
                };
                let middle: Seq<(Seq<char>, SegmentStyle)> = match sp {
                    SpanView::Styled(_, ml, e, style) => seq![(s.subrange(st + ml, e), style)],
                    SpanView::Link(_, _, label, target) => seq![
                        (label, SegmentStyle::Text),
                        (seq![':', ' '], SegmentStyle::Text),
                        (target, SegmentStyle::Link),
                    ],
                    SpanView::RawUrl(_, end) => seq![(s.subrange(st, end), SegmentStyle::Link)],
                };
                let rest = s.subrange(span_resume(sp), s.len() as int);
                lemma_inline_text_len(rest);
                assert(segments_of(s) == before + middle + segments_of(rest));
                lemma_segments_text_concat(before + middle, segments_of(rest));
                lemma_segments_text_concat(before, middle);
                assert(segments_text(before).len() == st) by {
                    if st > 0 {
                        lemma_segments_text_one((s.subrange(0, st), SegmentStyle::Text));
                    } else {
                        assert(segments_text(before) =~= Seq::<char>::empty());
                    }
                }
                match sp {
                    SpanView::Styled(_, ml, e, style) => {
                        lemma_segments_text_one((s.subrange(st + ml, e), style));
                        assert(segments_text(middle).len() == e - st - ml);
                    },
                    SpanView::Link(_, end, label, target) => {
                        lemma_link_span_bounds(s);
                        let a = (label, SegmentStyle::Text);
                        let b = (seq![':', ' '], SegmentStyle::Text);
                        let c = (target, SegmentStyle::Link);
                        lemma_segments_text_one(a);
                        assert(seq![a, b] =~= seq![a].push(b));
                        assert(seq![a, b, c] =~= seq![a, b].push(c));
                        assert(seq![a, b].drop_last() =~= seq![a]);
                        assert(seq![a, b, c].drop_last() =~= seq![a, b]);
                        assert(segments_text(seq![a, b]) == segments_text(seq![a]) + b.0);
                        assert(segments_text(seq![a, b, c]) == segments_text(seq![a, b]) + c.0);
                        assert(middle == seq![a, b, c]);
                        assert(segments_text(middle).len() == label.len() + 2 + target.len());
                    },
                    SpanView::RawUrl(_, end) => {
                        lemma_segments_text_one((s.subrange(st, end), SegmentStyle::Link));
                        assert(segments_text(middle).len() == end - st);
                    },
                }
            },
        }
    }
}

/// A link span spans its label, target and four bracket characters.
proof fn lemma_link_span_bounds(s: Seq<char>)
    ensures
        next_span(s) matches Some(SpanView::Link(st, end, label, target)) ==> label.len() + target.len()
            + 4 == end - st,
{
    lemma_occurrence_from(s, seq!['['], 0);
    match occurrence_from(s, seq!['['], 0) {
        None => {},
        Some(st) => {
            lemma_occurrence_from(s, seq![']'], st + 1);
            match occurrence_from(s, seq![']'], st + 1) {
                None => {},
                Some(close) => {
                    lemma_occurrence_from(s, seq![')'], close + 2);
                },
            }
        },
    }
    match next_span(s) {
        Some(SpanView::Link(st, end, label, target)) => {
            // only the link candidate produces a link span
            assert(link_span(s) == Some(SpanView::Link(st, end, label, target))) by {
                lemma_only_link_is_link(s);
            }
        },
        _ => {},
    }
}

proof fn lemma_only_link_is_link(s: Seq<char>)
    ensures
        next_span(s) matches Some(SpanView::Link(st, end, label, target)) ==> link_span(s) == Some(
            SpanView::Link(st, end, label, target),
        ),
{
}

/// A prefix of complete rows: where it ends and whether it ends at a wrap
/// (rather than at a line break or nowhere).
#[derive(Clone, Copy, Debug, Default, PartialEq, Eq, Structural)]
pub struct CompleteStreamPrefix {
    pub char_index: usize,
    pub ends_with_wrap: bool,
}

/// The hard-wrap scan over the first `i` characters: the width of the
/// row being filled and where the last complete row ended.
pub open spec fn hard_scan(s: Seq<char>, w: nat, i: int) -> (nat, int)
    decreases i,
{
    if i <= 0 || i > s.len() {
        (0, 0)
    } else {
        let (lw, last) = hard_scan(s, w, i - 1);
        let cw = char_w(s[i - 1]);
        let (lw1, last1) = if lw > 0 && lw + cw > w {
            (0nat, i - 1)
        } else {
            (lw, last)
        };
        if lw1 + cw >= w {
            (0nat, i)
        } else {
            ((lw1 + cw) as nat, last1)
        }
    }
}

/// The complete rows of `s` hard-wrapped at `width` columns: the end of
/// the last full row, if any.
pub open spec fn hard_prefix(s: Seq<char>, width: nat) -> (int, bool) {
    let w = if width == 0 {
        1
    } else {
        width
    };
    let last = hard_scan(s, w, s.len() as int).1;
    if last == 0 {
        (0, false)
    } else {
        (last, true)
    }
}

proof fn lemma_hard_scan_state(s: Seq<char>, w: nat, i: int)
    requires
        w >= 1,
        0 <= i <= s.len(),
    ensures
        ({
            let st = hard_wrap_state(s.take(i), w);
            &&& hard_scan(s, w, i).0 == st.2
            &&& hard_scan(s, w, i).1 == i - st.1.len()
            &&& st.1.len() <= i
            &&& st.2 == sum_w(st.1)
            &&& st.2 < w
            &&& (i > 0 && st.1.len() == 0) ==> st.0.len() > 0 && sum_w(st.0.last()) >= w
        }),
    decreases i,
{
    if i > 0 {
        lemma_hard_scan_state(s, w, i - 1);
        assert(s.take(i).drop_last() =~= s.take(i - 1));
        assert(s.take(i).last() == s[i - 1]);
        let prev = hard_wrap_state(s.take(i - 1), w);
        let c = s[i - 1];
        let cut = prev.2 > 0 && prev.2 + char_w(c) > w;
        let cur = if cut {
            Seq::<char>::empty()
        } else {
            prev.1
        };
        assert(cur.push(c).drop_last() =~= cur);
        if cut {
            assert(sum_w(Seq::<char>::empty()) == 0);
        }
    }
}

/// The hard-wrap prefix scan agrees with the hard-wrapped chunks: the
/// complete rows end at the end of the text when the last chunk fills the
/// width, else where the last chunk starts; and the prefix ends at a wrap
/// exactly when it is not empty.
pub proof fn lemma_hard_prefix_matches_wrap(s: Seq<char>, width: nat)
    ensures
        ({
            let w = if width == 0 {
                1
            } else {
                width
            };
            let cs = hard_wrap(s, w);
            let last = cs.last();
            &&& hard_prefix(s, width).0 == if sum_w(last) >= w {
                s.len() as int
            } else {
                s.len() - last.len()
            }
            &&& hard_prefix(s, width).1 == (hard_prefix(s, width).0 > 0)
        }),
{
    let w = if width == 0 {
        1
    } else {
        width
    };
    lemma_hard_scan_state(s, w, s.len() as int);
    assert(s.take(s.len() as int) =~= s);
    let st = hard_wrap_state(s, w);
    assert(hard_scan(s, w, s.len() as int).1 == s.len() - st.1.len());
    if s.len() == 0 {
        let e = Seq::<char>::empty();
        assert(hard_wrap(s, w) == seq![e]);
        assert(seq![e].last() == e);
        assert(sum_w(e) == 0);
    } else if st.1.len() > 0 {
        assert(hard_wrap(s, w) == st.0.push(st.1));
        assert(st.0.push(st.1).last() == st.1);
    } else {
        assert(hard_wrap(s, w) == st.0);
    }
}

proof fn lemma_hard_scan(s: Seq<char>, w: nat, i: int)
    requires
        w >= 1,
        0 <= i <= s.len(),
    ensures
        hard_scan(s, w, i).0 < w,
        0 <= hard_scan(s, w, i).1 <= i,
    decreases i,
{
    if i > 0 {
        lemma_hard_scan(s, w, i - 1);
    }
}

fn hard_prefix_in(v: &[char], width: usize) -> (p: CompleteStreamPrefix)
    ensures
        (p.char_index as int, p.ends_with_wrap) == hard_prefix(v@, width as nat),
{
    let w = if width == 0 {
        1
    } else {
        width
    };
    let mut line_width: usize = 0;
    let mut last_complete: usize = 0;
    let mut i: usize = 0;
    while i < v.len()
        invariant
            w >= 1,
            w == (if width == 0 {
                1
            } else {
                width
            }),
            i <= v@.len(),
            hard_scan(v@, w as nat, i as int) == (line_width as nat, last_complete as int),
        decreases v@.len() - i,
    {
        proof {
            lemma_hard_scan(v@, w as nat, i as int);
        }
        let cw = char_display_width(v[i]);
        if line_width > 0 && cw > w - line_width {
            last_complete = i;
            line_width = 0;
        }
        if cw >= w - line_width {
            last_complete = i + 1;
            line_width = 0;
        } else {
            line_width = line_width + cw;
        }
        i += 1;
    }
    if last_complete == 0 {
        CompleteStreamPrefix { char_index: 0, ends_with_wrap: false }
    } else {
        CompleteStreamPrefix { char_index: last_complete, ends_with_wrap: true }
    }
}

/// The complete rows of `text` hard-wrapped at `width` columns.
pub fn complete_hard_wrap_prefix(text: &str, width: usize) -> (p: CompleteStreamPrefix)
    ensures
        (p.char_index as int, p.ends_with_wrap) == hard_prefix(text@, width as nat),
{
    let v = chars_of(text);
    hard_prefix_in(&v, width)
}

/// Searching the wrapped rows `r` of `s` backwards from row `k`: the end
/// of the last row known to be complete (followed by more text, or full).
pub open spec fn last_full_row(s: Seq<char>, r: Seq<(int, int)>, w: nat, k: int) -> Option<int>
    decreases k,
{
    if k <= 0 || k > r.len() {
        None
    } else if r[k - 1].1 < s.len() || display_w(s.subrange(r[k - 1].0, r[k - 1].1)) >= w {
        Some(r[k - 1].1)
    } else {
        last_full_row(s, r, w, k - 1)
    }
}

/// The complete rows of `s` wrapped at white space to `width` columns.
pub open spec fn word_prefix(s: Seq<char>, width: nat) -> (int, bool) {
    let w = if width == 0 {
        1
    } else {
        width
    };
    let r = ws_ranges(s, width);
    match last_full_row(s, r, w, r.len() as int) {
        None => (0, false),
        Some(e) => (e, true),
    }
}

fn word_prefix_in(v: &[char], width: usize) -> (p: CompleteStreamPrefix)
    requires
        text_fits(v@),
    ensures
        (p.char_index as int, p.ends_with_wrap) == word_prefix(v@, width as nat),
{
    let w = if width == 0 {
        1
    } else {
        width
    };
    let ranges = ranges_of_chars(v, width);
    proof {
        crate::wrap::lemma_ws_ranges_within(v@, width as nat);
    }
    let mut k = ranges.len();
    while k > 0
        invariant
            w == (if width == 0 {
                1
            } else {
                width
            }),
            k <= ranges@.len(),
            ranges_view(ranges@) == ws_ranges(v@, width as nat),
            text_fits(v@),
            forall|j: int| 0 <= j < ranges@.len() ==> 0 <= (#[trigger] ranges_view(ranges@)[j]).0 <= ranges_view(ranges@)[j].1 <= v@.len(),
            last_full_row(v@, ranges_view(ranges@), w as nat, ranges@.len() as int) == last_full_row(
                v@,
                ranges_view(ranges@),
                w as nat,
                k as int,
            ),
        decreases k,
    {
        let r = ranges[k - 1].start..ranges[k - 1].end;
        assert(ranges_view(ranges@)[k - 1] == (r.start as int, r.end as int));
        if r.end < v.len() {
            return CompleteStreamPrefix { char_index: r.end, ends_with_wrap: true };
        }
        let piece = string_of_range(v, r.start, r.end);
        proof {
            assert(3 * piece@.len() <= 3 * v@.len());
        }
        if display_width(piece.as_str()) >= w {
            return CompleteStreamPrefix { char_index: r.end, ends_with_wrap: true };
        }
        k -= 1;
    }
    CompleteStreamPrefix { char_index: 0, ends_with_wrap: false }
}

/// The complete rows of `text` wrapped at white space to `width` columns.
pub fn complete_word_wrap_prefix(text: &str, width: usize) -> (p: CompleteStreamPrefix)
    requires
        text_fits(text@),
    ensures
        (p.char_index as int, p.ends_with_wrap) == word_prefix(text@, width as nat),
{
    let v = chars_of(text);
    word_prefix_in(&v, width)
}

/// Where the line holding position `i` starts: just after the last line
/// break before `i`, or at zero.
pub open spec fn line_start_of(s: Seq<char>, i: int) -> int
    decreases i,
{
    if i <= 0 {
        0
    } else if s[i - 1] == '\n' {
        i
    } else {
        line_start_of(s, i - 1)
    }
}

pub proof fn lemma_line_start_of(s: Seq<char>, i: int)
    requires
        0 <= i <= s.len(),
    ensures
        0 <= line_start_of(s, i) <= i,
    decreases i,
{
    if i > 0 && s[i - 1] != '\n' {
        lemma_line_start_of(s, i - 1);
    }
}

pub(crate) fn line_start_in(v: &[char], upto: usize) -> (r: usize)
    requires
        upto <= v@.len(),
    ensures
        r == line_start_of(v@, upto as int),
{
    let mut i = upto;
    while i > 0 && v[i - 1] != '\n'
        invariant
            i <= upto <= v@.len(),
            line_start_of(v@, upto as int) == line_start_of(v@, i as int),
        decreases i,
    {
        i -= 1;
    }
    i
}

/// How far the streamed text can be rendered without a later chunk
/// changing it: the candidate, or the start of its line when that line is
/// a code-fence fragment or (outside code) has unresolved inline Markdown.
pub open spec fn safe_prefix_len(s: Seq<char>, cand: int, open: bool) -> int {
    let c = if cand < s.len() {
        cand
    } else {
        s.len() as int
    };
    let p = s.take(c);
    let ls = line_start_of(p, c);
    let cur = p.subrange(ls, c);
    if cur.len() == 0 {
        c
    } else if fence_fragment(cur) {
        ls
    } else if in_code_block_at(p, ls, open) || !unresolved_inline(cur) {
        c
    } else {
        ls
    }
}

fn safe_prefix_in(v: &[char], candidate: usize, in_code_block: bool) -> (r: usize)
    requires
        0 <= candidate,
    ensures
        r == safe_prefix_len(v@, candidate as int, in_code_block),
{
    let c = if candidate < v.len() {
        candidate
    } else {
        v.len()
    };
    let p = suffix_prefix(v, c);
    assert(p@ == v@.take(c as int));
    let ls = line_start_in(&p, c);
    proof {
        lemma_line_start_of(p@, c as int);
    }
    if ls == c {
        assert(p@.subrange(ls as int, c as int).len() == 0);
        return c;
    }
    let cur = suffix(&p, ls);
    assert(cur@ == p@.subrange(ls as int, c as int));
    if fence_fragment_in(&cur) {
        return ls;
    }
    if in_code_block_in(&p, ls, in_code_block) || !unresolved_in(&cur) {
        c
    } else {
        ls
    }
}

fn suffix_prefix(v: &[char], to: usize) -> (r: Vec<char>)
    requires
        to <= v@.len(),
    ensures
        r@ == v@.take(to as int),
{
    let mut r: Vec<char> = Vec::new();
    let mut i: usize = 0;
    while i < to
        invariant
            i <= to <= v@.len(),
            r@ == v@.take(i as int),
        decreases to - i,
    {
        r.push(v[i]);
        assert(v@.take(i as int + 1) =~= v@.take(i as int).push(v@[i as int]));
        i += 1;
    }
    r
}

/// How far `text` can be rendered without a later chunk changing it.
pub fn markdown_safe_prefix_len(text: &str, candidate_index: usize, in_code_block: bool) -> (r: usize)
    ensures
        r == safe_prefix_len(text@, candidate_index as int, in_code_block),
{
    let v = chars_of(text);
    safe_prefix_in(&v, candidate_index, in_code_block)
}

/// Scanning the candidate ends `1..=k` of the current line (which starts at
/// `ls` and reads `cur`): a candidate that is a safe prefix and renders to
/// exactly the settled rendering `rp` becomes the prefix (keeping `wrap`);
/// one that renders to something longer starting with `rp`, while its
/// source lost markers and does not end in white space, becomes the prefix
/// without a wrap.
pub open spec fn candidate_state(
    s: Seq<char>,
    ls: int,
    cur: Seq<char>,
    rp: Seq<char>,
    wrap: bool,
    open: bool,
    k: int,
) -> (int, bool)
    decreases k,
{
    if k <= 0 {
        (ls, false)
    } else {
        let prev = candidate_state(s, ls, cur, rp, wrap, open, k - 1);
        let abs = ls + k;
        if safe_prefix_len(s, abs, open) != abs {
            prev
        } else {
            let src = cur.take(k);
            let r = inline_text(src);
            if r == rp {
                (abs, wrap)
            } else if src.len() != r.len() && !is_white_space(src.last()) && r.len() >= rp.len()
                && r.take(rp.len() as int) == rp {
                (abs, false)
            } else {
                prev
            }
        }
    }
}

/// The part of a streamed reply that is settled: up to the start of its
/// last line, plus the complete rows of that line (hard-wrapped inside a
/// code block; otherwise wrapped at white space after resolving inline
/// Markdown, and mapped back to a source position that renders to them).
pub open spec fn stream_prefix(s: Seq<char>, width: nat, open: bool) -> (int, bool) {
    let ls = line_start_of(s, s.len() as int);
    let cur = s.subrange(ls, s.len() as int);
    if cur.len() == 0 || fence_fragment(cur) {
        (ls, false)
    } else if in_code_block_at(s, ls, open) {
        let (ci, wr) = hard_prefix(cur, code_content_width(width));
        if ci > 0 {
            (ls + ci, wr)
        } else {
            (ls, false)
        }
    } else {
        let rendered = inline_text(cur);
        let (ci, wr) = word_prefix(rendered, width);
        if ci == 0 {
            (ls, false)
        } else {
            candidate_state(s, ls, cur, rendered.take(ci), wr, open, cur.len() as int)
        }
    }
}

proof fn lemma_candidate_state_bound(
    s: Seq<char>,
    ls: int,
    cur: Seq<char>,
    rp: Seq<char>,
    wrap: bool,
    open: bool,
    k: int,
)
    requires
        0 <= k,
    ensures
        ls <= candidate_state(s, ls, cur, rp, wrap, open, k).0 <= ls + k,
    decreases k,
{
    if k > 0 {
        lemma_candidate_state_bound(s, ls, cur, rp, wrap, open, k - 1);
    }
}

/// The settled part of a streamed reply ends inside it.
pub proof fn lemma_stream_prefix_bound(s: Seq<char>, width: nat, open: bool)
    ensures
        0 <= stream_prefix(s, width, open).0 <= s.len(),
{
    let ls = line_start_of(s, s.len() as int);
    lemma_line_start_of(s, s.len() as int);
    let cur = s.subrange(ls, s.len() as int);
    let cw = code_content_width(width);
    let w = if cw == 0 {
        1
    } else {
        cw
    };
    lemma_hard_scan(cur, w, cur.len() as int);
    let rendered = inline_text(cur);
    let ci = word_prefix(rendered, width).0;
    lemma_candidate_state_bound(s, ls, cur, rendered.take(ci), word_prefix(rendered, width).1, open, cur.len() as int);
}

/// The settled part of a streamed reply: where it ends and whether it ends
/// at a wrap.
#[derive(Clone, Copy, Debug, Default, PartialEq, Eq, Structural)]
pub struct MarkdownStreamPrefix {
    pub char_index: usize,
    pub ends_with_wrap: bool,
}

pub(crate) fn chars_equal(a: &[char], b: &[char]) -> (r: bool)
    ensures
        r == (a@ == b@),
{
    if a.len() != b.len() {
        return false;
    }
    let mut i: usize = 0;
    while i < a.len()
        invariant
            a@.len() == b@.len(),
            i <= a@.len(),
            forall|k: int| 0 <= k < i ==> a@[k] == b@[k],
        decreases a@.len() - i,
    {
        if a[i] != b[i] {
            return false;
        }
        i += 1;
    }
    assert(a@ =~= b@);
    true
}

fn starts_with_chars(a: &[char], prefix: &[char]) -> (r: bool)
    ensures
        r == (a@.len() >= prefix@.len() && a@.take(prefix@.len() as int) == prefix@),
{
    if a.len() < prefix.len() {
        return false;
    }
    let mut i: usize = 0;
    while i < prefix.len()
        invariant
            a@.len() >= prefix@.len(),
            i <= prefix@.len(),
            forall|k: int| 0 <= k < i ==> a@[k] == prefix@[k],
        decreases prefix@.len() - i,
    {
        if a[i] != prefix[i] {
            assert(a@.take(prefix@.len() as int)[i as int] != prefix@[i as int]);
            return false;
        }
        i += 1;
    }
    assert(a@.take(prefix@.len() as int) =~= prefix@);
    true
}

/// The settled part of a streamed reply (see `stream_prefix`).
#[verifier::rlimit(40)]
pub fn markdown_stream_prefix(text: &str, width: usize, in_code_block: bool) -> (p: MarkdownStreamPrefix)
    requires
        text_fits(text@),
    ensures
        (p.char_index as int, p.ends_with_wrap) == stream_prefix(text@, width as nat, in_code_block),
{
    let v = chars_of(text);
    let n = v.len();
    let ls = line_start_in(&v, n);
    proof {
        lemma_line_start_of(v@, n as int);
    }
    let cur = suffix(&v, ls);
    let code = in_code_block_in(&v, ls, in_code_block);
    if cur.len() == 0 || fence_fragment_in(&cur) {
        return MarkdownStreamPrefix { char_index: ls, ends_with_wrap: false };
    }
    if code {
        let cw = code_block_stream_content_width(width);
        let complete = hard_prefix_in(&cur, cw);
        proof {
            lemma_hard_scan(cur@, if cw == 0 {
                1nat
            } else {
                cw as nat
            }, cur@.len() as int);
        }
        if complete.char_index > 0 {
            return MarkdownStreamPrefix {
                char_index: ls + complete.char_index,
                ends_with_wrap: complete.ends_with_wrap,
            };
        }
        return MarkdownStreamPrefix { char_index: ls, ends_with_wrap: false };
    }
    let cur_string = string_of(&cur);
    let rendered_string = markdown_inline_text(cur_string.as_str());
    let rendered = chars_of(rendered_string.as_str());
    proof {
        lemma_inline_text_len(cur@);
        assert(3 * rendered@.len() <= 3 * v@.len());
    }
    let complete = word_prefix_in(&rendered, width);
    if complete.char_index == 0 {
        return MarkdownStreamPrefix { char_index: ls, ends_with_wrap: false };
    }
    proof {
        crate::wrap::lemma_ws_ranges_within(rendered@, width as nat);
        lemma_last_full_row(rendered@, ws_ranges(rendered@, width as nat), if width == 0 {
            1nat
        } else {
            width as nat
        }, ws_ranges(rendered@, width as nat).len() as int);
    }
    let rendered_prefix = suffix_prefix(&rendered, complete.char_index);
    let ghost rp = rendered_prefix@;
    let wrap = complete.ends_with_wrap;
    let mut state = MarkdownStreamPrefix { char_index: ls, ends_with_wrap: false };
    let m = cur.len();
    let mut k: usize = 1;
    while k <= m
        invariant
            n == v@.len(),
            text_fits(v@),
            1 <= k <= m + 1,
            m == cur@.len(),
            ls + m == v@.len(),
            cur@ == v@.subrange(ls as int, v@.len() as int),
            rendered_prefix@ == rp,
            (state.char_index as int, state.ends_with_wrap) == candidate_state(
                v@,
                ls as int,
                cur@,
                rp,
                wrap,
                in_code_block,
                k - 1,
            ),
        decreases m + 1 - k,
    {
        let abs = ls + k;
        if safe_prefix_in(&v, abs, in_code_block) == abs {
            let src = suffix_prefix(&cur, k);
            let src_string = string_of(&src);
            let r_string = markdown_inline_text(src_string.as_str());
            let r = chars_of(r_string.as_str());
            if chars_equal(&r, &rendered_prefix) {
                state = MarkdownStreamPrefix { char_index: abs, ends_with_wrap: wrap };
            } else if src.len() != r.len() && !is_whitespace(src[src.len() - 1]) && starts_with_chars(
                &r,
                &rendered_prefix,
            ) {
                state = MarkdownStreamPrefix { char_index: abs, ends_with_wrap: false };
            }
        }
        k += 1;
    }
    state
}

proof fn lemma_last_full_row(s: Seq<char>, r: Seq<(int, int)>, w: nat, k: int)
    requires
        0 <= k <= r.len(),
        forall|j: int| 0 <= j < r.len() ==> 0 <= (#[trigger] r[j]).0 <= r[j].1 <= s.len(),
    ensures
        last_full_row(s, r, w, k) matches Some(e) ==> 0 <= e <= s.len(),
    decreases k,
{
    if k > 0 {
        lemma_last_full_row(s, r, w, k - 1);
    }
}

} // verus!

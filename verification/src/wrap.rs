//! Word wrapping at white space, visual lines of the composer and the
//! complete-line prefixes used while streaming text.
use vstd::prelude::*;
use std::ops::Range;
use crate::text::{chars_of, is_white_space, is_whitespace, string_of, string_of_range, text_fits};
use crate::composer::{byte_index_of, byte_offset, bytes_fit, edit_at, strip_cr};
use crate::width::{
    char_display_width, char_w, display_w, display_width, fit_len, hard_wrap, is_fit_len, strings_view,
    wrap_line_hard, lemma_hard_wrap_keeps_text, hard_wrap_state, chunk_fits, sum_w, lemma_sum_w_mono,
};
use vstd::seq_lib::lemma_flatten_alt_concat;

verus! {

/// State of the scan for one wrapped line that starts at `start`.
pub struct WsScan {
    pub count: nat,
    pub last_fit: Option<nat>,
    pub ws_break: Option<nat>,
    pub saw_text: bool,
    pub overflow: bool,
    pub prefer_width: bool,
}

/// The scan after looking at the characters `start..i` of `line`: widths
/// add up until the next character would pass `width`; the last position
/// that still fits and the last white-space break after some text are kept.
pub open spec fn ws_scan(line: Seq<char>, start: int, i: int, width: nat) -> WsScan
    decreases i - start,
{
    if i <= start {
        WsScan {
            count: 0,
            last_fit: None,
            ws_break: None,
            saw_text: false,
            overflow: false,
            prefer_width: false,
        }
    } else {
        let p = ws_scan(line, start, i - 1, width);
        let ch = line[i - 1];
        let w = char_w(ch);
        if p.overflow {
            p
        } else if p.count > 0 && p.count + w > width {
            WsScan { overflow: true, prefer_width: is_white_space(ch), ..p }
        } else {
            WsScan {
                count: p.count + w,
                last_fit: Some(i as nat),
                ws_break: if is_white_space(ch) && p.saw_text {
                    Some(i as nat)
                } else {
                    p.ws_break
                },
                saw_text: p.saw_text || !is_white_space(ch),
                overflow: false,
                prefer_width: false,
            }
        }
    }
}

/// Where the wrapped line starting at `start` ends, or `None` when the rest
/// of `line` fits.
pub open spec fn ws_split(line: Seq<char>, start: int, width: nat) -> Option<nat> {
    let sc = ws_scan(line, start, line.len() as int, width);
    if !sc.overflow {
        None
    } else if sc.prefer_width {
        sc.last_fit
    } else {
        match sc.ws_break {
            Some(b) => if b > start {
                Some(b)
            } else {
                sc.last_fit
            },
            None => sc.last_fit,
        }
    }
}

/// The wrapped lines of `line` from `start` on, as character ranges.
pub open spec fn ws_ranges_from(line: Seq<char>, start: int, width: nat) -> Seq<(int, int)>
    decreases line.len() - start,
{
    if start >= line.len() {
        Seq::empty()
    } else {
        match ws_split(line, start, width) {
            None => seq![(start, line.len() as int)],
            Some(split) => if start < split <= line.len() {
                seq![(start, split as int)] + ws_ranges_from(line, split as int, width)
            } else {
                Seq::empty()
            },
        }
    }
}

/// The wrapped lines of `line` for a width of `width` columns: a line breaks
/// after its last white space when the next character would overflow,
/// or right before that character when there is no such break.
pub open spec fn ws_ranges(line: Seq<char>, width: nat) -> Seq<(int, int)> {
    let w = if width == 0 {
        1
    } else {
        width
    };
    if line.len() == 0 {
        seq![(0, 0)]
    } else {
        ws_ranges_from(line, 0, w)
    }
}

pub open spec fn ranges_view(v: Seq<Range<usize>>) -> Seq<(int, int)> {
    Seq::new(v.len(), |i: int| (v[i].start as int, v[i].end as int))
}

proof fn lemma_ws_scan_facts(line: Seq<char>, start: int, i: int, width: nat)
    requires
        0 <= start <= i <= line.len(),
        width >= 1,
    ensures
        ws_scan(line, start, i, width).last_fit matches Some(k) ==> start < k <= i,
        ws_scan(line, start, i, width).ws_break matches Some(k) ==> start < k <= i,
        ws_scan(line, start, i, width).count > 0 ==> ws_scan(line, start, i, width).last_fit
            is Some,
        ws_scan(line, start, i, width).overflow ==> ws_scan(line, start, i, width).last_fit
            is Some,
    decreases i - start,
{
    if i > start {
        lemma_ws_scan_facts(line, start, i - 1, width);
    }
}

proof fn lemma_ws_scan_frozen(line: Seq<char>, start: int, i: int, j: int, width: nat)
    requires
        start <= i <= j,
        ws_scan(line, start, i, width).overflow,
    ensures
        ws_scan(line, start, j, width) == ws_scan(line, start, i, width),
    decreases j - i,
{
    if j > i {
        lemma_ws_scan_frozen(line, start, i, j - 1, width);
    }
}

proof fn lemma_ws_split_bounds(line: Seq<char>, start: int, width: nat)
    requires
        0 <= start < line.len(),
        width >= 1,
    ensures
        ws_split(line, start, width) matches Some(k) ==> start < k <= line.len(),
{
    lemma_ws_scan_facts(line, start, line.len() as int, width);
}

/// Wraps the characters `v[start..]` once: returns where the first wrapped
/// line ends, or `None` when the rest fits.
fn split_from(v: &[char], start: usize, width: usize) -> (r: Option<usize>)
    requires
        start < v@.len(),
        width >= 1,
    ensures
        r matches Some(k) ==> ws_split(v@, start as int, width as nat) == Some(k as nat),
        r is None ==> ws_split(v@, start as int, width as nat) is None,
{
    let mut count: usize = 0;
    let mut last_fit: Option<usize> = None;
    let mut ws_break: Option<usize> = None;
    let mut saw_text = false;
    let mut overflow = false;
    let mut prefer_width = false;
    let mut i = start;
    while i < v.len() && !overflow
        invariant
            start <= i <= v@.len(),
            width >= 1,
            ({
                let sc = if overflow {
                    ws_scan(v@, start as int, v@.len() as int, width as nat)
                } else {
                    ws_scan(v@, start as int, i as int, width as nat)
                };
                &&& sc.count == count as nat
                &&& sc.last_fit == (match last_fit {
                    Some(k) => Some(k as nat),
                    None => None,
                })
                &&& sc.ws_break == (match ws_break {
                    Some(k) => Some(k as nat),
                    None => None,
                })
                &&& sc.saw_text == saw_text
                &&& sc.overflow == overflow
                &&& (overflow ==> sc.prefer_width == prefer_width)
            }),
            count <= width || count <= 3,
        decreases v.len() - i, (if overflow { 0int } else { 1int }),
    {
        let ch = v[i];
        let w = char_display_width(ch);
        let ws = is_whitespace(ch);
        if count > 0 && (count > width || w > width - count) {
            overflow = true;
            prefer_width = ws;
            proof {
                lemma_ws_scan_frozen(v@, start as int, i as int + 1, v@.len() as int, width as nat);
            }
        } else {
            count = count + w;
            last_fit = Some(i + 1);
            if ws {
                if saw_text {
                    ws_break = Some(i + 1);
                }
            } else {
                saw_text = true;
            }
            i += 1;
        }
    }
    proof {
        lemma_ws_scan_facts(v@, start as int, v@.len() as int, width as nat);
    }
    if !overflow {
        return None;
    }
    if prefer_width {
        return last_fit;
    }
    match ws_break {
        Some(b) => if b > start {
            Some(b)
        } else {
            last_fit
        },
        None => last_fit,
    }
}

/// The wrapped lines of `line` as character ranges: a line is cut after its
/// last white space once the next character would pass `width` columns, or
/// right before that character when no such break exists.
pub fn wrap_line_at_whitespace_ranges(line: &str, width: usize) -> (ranges: Vec<Range<usize>>)
    ensures
        ranges_view(ranges@) == ws_ranges(line@, width as nat),
{
    let v = chars_of(line);
    ranges_of_chars(&v, width)
}

/// `wrap_line_at_whitespace_ranges` on a character slice.
pub fn ranges_of_chars(v: &[char], width: usize) -> (ranges: Vec<Range<usize>>)
    ensures
        ranges_view(ranges@) == ws_ranges(v@, width as nat),
{
    let ghost w0 = width;
    let wd = if width == 0 {
        1
    } else {
        width
    };
    let mut ranges: Vec<Range<usize>> = Vec::new();
    if v.len() == 0 {
        ranges.push(0..0);
        assert(ranges_view(ranges@) =~= seq![(0int, 0int)]);
        return ranges;
    }
    let mut start: usize = 0;
    assert(ranges_view(ranges@) + ws_ranges_from(v@, 0, wd as nat) =~= ws_ranges_from(
        v@,
        0,
        wd as nat,
    ));
    assert(ws_ranges(v@, w0 as nat) == ws_ranges_from(v@, 0, wd as nat));
    while start < v.len()
        invariant
            start <= v@.len(),
            wd >= 1,
            v@.len() > 0,
            ws_ranges(v@, w0 as nat) == ws_ranges_from(v@, 0, wd as nat),
            w0 == width,
            ranges_view(ranges@) + ws_ranges_from(v@, start as int, wd as nat)
                == ws_ranges_from(v@, 0, wd as nat),
        decreases v.len() - start,
    {
        proof {
            lemma_ws_split_bounds(v@, start as int, wd as nat);
        }
        let ghost before = ranges@;
        match split_from(v, start, wd) {
            None => {
                assert(ws_ranges_from(v@, start as int, wd as nat) == seq![
                    (start as int, v@.len() as int),
                ]);
                ranges.push(start..v.len());
                assert(ranges_view(ranges@) =~= ranges_view(before) + seq![
                    (start as int, v@.len() as int),
                ]);
                assert(ranges_view(before) + ws_ranges_from(v@, start as int, wd as nat)
                    == ws_ranges_from(v@, 0, wd as nat));
                assert(ranges_view(ranges@) == ws_ranges(v@, w0 as nat));
                return ranges;
            },
            Some(split) => {
                ranges.push(start..split);
                assert(ranges_view(ranges@) =~= ranges_view(before) + seq![
                    (start as int, split as int),
                ]);
                assert(ranges_view(ranges@) + ws_ranges_from(v@, split as int, wd as nat)
                    =~= ranges_view(before) + ws_ranges_from(v@, start as int, wd as nat));
                start = split;
            },
        }
    }
    assert(ranges_view(ranges@) + ws_ranges_from(v@, start as int, wd as nat) =~= ranges_view(
        ranges@,
    ));
    ranges
}

/// The wrapped lines of `line` as strings.
pub open spec fn ws_lines(line: Seq<char>, width: nat) -> Seq<Seq<char>> {
    let r = ws_ranges(line, width);
    Seq::new(r.len(), |i: int| line.subrange(r[i].0, r[i].1))
}

/// Whitespace wrapping covers the whole line: the ranges start at zero,
/// follow each other without gaps, are never empty and end at the line's
/// end.
pub proof fn lemma_ws_ranges_cover(line: Seq<char>, width: nat)
    requires
        line.len() > 0,
    ensures
        ws_ranges(line, width).len() >= 1,
        ws_ranges(line, width)[0].0 == 0,
        ws_ranges(line, width).last().1 == line.len(),
        forall|i: int|
            0 <= i < ws_ranges(line, width).len() ==> #[trigger] ws_ranges(line, width)[i].0
                < ws_ranges(line, width)[i].1,
        forall|i: int|
            0 <= i < ws_ranges(line, width).len() - 1 ==> #[trigger] ws_ranges(line, width)[i].1
                == ws_ranges(line, width)[i + 1].0,
{
    let w = if width == 0 {
        1
    } else {
        width
    };
    lemma_ws_ranges_from_cover(line, 0, w);
}

proof fn lemma_ws_ranges_from_cover(line: Seq<char>, start: int, width: nat)
    requires
        0 <= start < line.len(),
        width >= 1,
    ensures
        ws_ranges_from(line, start, width).len() >= 1,
        ws_ranges_from(line, start, width)[0].0 == start,
        ws_ranges_from(line, start, width).last().1 == line.len(),
        forall|i: int|
            0 <= i < ws_ranges_from(line, start, width).len() ==> #[trigger] ws_ranges_from(
                line,
                start,
                width,
            )[i].0 < ws_ranges_from(line, start, width)[i].1,
        forall|i: int|
            0 <= i < ws_ranges_from(line, start, width).len() - 1 ==> #[trigger] ws_ranges_from(
                line,
                start,
                width,
            )[i].1 == ws_ranges_from(line, start, width)[i + 1].0,
    decreases line.len() - start,
{
    lemma_ws_split_bounds(line, start, width);
    let r = ws_ranges_from(line, start, width);
    match ws_split(line, start, width) {
        None => {},
        Some(split) => {
            if split < line.len() {
                lemma_ws_ranges_from_cover(line, split as int, width);
                let rest = ws_ranges_from(line, split as int, width);
                assert(r == seq![(start, split as int)] + rest);
                assert forall|i: int| 0 <= i < r.len() implies #[trigger] r[i].0 < r[i].1 by {
                    if i > 0 {
                        assert(r[i] == rest[i - 1]);
                    }
                }
                assert forall|i: int| 0 <= i < r.len() - 1 implies #[trigger] r[i].1 == r[i
                    + 1].0 by {
                    if i > 0 {
                        assert(r[i] == rest[i - 1]);
                        assert(r[i + 1] == rest[i]);
                    }
                }
                assert(r.last() == rest.last());
            } else {
                assert(ws_ranges_from(line, split as int, width) =~= Seq::<(int, int)>::empty());
                assert(r =~= seq![(start, split as int)]);
            }
        },
    }
}

/// `line` wrapped at white space into strings of at most `width` columns
/// (a line is wider only when all its characters but the last are
/// zero-width; see `lemma_ws_lines_fit`).
pub fn wrap_line_at_whitespace(line: &str, width: usize) -> (lines: Vec<String>)
    ensures
        strings_view(lines@) == ws_lines(line@, width as nat),
{
    let v = chars_of(line);
    let ranges = ranges_of_chars(&v, width);
    proof {
        if v@.len() > 0 {
            lemma_ws_ranges_cover(v@, width as nat);
        }
    }
    let mut lines: Vec<String> = Vec::new();
    let mut i: usize = 0;
    let ghost rv = ranges_view(ranges@);
    proof {
        if v@.len() == 0 {
            assert(rv[0] == (0int, 0int));
        }
    }
    while i < ranges.len()
        invariant
            i <= ranges@.len(),
            v@ == line@,
            rv == ranges_view(ranges@),
            rv == ws_ranges(line@, width as nat),
            v@.len() > 0 ==> (forall|j: int| 0 <= j < rv.len() ==> #[trigger] rv[j].0 < rv[j].1),
            v@.len() > 0 ==> rv.len() >= 1 && rv[0].0 == 0 && rv.last().1 == v@.len(),
            v@.len() > 0 ==> (forall|j: int|
                0 <= j < rv.len() - 1 ==> #[trigger] rv[j].1 == rv[j + 1].0),
            v@.len() == 0 ==> rv.len() == 1 && rv[0] == (0int, 0int),
            strings_view(lines@) == ws_lines(line@, width as nat).take(i as int),
        decreases ranges.len() - i,
    {
        let rs = ranges[i].start;
        let re = ranges[i].end;
        proof {
            assert(rv[i as int] == (rs as int, re as int));
            if v@.len() > 0 {
                lemma_ranges_within(rv, v@.len() as int, i as int);
            }
        }
        let s = string_of_range(&v, rs, re);
        let ghost before = lines@;
        lines.push(s);
        assert(strings_view(lines@) =~= strings_view(before).push(s@));
        assert(ws_lines(line@, width as nat).take(i as int + 1) =~= ws_lines(
            line@,
            width as nat,
        ).take(i as int).push(s@));
        i += 1;
    }
    assert(ws_lines(line@, width as nat).take(ranges@.len() as int) =~= ws_lines(
        line@,
        width as nat,
    ));
    lines
}

pub proof fn lemma_ranges_within(r: Seq<(int, int)>, len: int, i: int)
    requires
        r.len() >= 1,
        r[0].0 == 0,
        r.last().1 == len,
        forall|j: int| 0 <= j < r.len() ==> #[trigger] r[j].0 < r[j].1,
        forall|j: int| 0 <= j < r.len() - 1 ==> #[trigger] r[j].1 == r[j + 1].0,
        0 <= i < r.len(),
    ensures
        0 <= r[i].0 < r[i].1 <= len,
        0 <= i ==> r[0].0 <= r[i].0,
{
    lemma_ranges_up(r, i);
    lemma_ranges_down(r, len, i);
}

proof fn lemma_ranges_up(r: Seq<(int, int)>, i: int)
    requires
        r.len() >= 1,
        r[0].0 == 0,
        forall|j: int| 0 <= j < r.len() ==> #[trigger] r[j].0 < r[j].1,
        forall|j: int| 0 <= j < r.len() - 1 ==> #[trigger] r[j].1 == r[j + 1].0,
        0 <= i < r.len(),
    ensures
        0 <= r[i].0,
    decreases i,
{
    if i > 0 {
        lemma_ranges_up(r, i - 1);
        assert(r[i - 1].1 == r[i].0);
        assert(r[i - 1].0 < r[i - 1].1);
    }
}

proof fn lemma_ranges_down(r: Seq<(int, int)>, len: int, i: int)
    requires
        r.len() >= 1,
        r.last().1 == len,
        forall|j: int| 0 <= j < r.len() ==> #[trigger] r[j].0 < r[j].1,
        forall|j: int| 0 <= j < r.len() - 1 ==> #[trigger] r[j].1 == r[j + 1].0,
        0 <= i < r.len(),
    ensures
        r[i].1 <= len,
    decreases r.len() - i,
{
    if i < r.len() - 1 {
        lemma_ranges_down(r, len, i + 1);
        assert(r[i].1 == r[i + 1].0);
        assert(r[i + 1].0 < r[i + 1].1);
    }
}


/// Whether the wrapped line `r` of `line` is complete: it is followed by
/// more text, or it fills the whole width.
pub open spec fn range_complete(line: Seq<char>, r: (int, int), width: nat) -> bool {
    let w = if width == 0 {
        1
    } else {
        width
    };
    r.1 < line.len() || display_w(line.subrange(r.0, r.1)) >= w
}

/// Ends (shifted by `offset`) of the complete wrapped lines among `rs`.
pub open spec fn word_ends_of(
    line: Seq<char>,
    rs: Seq<(int, int)>,
    offset: int,
    width: nat,
) -> Seq<(int, char)>
    decreases rs.len(),
{
    if rs.len() == 0 {
        Seq::empty()
    } else {
        let prev = word_ends_of(line, rs.drop_last(), offset, width);
        if range_complete(line, rs.last(), width) {
            prev.push((offset + rs.last().1, 'x'))
        } else {
            prev
        }
    }
}

/// Ends of the complete wrapped lines of `line`, shifted by `offset`.
pub open spec fn word_ends(line: Seq<char>, offset: int, width: nat) -> Seq<(int, char)> {
    word_ends_of(line, ws_ranges(line, width), offset, width)
}

pub open spec fn ends_view(v: Seq<(usize, char)>) -> Seq<(int, char)> {
    Seq::new(v.len(), |i: int| (v[i].0 as int, v[i].1))
}

/// Ends of the wrapped lines of `line` that are complete, shifted by
/// `offset` and tagged `'x'`.
pub fn complete_word_wrapped_line_ends(line: &str, offset: usize, width: usize) -> (ends: Vec<(usize, char)>)
    requires
        text_fits(line@),
        offset + line@.len() <= usize::MAX,
    ensures
        ends_view(ends@) == word_ends(line@, offset as int, width as nat),
{
    let v = chars_of(line);
    assert(v@.subrange(0, v@.len() as int) =~= v@);
    word_ends_of_chars(&v, 0, v.len(), offset, width)
}

/// `complete_word_wrapped_line_ends` on `v[from..to]`.
fn word_ends_of_chars(v: &[char], from: usize, to: usize, offset: usize, width: usize) -> (ends: Vec<(usize, char)>)
    requires
        from <= to <= v@.len(),
        text_fits(v@),
        offset + (to - from) <= usize::MAX,
    ensures
        ends_view(ends@) == word_ends(v@.subrange(from as int, to as int), offset as int, width as nat),
{
    let mut piece: Vec<char> = Vec::new();
    let mut k = from;
    while k < to
        invariant
            from <= k <= to <= v@.len(),
            piece@ == v@.subrange(from as int, k as int),
        decreases to - k,
    {
        piece.push(v[k]);
        assert(v@.subrange(from as int, k as int + 1) =~= v@.subrange(from as int, k as int).push(v@[k as int]));
        k += 1;
    }
    let line = piece;
    let ghost l = line@;
    let ranges = ranges_of_chars(&line, width);
    let ghost rv = ranges_view(ranges@);
    let wd = if width == 0 {
        1
    } else {
        width
    };
    proof {
        if l.len() > 0 {
            lemma_ws_ranges_cover(l, width as nat);
        } else {
            assert(rv[0] == (0int, 0int));
        }
    }
    let mut ends: Vec<(usize, char)> = Vec::new();
    let mut i: usize = 0;
    while i < ranges.len()
        invariant
            i <= ranges@.len(),
            l == line@,
            l.len() == to - from,
            3 * l.len() <= usize::MAX,
            offset + l.len() <= usize::MAX,
            rv == ranges_view(ranges@),
            rv == ws_ranges(l, width as nat),
            wd == (if width == 0 { 1 } else { width }),
            l.len() > 0 ==> (forall|j: int| 0 <= j < rv.len() ==> #[trigger] rv[j].0 < rv[j].1),
            l.len() > 0 ==> rv.len() >= 1 && rv[0].0 == 0 && rv.last().1 == l.len(),
            l.len() > 0 ==> (forall|j: int| 0 <= j < rv.len() - 1 ==> #[trigger] rv[j].1 == rv[j + 1].0),
            l.len() == 0 ==> rv.len() == 1 && rv[0] == (0int, 0int),
            ends_view(ends@) == word_ends_of(l, rv.take(i as int), offset as int, width as nat),
        decreases ranges.len() - i,
    {
        let rs = ranges[i].start;
        let re = ranges[i].end;
        proof {
            assert(rv[i as int] == (rs as int, re as int));
            if l.len() > 0 {
                lemma_ranges_within(rv, l.len() as int, i as int);
            }
            assert(rv.take(i as int + 1).drop_last() =~= rv.take(i as int));
            assert(rv.take(i as int + 1).last() == rv[i as int]);
        }
        let keep = if re < line.len() {
            true
        } else {
            let sub = string_of_range(&line, rs, re);
            proof {
                assert(3 * sub@.len() <= usize::MAX);
            }
            display_width(sub.as_str()) >= wd
        };
        let ghost before = ends@;
        if keep {
            ends.push((offset + re, 'x'));
            assert(ends_view(ends@) =~= ends_view(before).push((offset + re, 'x')));
        }
        i += 1;
    }
    assert(rv.take(ranges@.len() as int) =~= rv);
    ends
}

/// Index of the first line break of `s` at or after `from` (or the length).
pub open spec fn next_nl(s: Seq<char>, from: int) -> int
    decreases s.len() - from,
{
    if from >= s.len() {
        s.len() as int
    } else if s[from] == '\n' {
        from
    } else {
        next_nl(s, from + 1)
    }
}

pub proof fn lemma_next_nl(s: Seq<char>, from: int)
    requires
        0 <= from,
    ensures
        from <= next_nl(s, from) || (from > s.len() && next_nl(s, from) == s.len()),
        next_nl(s, from) <= s.len() || from > s.len(),
        next_nl(s, from) < s.len() ==> s[next_nl(s, from)] == '\n',
        forall|k: int| from <= k < next_nl(s, from) ==> s[k] != '\n',
    decreases s.len() - from,
{
    if from < s.len() && s[from] != '\n' {
        lemma_next_nl(s, from + 1);
    }
}

pub proof fn lemma_next_nl_at(s: Seq<char>, from: int, n: int)
    requires
        0 <= from <= n <= s.len(),
        forall|k: int| from <= k < n ==> s[k] != '\n',
        n == s.len() || s[n] == '\n',
    ensures
        next_nl(s, from) == n,
    decreases n - from,
{
    if from < n {
        lemma_next_nl_at(s, from + 1, n);
    }
}

/// Ends of the complete visual lines of `s` from `start` on: each line
/// break ends a line (tagged `'\n'`), and inside a line every complete
/// wrapped line ends one (tagged `'x'`).
pub open spec fn visual_ends_from(s: Seq<char>, start: int, width: nat) -> Seq<(int, char)>
    decreases s.len() - start,
{
    if start < 0 || start >= s.len() {
        Seq::empty()
    } else {
        let n = next_nl(s, start);
        if start <= n < s.len() {
            word_ends(s.subrange(start, n), start, width) + seq![(n + 1, '\n')]
                + visual_ends_from(s, n + 1, width)
        } else {
            word_ends(s.subrange(start, s.len() as int), start, width)
        }
    }
}

pub open spec fn visual_ends(s: Seq<char>, width: nat) -> Seq<(int, char)> {
    let w = if width == 0 {
        1
    } else {
        width
    };
    visual_ends_from(s, 0, w)
}

/// Ends of the complete visual lines of `text` at `width` columns.
pub fn complete_visual_line_ends(text: &str, width: usize) -> (ends: Vec<(usize, char)>)
    requires
        text_fits(text@),
    ensures
        ends_view(ends@) == visual_ends(text@, width as nat),
{
    let v = chars_of(text);
    visual_ends_of_chars(&v, width)
}

fn visual_ends_of_chars(v: &[char], width: usize) -> (ends: Vec<(usize, char)>)
    requires
        text_fits(v@),
    ensures
        ends_view(ends@) == visual_ends(v@, width as nat),
{
    let wd = if width == 0 {
        1
    } else {
        width
    };
    let mut ends: Vec<(usize, char)> = Vec::new();
    let mut line_start: usize = 0;
    let mut i: usize = 0;
    assert(ends_view(ends@) + visual_ends_from(v@, 0, wd as nat) =~= visual_ends_from(v@, 0, wd as nat));
    while i < v.len()
        invariant
            line_start <= i <= v@.len(),
            text_fits(v@),
            wd >= 1,
            visual_ends(v@, width as nat) == visual_ends_from(v@, 0, wd as nat),
            forall|k: int| line_start <= k < i ==> v@[k] != '\n',
            ends_view(ends@) + visual_ends_from(v@, line_start as int, wd as nat) == visual_ends_from(v@, 0, wd as nat),
        decreases v.len() - i,
    {
        if v[i] == '\n' {
            proof {
                lemma_next_nl_at(v@, line_start as int, i as int);
            }
            let part = word_ends_of_chars(v, line_start, i, line_start, wd);
            proof {
                assert(word_ends(v@.subrange(line_start as int, i as int), line_start as int, wd as nat)
                    == ends_view(part@));
            }
            let ghost before = ends@;
            let mut k: usize = 0;
            while k < part.len()
                invariant
                    k <= part@.len(),
                    ends_view(ends@) == ends_view(before) + ends_view(part@).take(k as int),
                decreases part.len() - k,
            {
                let ghost b = ends@;
                ends.push(part[k]);
                assert(ends_view(ends@) =~= ends_view(b).push(ends_view(part@)[k as int]));
                assert(ends_view(part@).take(k as int + 1) =~= ends_view(part@).take(k as int).push(ends_view(part@)[k as int]));
                k += 1;
            }
            assert(ends_view(part@).take(part@.len() as int) =~= ends_view(part@));
            let ghost b2 = ends@;
            ends.push((i + 1, '\n'));
            assert(ends_view(ends@) =~= ends_view(b2).push((i + 1, '\n')));
            assert(ends_view(ends@) + visual_ends_from(v@, i as int + 1, wd as nat) =~= ends_view(before)
                + (ends_view(part@) + seq![(i as int + 1, '\n')] + visual_ends_from(v@, i as int + 1, wd as nat)));
            line_start = i + 1;
        }
        i += 1;
    }
    if line_start < v.len() {
        proof {
            lemma_next_nl_at(v@, line_start as int, v@.len() as int);
        }
        let part = word_ends_of_chars(v, line_start, v.len(), line_start, wd);
        let ghost before = ends@;
        let mut k: usize = 0;
        while k < part.len()
            invariant
                k <= part@.len(),
                ends_view(ends@) == ends_view(before) + ends_view(part@).take(k as int),
            decreases part.len() - k,
        {
            let ghost b = ends@;
            ends.push(part[k]);
            assert(ends_view(ends@) =~= ends_view(b).push(ends_view(part@)[k as int]));
            assert(ends_view(part@).take(k as int + 1) =~= ends_view(part@).take(k as int).push(ends_view(part@)[k as int]));
            k += 1;
        }
        assert(ends_view(part@).take(part@.len() as int) =~= ends_view(part@));
    } else {
        assert(ends_view(ends@) + visual_ends_from(v@, line_start as int, wd as nat) =~= ends_view(ends@));
    }
    ends
}

/// Where the complete visual lines of a text end, and whether the last of
/// them ends by wrapping rather than at a line break.
#[derive(Clone, Copy, Debug, PartialEq, Eq, Default)]
pub struct CompleteVisualPrefix {
    pub char_index: usize,
    pub ends_with_wrap: bool,
}

pub open spec fn visual_prefix(s: Seq<char>, width: nat) -> (int, bool) {
    let e = visual_ends(s, width);
    if e.len() == 0 {
        (0, false)
    } else {
        (e.last().0, e.last().1 != '\n')
    }
}

/// The longest prefix of `text` made of complete visual lines.
pub fn complete_visual_prefix(text: &str, width: usize) -> (p: CompleteVisualPrefix)
    requires
        text_fits(text@),
    ensures
        (p.char_index as int, p.ends_with_wrap) == visual_prefix(text@, width as nat),
{
    let ends = complete_visual_line_ends(text, width);
    if ends.len() == 0 {
        CompleteVisualPrefix { char_index: 0, ends_with_wrap: false }
    } else {
        let (index, ch) = ends[ends.len() - 1];
        assert(ends_view(ends@).last() == (index as int, ch));
        CompleteVisualPrefix { char_index: index, ends_with_wrap: ch != '\n' }
    }
}

/// The byte offset in `text` where its complete visual lines end (see
/// `complete_visual_prefix`).
pub fn complete_visual_prefix_byte_index(text: &str, width: usize) -> (b: usize)
    requires
        text_fits(text@),
        bytes_fit(text@),
    ensures
        b == byte_offset(text@, visual_prefix(text@, width as nat).0),
{
    let p = complete_visual_prefix(text, width);
    byte_index_of(text, p.char_index)
}

/// The pieces of `s` between occurrences of `sep` (`str::split(sep)`).
pub open spec fn split_on(s: Seq<char>, sep: char) -> Seq<Seq<char>>
    decreases s.len(),
{
    if s.len() == 0 {
        seq![Seq::empty()]
    } else {
        let p = split_on(s.drop_last(), sep);
        if s.last() == sep {
            p.push(Seq::empty())
        } else {
            p.update(p.len() - 1, p.last().push(s.last()))
        }
    }
}

pub proof fn lemma_split_on_nonempty(s: Seq<char>, sep: char)
    ensures
        split_on(s, sep).len() >= 1,
    decreases s.len(),
{
    if s.len() > 0 {
        lemma_split_on_nonempty(s.drop_last(), sep);
    }
}

/// The visual lines of the pieces: each piece hard-wrapped (an empty piece
/// gives one empty line).
pub open spec fn wrap_pieces(pieces: Seq<Seq<char>>, width: nat) -> Seq<Seq<char>>
    decreases pieces.len(),
{
    if pieces.len() == 0 {
        Seq::empty()
    } else {
        let w = hard_wrap(pieces.last(), width);
        wrap_pieces(pieces.drop_last(), width) + if w.len() == 0 {
            seq![Seq::<char>::empty()]
        } else {
            w
        }
    }
}

/// The visual lines of the composer text: every line of the input,
/// hard-wrapped at `width` columns.
pub open spec fn visual_lines(s: Seq<char>, width: nat) -> Seq<Seq<char>> {
    let w = if width == 0 {
        1
    } else {
        width
    };
    let lines = wrap_pieces(split_on(s, '\n'), w);
    if lines.len() == 0 {
        seq![Seq::empty()]
    } else {
        lines
    }
}

pub fn extend_strings(lines: &mut Vec<String>, more: Vec<String>)
    ensures
        strings_view(final(lines)@) == strings_view(old(lines)@) + strings_view(more@),
{
    let ghost before = lines@;
    let mut k: usize = 0;
    let mut more = more;
    let ghost m = more@;
    let mut rest: Vec<String> = Vec::new();
    while more.len() > 0
        invariant
            more@.len() <= m.len(),
            forall|j: int| 0 <= j < more@.len() ==> more@[j] == m[m.len() - more@.len() + j],
            strings_view(lines@) == strings_view(before) + strings_view(m).take(m.len() - more@.len()),
        decreases more.len(),
    {
        let s = more.remove(0);
        let ghost b = lines@;
        assert(s == m[m.len() - more@.len() - 1]);
        lines.push(s);
        assert(strings_view(lines@) =~= strings_view(b).push(s@));
        assert(strings_view(m).take(m.len() - more@.len()) =~= strings_view(m).take(m.len() - more@.len() - 1).push(s@));
    }
    assert(strings_view(m).take(m.len() as int) =~= strings_view(m));
}

/// The visual lines of `input` at `width` columns: its lines, each cut into
/// chunks of at most `width` columns.
pub fn input_visual_lines(input: &str, width: usize) -> (lines: Vec<String>)
    ensures
        strings_view(lines@) == visual_lines(input@, width as nat),
{
    let wd = if width == 0 {
        1
    } else {
        width
    };
    let v = chars_of(input);
    let mut lines: Vec<String> = Vec::new();
    let mut piece: Vec<char> = Vec::new();
    let mut i: usize = 0;
    proof {
        assert(v@.take(0) =~= Seq::<char>::empty());
        assert(strings_view(lines@) =~= Seq::<Seq<char>>::empty());
    }
    while i < v.len()
        invariant
            i <= v@.len(),
            v@ == input@,
            split_on(v@.take(i as int), '\n').len() >= 1,
            piece@ == split_on(v@.take(i as int), '\n').last(),
            strings_view(lines@) == wrap_pieces(split_on(v@.take(i as int), '\n').drop_last(), wd as nat),
        decreases v.len() - i,
    {
        let c = v[i];
        proof {
            assert(v@.take(i as int + 1).drop_last() =~= v@.take(i as int));
            lemma_split_on_nonempty(v@.take(i as int), '\n');
        }
        if c == '\n' {
            let s = string_of(&piece);
            let wrapped = wrap_line_hard(s.as_str(), wd);
            let ghost before = lines@;
            if wrapped.len() == 0 {
                lines.push(String::new());
                assert(strings_view(lines@) =~= strings_view(before) + seq![Seq::<char>::empty()]);
            } else {
                extend_strings(&mut lines, wrapped);
            }
            piece = Vec::new();
            proof {
                let p = split_on(v@.take(i as int), '\n');
                let q = split_on(v@.take(i as int + 1), '\n');
                assert(q.drop_last() =~= p);
                assert(p =~= p.drop_last().push(p.last()));
                assert(p.drop_last() =~= p.drop_last().push(p.last()).drop_last());
            }
        } else {
            piece.push(c);
            proof {
                let p = split_on(v@.take(i as int), '\n');
                let q = split_on(v@.take(i as int + 1), '\n');
                assert(q.drop_last() =~= p.drop_last());
            }
        }
        i += 1;
    }
    proof {
        assert(v@.take(v@.len() as int) =~= v@);
        lemma_split_on_nonempty(v@, '\n');
        let p = split_on(v@, '\n');
        assert(p =~= p.drop_last().push(p.last()));
    }
    let s = string_of(&piece);
    let wrapped = wrap_line_hard(s.as_str(), wd);
    let ghost before = lines@;
    if wrapped.len() == 0 {
        lines.push(String::new());
        assert(strings_view(lines@) =~= strings_view(before) + seq![Seq::<char>::empty()]);
    } else {
        extend_strings(&mut lines, wrapped);
    }
    if lines.len() == 0 {
        lines.push(String::new());
        assert(strings_view(lines@) =~= seq![Seq::<char>::empty()]);
    }
    lines
}

/// Character index in `input` where visual row `k` starts, given the
/// composer's visual lines: rows follow each other, and a line break between
/// two rows is skipped.
pub open spec fn row_start(input: Seq<char>, lines: Seq<Seq<char>>, k: nat) -> int
    decreases k,
{
    if k == 0 {
        0
    } else {
        let a = row_start(input, lines, (k - 1) as nat) + lines[k - 1].len();
        if 0 <= a < input.len() && input[a] == '\n' {
            a + 1
        } else {
            a
        }
    }
}

pub proof fn lemma_row_start_mono(input: Seq<char>, lines: Seq<Seq<char>>, j: nat, k: nat)
    requires
        j <= k,
    ensures
        row_start(input, lines, j) <= row_start(input, lines, k),
        0 <= row_start(input, lines, j),
    decreases k,
{
    if k > 0 {
        if j < k {
            lemma_row_start_mono(input, lines, j, (k - 1) as nat);
        }
        lemma_row_start_mono(input, lines, 0, (k - 1) as nat);
    }
}

/// Rows considered when looking for `target_row`.
pub open spec fn rows_before(lines: Seq<Seq<char>>, target_row: nat) -> nat {
    if target_row <= lines.len() {
        target_row
    } else {
        lines.len()
    }
}

/// Where the cursor lands for a click on visual row `target_row`, column
/// `target_column`: the start of that row plus the characters of the row
/// that fit before the column.
pub open spec fn cursor_on_visual_line(
    input: Seq<char>,
    lines: Seq<Seq<char>>,
    target_row: nat,
    target_column: nat,
    k: nat,
) -> bool {
    let start = row_start(input, lines, rows_before(lines, target_row));
    if target_row < lines.len() {
        exists|n: nat| is_fit_len(lines[target_row as int], target_column, n) && k == start + n
    } else {
        k == start
    }
}

pub open spec fn visual_rows_fit(input: Seq<char>, lines: Seq<Seq<char>>, target_row: nat) -> bool {
    row_start(input, lines, rows_before(lines, target_row)) + (if target_row < lines.len() {
        lines[target_row as int].len() as int
    } else {
        0
    }) <= usize::MAX
}

proof fn lemma_split_on_total(s: Seq<char>, sep: char)
    ensures
        split_on(s, sep).flatten_alt().len() <= s.len(),
    decreases s.len(),
{
    if s.len() > 0 {
        let p = split_on(s.drop_last(), sep);
        lemma_split_on_total(s.drop_last(), sep);
        lemma_split_on_nonempty(s.drop_last(), sep);
        if s.last() == sep {
            let q = p.push(Seq::<char>::empty());
            assert(q.drop_last() =~= p);
            assert(q.flatten_alt() == q.drop_last().flatten_alt() + q.last());
        } else {
            let q = p.update(p.len() - 1, p.last().push(s.last()));
            assert(q.drop_last() =~= p.drop_last());
            assert(q.flatten_alt() == q.drop_last().flatten_alt() + q.last());
            assert(p.flatten_alt() == p.drop_last().flatten_alt() + p.last());
        }
    } else {
        let q = seq![Seq::<char>::empty()];
        assert(q.drop_last() =~= Seq::<Seq<char>>::empty());
        assert(q.flatten_alt() == q.drop_last().flatten_alt() + q.last());
    }
}

proof fn lemma_wrap_pieces_total(pieces: Seq<Seq<char>>, width: nat)
    ensures
        wrap_pieces(pieces, width).flatten_alt().len() == pieces.flatten_alt().len(),
    decreases pieces.len(),
{
    if pieces.len() > 0 {
        lemma_wrap_pieces_total(pieces.drop_last(), width);
        let w = hard_wrap(pieces.last(), width);
        let tail = if w.len() == 0 {
            seq![Seq::<char>::empty()]
        } else {
            w
        };
        lemma_flatten_alt_concat(wrap_pieces(pieces.drop_last(), width), tail);
        lemma_hard_wrap_keeps_text(pieces.last(), width);
        if w.len() == 0 {
            assert(tail.drop_last() =~= Seq::<Seq<char>>::empty());
            assert(pieces.last().len() == 0);
        }
    }
}

proof fn lemma_row_start_bound(input: Seq<char>, lines: Seq<Seq<char>>, k: nat)
    requires
        k <= lines.len(),
    ensures
        row_start(input, lines, k) <= input.len() + lines.take(k as int).flatten_alt().len(),
    decreases k,
{
    if k > 0 {
        lemma_row_start_bound(input, lines, (k - 1) as nat);
        assert(lines.take(k as int).drop_last() =~= lines.take(k - 1));
    }
}

proof fn lemma_take_flatten_len(lines: Seq<Seq<char>>, j: int)
    requires
        0 <= j <= lines.len(),
    ensures
        lines.take(j).flatten_alt().len() <= lines.flatten_alt().len(),
{
    lemma_flatten_alt_concat(lines.take(j), lines.skip(j));
    assert(lines.take(j) + lines.skip(j) =~= lines);
}

proof fn lemma_visual_lines_total(s: Seq<char>, width: nat)
    ensures
        visual_lines(s, width).len() >= 1,
        visual_lines(s, width).flatten_alt().len() <= s.len(),
{
    let w = if width == 0 {
        1
    } else {
        width
    };
    let pieces = split_on(s, '\n');
    let lines = visual_lines(s, width);
    lemma_split_on_total(s, '\n');
    lemma_wrap_pieces_total(pieces, w);
    if wrap_pieces(pieces, w).len() == 0 {
        assert(lines.drop_last() =~= Seq::<Seq<char>>::empty());
    }
}

/// No visual line of the composer text is longer than the text.
pub proof fn lemma_visual_line_len(s: Seq<char>, width: nat)
    ensures
        visual_lines(s, width).len() >= 1,
        forall|k: int|
            0 <= k < visual_lines(s, width).len() ==> (#[trigger] visual_lines(s, width)[k]).len() <= s.len(),
{
    lemma_visual_lines_total(s, width);
    let lines = visual_lines(s, width);
    assert forall|k: int| 0 <= k < lines.len() implies (#[trigger] lines[k]).len() <= s.len() by {
        lines.lemma_flatten_length_ge_single_element_length(k);
    }
}

/// The rows of a composer text that fits the width arithmetic start and end
/// within the range of `usize`: rows never hold more characters than the
/// text.
pub proof fn lemma_visual_rows_fit(s: Seq<char>, width: nat, target_row: nat)
    requires
        text_fits(s),
    ensures
        visual_rows_fit(s, visual_lines(s, width), target_row),
{
    let lines = visual_lines(s, width);
    lemma_visual_lines_total(s, width);
    let rb = rows_before(lines, target_row);
    lemma_row_start_bound(s, lines, rb);
    if target_row < lines.len() {
        assert(lines.take(target_row as int + 1).drop_last() =~= lines.take(target_row as int));
        lemma_take_flatten_len(lines, target_row as int + 1);
    } else {
        lemma_take_flatten_len(lines, rb as int);
    }
}

proof fn lemma_hard_wrap_state_shape(s: Seq<char>, width: nat)
    ensures
        hard_wrap_state(s, width).2 > 0 ==> hard_wrap_state(s, width).1.len() > 0,
        s.len() > 0 ==> hard_wrap_state(s, width).0.len() > 0 || hard_wrap_state(s, width).1.len() > 0,
    decreases s.len(),
{
    if s.len() > 0 {
        lemma_hard_wrap_state_shape(s.drop_last(), width);
    }
}

/// Appending a character to a line either extends its last chunk or starts
/// a new chunk holding just that character.
proof fn lemma_hard_wrap_append(p: Seq<char>, c: char, width: nat)
    ensures
        hard_wrap(p, width).len() >= 1,
        ({
            let v = hard_wrap(p, width);
            let v2 = hard_wrap(p.push(c), width);
            v2 == v.update(v.len() - 1, v.last().push(c)) || v2 == v.push(seq![c])
        }),
{
    let q = p.push(c);
    assert(q.drop_last() =~= p);
    assert(q.last() == c);
    lemma_hard_wrap_state_shape(p, width);
    lemma_hard_wrap_state_shape(q, width);
    let st = hard_wrap_state(p, width);
    let v = hard_wrap(p, width);
    let v2 = hard_wrap(q, width);
    let w = char_w(c);
    if p.len() == 0 {
        assert(st == (Seq::<Seq<char>>::empty(), Seq::<char>::empty(), 0nat));
        let one = seq![c];
        assert(Seq::<char>::empty().push(c) =~= one);
        if w >= width {
            assert(v2 =~= seq![one]);
        } else {
            assert(v2 =~= seq![one]);
        }
        assert(v.update(0, v.last().push(c)) =~= seq![one]);
    } else if st.2 > 0 && st.2 + w > width {
        let one = seq![c];
        assert(Seq::<char>::empty().push(c) =~= one);
        assert(v == st.0.push(st.1));
        if w >= width {
            assert(v2 =~= st.0.push(st.1).push(one));
        } else {
            assert(v2 =~= st.0.push(st.1).push(one));
        }
    } else {
        if st.1.len() > 0 {
            assert(v == st.0.push(st.1));
            if st.2 + w >= width {
                assert(v2 =~= st.0.push(st.1.push(c)));
            } else {
                assert(v2 =~= st.0.push(st.1.push(c)));
            }
            assert(v.update(v.len() - 1, v.last().push(c)) =~= st.0.push(st.1.push(c)));
        } else {
            assert(v == st.0);
            let one = seq![c];
            assert(st.1.push(c) =~= one);
            if st.2 + w >= width {
                assert(v2 =~= st.0.push(one));
            } else {
                assert(v2 =~= st.0.push(one));
            }
        }
    }
}

proof fn lemma_wrap_pieces_len(pieces: Seq<Seq<char>>, width: nat)
    ensures
        pieces.len() > 0 ==> wrap_pieces(pieces, width).len() > 0,
{
    if pieces.len() > 0 {
        lemma_hard_wrap_append(pieces.last(), 'a', width);
    }
}

/// Appending a character to the composer text: a line break adds an empty
/// visual line; any other character extends the last visual line or starts
/// a new one holding just that character.
proof fn lemma_visual_lines_append(s: Seq<char>, c: char, width: nat)
    ensures
        ({
            let l = visual_lines(s, width);
            let l2 = visual_lines(s.push(c), width);
            &&& l.len() >= 1
            &&& c == '\n' ==> l2 == l.push(Seq::<char>::empty())
            &&& c != '\n' ==> (l2 == l.update(l.len() - 1, l.last().push(c)) || l2 == l.push(seq![c]))
        }),
{
    let w = if width == 0 {
        1
    } else {
        width
    };
    let q = s.push(c);
    assert(q.drop_last() =~= s);
    let p1 = split_on(s, '\n');
    let p2 = split_on(q, '\n');
    lemma_split_on_nonempty(s, '\n');
    lemma_split_on_nonempty(q, '\n');
    lemma_wrap_pieces_len(p1, w);
    lemma_wrap_pieces_len(p2, w);
    let l = wrap_pieces(p1, w);
    let l2 = wrap_pieces(p2, w);
    assert(visual_lines(s, width) == l);
    assert(visual_lines(q, width) == l2);
    lemma_hard_wrap_append(p1.last(), c, w);
    let base = wrap_pieces(p1.drop_last(), w);
    let hw = hard_wrap(p1.last(), w);
    assert(l == base + hw);
    if c == '\n' {
        let e = Seq::<char>::empty();
        assert(p2 == p1.push(e));
        assert(p2.drop_last() =~= p1);
        lemma_hard_wrap_append(e, c, w);
        assert(hard_wrap(e, w) == seq![e]);
        assert(l2 =~= l.push(e));
    } else {
        let x = p1.last().push(c);
        assert(p2 == p1.update(p1.len() - 1, x));
        assert(p2.drop_last() =~= p1.drop_last());
        assert(p2.last() == x);
        let hw2 = hard_wrap(x, w);
        assert(l2 == base + hw2);
        if hw2 == hw.update(hw.len() - 1, hw.last().push(c)) {
            assert(l2 =~= l.update(l.len() - 1, l.last().push(c)));
        } else {
            assert(l2 =~= l.push(seq![c]));
        }
    }
}

/// The end of visual row `i - 1`, before a line break is skipped.
pub open spec fn row_end(input: Seq<char>, lines: Seq<Seq<char>>, i: nat) -> int {
    row_start(input, lines, (i - 1) as nat) + lines[i - 1].len()
}

proof fn lemma_row_start_prefix(s: Seq<char>, t: Seq<char>, l: Seq<Seq<char>>, m: Seq<Seq<char>>, j: nat)
    requires
        s.len() <= t.len(),
        forall|x: int| 0 <= x < s.len() ==> s[x] == t[x],
        j <= l.len(),
        j <= m.len(),
        forall|i: int| 0 <= i < j ==> l[i] == m[i],
        forall|i: nat| 1 <= i <= j ==> row_end(s, l, i) < s.len(),
    ensures
        row_start(t, m, j) == row_start(s, l, j),
    decreases j,
{
    if j > 0 {
        lemma_row_start_prefix(s, t, l, m, (j - 1) as nat);
        assert(row_end(s, l, j) < s.len());
    }
}

/// The visual lines tile the composer text: each row ends before the next
/// starts (a line break between them is skipped), and the last row ends
/// with the text.
proof fn lemma_rows_tile(s: Seq<char>, width: nat)
    ensures
        ({
            let l = visual_lines(s, width);
            &&& l.len() >= 1
            &&& row_start(s, l, (l.len() - 1) as nat) + l.last().len() == s.len()
            &&& forall|i: nat| 1 <= i <= l.len() - 1 ==> row_end(s, l, i) < s.len()
        }),
    decreases s.len(),
{
    let l = visual_lines(s, width);
    if s.len() == 0 {
        lemma_visual_lines_append(s, 'a', width);
        lemma_split_on_nonempty(s, '\n');
        let w = if width == 0 {
            1
        } else {
            width
        };
        let e = Seq::<char>::empty();
        let pz = seq![e];
        assert(split_on(s, '\n') == pz);
        assert(pz.drop_last() =~= Seq::<Seq<char>>::empty());
        assert(pz.last() == e);
        assert(hard_wrap(e, w) == seq![e]);
        assert(wrap_pieces(Seq::<Seq<char>>::empty(), w) == Seq::<Seq<char>>::empty());
        assert(wrap_pieces(pz, w) == wrap_pieces(Seq::<Seq<char>>::empty(), w) + seq![e]);
        assert(wrap_pieces(pz, w) =~= seq![e]);
        assert(l =~= seq![e]);
    } else {
        let p = s.drop_last();
        let c = s.last();
        assert(p.push(c) =~= s);
        lemma_rows_tile(p, width);
        lemma_visual_lines_append(p, c, width);
        let lp = visual_lines(p, width);
        let n = lp.len();
        assert forall|x: int| 0 <= x < p.len() implies p[x] == s[x] by {}
        assert forall|i: int| 0 <= i < n - 1 implies lp[i] == l[i] by {}
        lemma_row_start_prefix(p, s, lp, l, (n - 1) as nat);
        if c == '\n' || l == lp.push(seq![c]) {
            assert(l.len() == n + 1);
            assert forall|i: int| 0 <= i < n implies lp[i] == l[i] by {}
            lemma_row_start_prefix(p, s, lp, l, (n - 1) as nat);
            assert(row_end(s, l, n) == p.len());
            assert forall|i: nat| 1 <= i <= l.len() - 1 implies row_end(s, l, i) < s.len() by {
                if i < n {
                    lemma_row_start_prefix(p, s, lp, l, (i - 1) as nat);
                    assert(lp[i - 1] == l[i - 1]);
                    assert(row_end(p, lp, i) < p.len());
                }
            }
        } else {
            assert(l == lp.update(n - 1, lp.last().push(c)));
            assert forall|i: nat| 1 <= i <= l.len() - 1 implies row_end(s, l, i) < s.len() by {
                lemma_row_start_prefix(p, s, lp, l, (i - 1) as nat);
                assert(lp[i - 1] == l[i - 1]);
                assert(row_end(p, lp, i) < p.len());
            }
        }
    }
}

/// Every visual row lies inside the composer text, and a row past the
/// last starts at the end of the text.
pub proof fn lemma_rows_inside(s: Seq<char>, width: nat, k: nat)
    ensures
        ({
            let l = visual_lines(s, width);
            &&& k < l.len() ==> row_start(s, l, k) + l[k as int].len() <= s.len()
            &&& k >= l.len() ==> row_start(s, l, l.len()) == s.len()
        }),
{
    let l = visual_lines(s, width);
    lemma_rows_tile(s, width);
    let n = l.len();
    if k + 1 < n {
        assert(row_end(s, l, k + 1) < s.len());
        lemma_row_start_mono(s, l, k + 1, (n - 1) as nat);
    }
}

proof fn lemma_word_ends_of_bound(line: Seq<char>, rs: Seq<(int, int)>, offset: int, width: nat)
    requires
        forall|j: int| 0 <= j < rs.len() ==> 0 <= (#[trigger] rs[j]).1 <= line.len(),
    ensures
        forall|k: int|
            0 <= k < word_ends_of(line, rs, offset, width).len() ==> offset <= (#[trigger] word_ends_of(
                line,
                rs,
                offset,
                width,
            )[k]).0 <= offset + line.len(),
    decreases rs.len(),
{
    if rs.len() > 0 {
        let prev = rs.drop_last();
        assert forall|j: int| 0 <= j < prev.len() implies 0 <= (#[trigger] prev[j]).1 <= line.len() by {
            assert(prev[j] == rs[j]);
        }
        lemma_word_ends_of_bound(line, prev, offset, width);
        assert(rs.last() == rs[rs.len() - 1]);
        let out = word_ends_of(line, rs, offset, width);
        let before = word_ends_of(line, prev, offset, width);
        assert forall|k: int| 0 <= k < out.len() implies offset <= (#[trigger] out[k]).0 <= offset + line.len() by {
            if k < before.len() {
                assert(out[k] == before[k]);
            }
        }
    }
}

proof fn lemma_visual_ends_from_bound(s: Seq<char>, start: int, width: nat)
    requires
        0 <= start,
    ensures
        forall|k: int|
            0 <= k < visual_ends_from(s, start, width).len() ==> 0 <= (#[trigger] visual_ends_from(
                s,
                start,
                width,
            )[k]).0 <= s.len(),
    decreases s.len() - start,
{
    if start < s.len() {
        let n = next_nl(s, start);
        lemma_next_nl(s, start);
        if start <= n < s.len() {
            let line = s.subrange(start, n);
            lemma_ws_ranges_within(line, width);
            lemma_word_ends_of_bound(line, ws_ranges(line, width), start, width);
            lemma_visual_ends_from_bound(s, n + 1, width);
            let a = word_ends(line, start, width);
            let b = seq![(n + 1, '\n')];
            let c = visual_ends_from(s, n + 1, width);
            let all = a + b + c;
            assert(visual_ends_from(s, start, width) == all);
            assert forall|k: int| 0 <= k < all.len() implies 0 <= (#[trigger] all[k]).0 <= s.len() by {
                if k < a.len() {
                    assert(all[k] == a[k]);
                } else if k == a.len() {
                    assert(all[k] == b[0]);
                } else {
                    assert(all[k] == c[k - a.len() - 1]);
                }
            }
        } else {
            let line = s.subrange(start, s.len() as int);
            lemma_ws_ranges_within(line, width);
            lemma_word_ends_of_bound(line, ws_ranges(line, width), start, width);
        }
    }
}

/// The complete visual lines of a text end inside it.
pub proof fn lemma_visual_prefix_bound(s: Seq<char>, width: nat)
    ensures
        0 <= visual_prefix(s, width).0 <= s.len(),
{
    let w = if width == 0 {
        1
    } else {
        width
    };
    lemma_visual_ends_from_bound(s, 0, w);
    let e = visual_ends(s, width);
    if e.len() > 0 {
        assert(e.last() == e[e.len() - 1]);
    }
}

/// The wrapped lines of a line end further and further on.
proof fn lemma_ws_range_ends_increase(line: Seq<char>, width: nat)
    requires
        line.len() > 0,
    ensures
        forall|i: int, j: int|
            0 <= i <= j < ws_ranges(line, width).len() ==> ws_ranges(line, width)[i].1 <= ws_ranges(
                line,
                width,
            )[j].1,
        forall|i: int| 0 <= i < ws_ranges(line, width).len() ==> #[trigger] ws_ranges(line, width)[i].1 > 0,
{
    lemma_ws_ranges_cover(line, width);
    let r = ws_ranges(line, width);
    assert forall|i: int, j: int| 0 <= i <= j < r.len() implies r[i].1 <= r[j].1 by {
        lemma_range_ends_chain(r, i, j);
    }
    assert forall|i: int| 0 <= i < r.len() implies #[trigger] r[i].1 > 0 by {
        lemma_range_ends_chain(r, 0, i);
        assert(r[0].0 < r[0].1);
    }
}

proof fn lemma_range_ends_chain(r: Seq<(int, int)>, i: int, j: int)
    requires
        0 <= i <= j < r.len(),
        forall|k: int| 0 <= k < r.len() ==> #[trigger] r[k].0 < r[k].1,
        forall|k: int| 0 <= k < r.len() - 1 ==> #[trigger] r[k].1 == r[k + 1].0,
    ensures
        r[i].1 <= r[j].1,
    decreases j - i,
{
    if i < j {
        lemma_range_ends_chain(r, i, j - 1);
        assert(r[j - 1].1 == r[j].0);
    }
}

/// The complete wrapped lines among `rs` end after `offset`, and the last
/// of them ends no earlier than any complete one.
proof fn lemma_word_ends_of_last(line: Seq<char>, rs: Seq<(int, int)>, offset: int, width: nat)
    requires
        forall|i: int, j: int| 0 <= i <= j < rs.len() ==> rs[i].1 <= rs[j].1,
        forall|i: int| 0 <= i < rs.len() ==> #[trigger] rs[i].1 > 0,
    ensures
        forall|m: int|
            0 <= m < word_ends_of(line, rs, offset, width).len() ==> (#[trigger] word_ends_of(
                line,
                rs,
                offset,
                width,
            )[m]).0 > offset,
        forall|i: int|
            0 <= i < rs.len() && range_complete(line, rs[i], width) ==> word_ends_of(line, rs, offset, width).len()
                > 0 && word_ends_of(line, rs, offset, width).last().0 >= offset + rs[i].1,
    decreases rs.len(),
{
    if rs.len() > 0 {
        let d = rs.drop_last();
        lemma_word_ends_of_last(line, d, offset, width);
        let prev = word_ends_of(line, d, offset, width);
        let e = word_ends_of(line, rs, offset, width);
        assert forall|m: int| 0 <= m < e.len() implies (#[trigger] e[m]).0 > offset by {
            if m < prev.len() {
                assert(e[m] == prev[m]);
            } else {
                assert(rs.last() == rs[rs.len() - 1]);
            }
        }
        assert forall|i: int|
            0 <= i < rs.len() && range_complete(line, rs[i], width) implies e.len() > 0 && e.last().0 >= offset
            + rs[i].1 by {
            assert(rs.last() == rs[rs.len() - 1]);
            if !range_complete(line, rs.last(), width) {
                assert(i < rs.len() - 1);
                assert(d[i] == rs[i]);
            }
        }
    }
}

/// Whether `q` is a place where a complete visual line of `s` ends, from
/// `start` on: right after a line break, or at the end of a wrapped line
/// that more of its line follows.
pub open spec fn complete_point(s: Seq<char>, start: int, width: nat, q: int) -> bool {
    ||| exists|k: int| start <= k < s.len() && s[k] == '\n' && q == k + 1
    ||| exists|l: int, i: int|
        #![trigger ws_ranges(s.subrange(l, next_nl(s, l)), width)[i]]
        start <= l < s.len() && (l == start || s[l - 1] == '\n') && 0 <= i < ws_ranges(
            s.subrange(l, next_nl(s, l)),
            width,
        ).len() && ws_ranges(s.subrange(l, next_nl(s, l)), width)[i].1 < next_nl(s, l) - l && q == l + ws_ranges(
            s.subrange(l, next_nl(s, l)),
            width,
        )[i].1
}

proof fn lemma_visual_ends_from_reach(s: Seq<char>, start: int, width: nat)
    requires
        0 <= start,
        width >= 1,
    ensures
        forall|m: int|
            0 <= m < visual_ends_from(s, start, width).len() ==> (#[trigger] visual_ends_from(s, start, width)[m]).0
                >= start,
        forall|q: int|
            #[trigger] complete_point(s, start, width, q) ==> visual_ends_from(s, start, width).len() > 0
                && visual_ends_from(s, start, width).last().0 >= q,
    decreases s.len() - start,
{
    if start < s.len() {
        let n = next_nl(s, start);
        lemma_next_nl(s, start);
        let line = s.subrange(start, n);
        let rs = ws_ranges(line, width);
        if line.len() > 0 {
            lemma_ws_range_ends_increase(line, width);
            lemma_word_ends_of_last(line, rs, start, width);
        } else {
            assert(rs =~= seq![(0int, 0int)]);
            assert(rs.drop_last() =~= Seq::<(int, int)>::empty());
            assert(word_ends_of(line, rs.drop_last(), start, width) == Seq::<(int, char)>::empty());
            assert(rs.last() == (0int, 0int));
            assert forall|m: int|
                0 <= m < word_ends_of(line, rs, start, width).len() implies (#[trigger] word_ends_of(
                line,
                rs,
                start,
                width,
            )[m]).0 >= start by {
                assert(m == 0);
            }
        }
        let a = word_ends(line, start, width);
        let e = visual_ends_from(s, start, width);
        if n < s.len() {
            lemma_visual_ends_from_reach(s, n + 1, width);
            let rest = visual_ends_from(s, n + 1, width);
            let b = seq![(n + 1, '\n')];
            assert(e == a + b + rest);
            assert forall|m: int| 0 <= m < e.len() implies (#[trigger] e[m]).0 >= start by {
                if m < a.len() {
                    assert(e[m] == a[m]);
                } else if m == a.len() {
                    assert(e[m] == b[0]);
                } else {
                    assert(e[m] == rest[m - a.len() - 1]);
                }
            }
            assert(e.len() > 0 && e.last().0 >= n + 1) by {
                if rest.len() > 0 {
                    assert(e.last() == rest.last());
                    assert(rest.last() == rest[rest.len() - 1]);
                } else {
                    assert(e.last() == b[0]);
                }
            }
            assert forall|q: int| #[trigger] complete_point(s, start, width, q) implies e.len() > 0 && e.last().0
                >= q by {
                if exists|k: int| start <= k < s.len() && s[k] == '\n' && q == k + 1 {
                    let k = choose|k: int| start <= k < s.len() && s[k] == '\n' && q == k + 1;
                    if k > n {
                        assert(complete_point(s, n + 1, width, q));
                        assert(e.last() == rest.last());
                    }
                } else {
                    let (l, i) = choose|l: int, i: int|
                        #![trigger ws_ranges(s.subrange(l, next_nl(s, l)), width)[i]]
                        start <= l < s.len() && (l == start || s[l - 1] == '\n') && 0 <= i < ws_ranges(
                            s.subrange(l, next_nl(s, l)),
                            width,
                        ).len() && ws_ranges(s.subrange(l, next_nl(s, l)), width)[i].1 < next_nl(s, l) - l && q == l
                            + ws_ranges(s.subrange(l, next_nl(s, l)), width)[i].1;
                    if l == start {
                        assert(q <= n);
                    } else {
                        assert(l - 1 >= n);
                        assert(complete_point(s, n + 1, width, q));
                        assert(rest.len() > 0);
                        assert(e.last() == rest.last());
                    }
                }
            }
        } else {
            assert(line == s.subrange(start, s.len() as int));
            assert(e == a);
            assert forall|q: int| #[trigger] complete_point(s, start, width, q) implies e.len() > 0 && e.last().0
                >= q by {
                if exists|k: int| start <= k < s.len() && s[k] == '\n' && q == k + 1 {
                    let k = choose|k: int| start <= k < s.len() && s[k] == '\n' && q == k + 1;
                    assert(s[k] != '\n');
                } else {
                    let (l, i) = choose|l: int, i: int|
                        #![trigger ws_ranges(s.subrange(l, next_nl(s, l)), width)[i]]
                        start <= l < s.len() && (l == start || s[l - 1] == '\n') && 0 <= i < ws_ranges(
                            s.subrange(l, next_nl(s, l)),
                            width,
                        ).len() && ws_ranges(s.subrange(l, next_nl(s, l)), width)[i].1 < next_nl(s, l) - l && q == l
                            + ws_ranges(s.subrange(l, next_nl(s, l)), width)[i].1;
                    if l != start {
                        assert(s[l - 1] != '\n');
                    }
                    assert(range_complete(line, rs[i], width));
                }
            }
        }
    }
}

/// Every complete visual line counts: the complete prefix of a text
/// reaches past each of its line breaks, and, in every line (the last one
/// too, before its line break arrives), to the end of each wrapped row
/// that more of the line follows.
pub proof fn lemma_visual_prefix_covers_complete_rows(s: Seq<char>, width: nat)
    ensures
        ({
            let w: nat = if width == 0 { 1 } else { width };
            let p = visual_prefix(s, width).0;
            &&& forall|k: int| 0 <= k < s.len() && s[k] == '\n' ==> p >= k + 1
            &&& forall|l: int, i: int|
                #![trigger ws_ranges(s.subrange(l, next_nl(s, l)), w)[i]]
                0 <= l < s.len() && (l == 0 || s[l - 1] == '\n') && 0 <= i < ws_ranges(
                    s.subrange(l, next_nl(s, l)),
                    w,
                ).len() && ws_ranges(s.subrange(l, next_nl(s, l)), w)[i].1 < next_nl(s, l) - l ==> p >= l
                    + ws_ranges(s.subrange(l, next_nl(s, l)), w)[i].1
        }),
{
    let w: nat = if width == 0 {
        1
    } else {
        width
    };
    lemma_visual_ends_from_reach(s, 0, w);
    let e = visual_ends(s, width);
    assert forall|k: int| 0 <= k < s.len() && s[k] == '\n' implies visual_prefix(s, width).0 >= k + 1 by {
        assert(complete_point(s, 0, w, k + 1));
    }
    assert forall|l: int, i: int|
        #![trigger ws_ranges(s.subrange(l, next_nl(s, l)), w)[i]]
        0 <= l < s.len() && (l == 0 || s[l - 1] == '\n') && 0 <= i < ws_ranges(s.subrange(l, next_nl(s, l)), w).len()
            && ws_ranges(s.subrange(l, next_nl(s, l)), w)[i].1 < next_nl(s, l) - l implies visual_prefix(s, width).0
        >= l + ws_ranges(s.subrange(l, next_nl(s, l)), w)[i].1 by {
        assert(complete_point(s, 0, w, l + ws_ranges(s.subrange(l, next_nl(s, l)), w)[i].1));
    }
}

/// Where the composer cursor is drawn: the column after the last visual
/// line of the text before the cursor, on that line's row.
#[derive(Clone, Copy, Debug, PartialEq, Eq, Structural)]
pub struct CursorPosition {
    pub x: u16,
    pub y: u16,
}

/// The screen position of character `cursor` of the composer text wrapped
/// at `width` columns.
pub fn input_cursor_position(input: &str, cursor: usize, width: usize) -> (p: CursorPosition)
    requires
        text_fits(input@),
    ensures
        ({
            let lines = visual_lines(input@.take(edit_at(input@, cursor as int)), width as nat);
            &&& p.x == display_w(lines.last()) as u16
            &&& p.y == (lines.len() - 1) as u16
        }),
{
    let v = chars_of(input);
    let k = if cursor <= v.len() {
        cursor
    } else {
        v.len()
    };
    let prefix = string_of_range(&v, 0, k);
    let ghost pre = input@.take(edit_at(input@, cursor as int));
    assert(prefix@ =~= pre);
    let lines = input_visual_lines(prefix.as_str(), width);
    proof {
        lemma_visual_line_len(pre, width as nat);
        assert(strings_view(lines@)[lines@.len() - 1] == lines@[lines@.len() - 1]@);
    }
    let last = &lines[lines.len() - 1];
    let w = display_width(last.as_str());
    CursorPosition { x: w as u16, y: (lines.len() - 1) as u16 }
}

/// Cursor position (a character index) for a pointer at `target_row`,
/// `target_column` of the composer's visual lines.
pub fn input_cursor_index_on_visual_line(
    input: &str,
    visual_lines: &Vec<String>,
    target_row: usize,
    target_column: usize,
) -> (cursor: usize)
    requires
        visual_rows_fit(input@, strings_view(visual_lines@), target_row as nat),
    ensures
        cursor_on_visual_line(input@, strings_view(visual_lines@), target_row as nat, target_column as nat, cursor as nat),
{
    let v = chars_of(input);
    let ghost lines = strings_view(visual_lines@);
    let ghost kmax = rows_before(lines, target_row as nat);
    let rows = if target_row <= visual_lines.len() {
        target_row
    } else {
        visual_lines.len()
    };
    let mut line_start: usize = 0;
    let mut k: usize = 0;
    while k < rows
        invariant
            k <= rows,
            rows == kmax,
            kmax <= lines.len(),
            lines == strings_view(visual_lines@),
            v@ == input@,
            line_start == row_start(input@, lines, k as nat),
            row_start(input@, lines, kmax) <= usize::MAX,
        decreases rows - k,
    {
        let line = chars_of(visual_lines[k].as_str());
        proof {
            lemma_row_start_mono(input@, lines, (k + 1) as nat, kmax);
            assert(line@ == lines[k as int]);
        }
        line_start = line_start + line.len();
        if line_start < v.len() && v[line_start] == '\n' {
            line_start = line_start + 1;
        }
        k += 1;
    }
    let mut cursor = line_start;
    if target_row < visual_lines.len() {
        let line = chars_of(visual_lines[target_row].as_str());
        assert(line@ == lines[target_row as int]);
        let n = fit_len(&line, target_column);
        cursor = cursor + n;
    }
    cursor
}

/// Inner width of a padded block: two columns less, at least one.
pub fn padded_inner_width(width: usize) -> (w: usize)
    ensures
        w == (if width >= 3 { width - 2 } else { 1 }),
{
    let w = if width >= 2 {
        width - 2
    } else {
        0
    };
    if w >= 1 {
        w
    } else {
        1
    }
}

/// Whether a rendered line is padded to the full width.
#[derive(Clone, Copy, Debug, PartialEq, Eq)]
pub enum LineFill {
    Natural,
    PadToWidth,
}

impl LineFill {
    pub fn pads_to_width(self) -> (b: bool)
        ensures
            b == (self == LineFill::PadToWidth),
    {
        match self {
            LineFill::PadToWidth => true,
            LineFill::Natural => false,
        }
    }
}

/// The text of a rendered line: `text`, padded with spaces to `width`
/// columns when `fill` asks for it.
pub fn styled_line_text(text: String, width: usize, fill: LineFill) -> (r: String)
    requires
        text_fits(text@),
    ensures
        (fill == LineFill::PadToWidth && display_w(text@) < width) ==> r@ == text@ + crate::text::repeat_char(' ', (width - display_w(text@)) as nat),
        !(fill == LineFill::PadToWidth && display_w(text@) < width) ==> r@ == text@,
{
    let mut text = text;
    if fill.pads_to_width() {
        let len = display_width(text.as_str());
        if len < width {
            let pad = crate::text::repeat(' ', width - len);
            crate::text::push_str(&mut text, pad.as_str());
        }
    }
    text
}

/// Each piece without the `'\r'` of a `"\r\n"` ending.
pub open spec fn strip_all(pieces: Seq<Seq<char>>) -> Seq<Seq<char>> {
    Seq::new(pieces.len(), |i: int| strip_cr(pieces[i]))
}

/// The lines of `s` as `str::lines` gives them: split at `'\n'`, a `'\r'`
/// before a `'\n'` dropped, and no empty line after a final `'\n'`.
pub open spec fn str_lines(s: Seq<char>) -> Seq<Seq<char>> {
    let p = split_on(s, '\n');
    let done = strip_all(p.drop_last());
    if p.last().len() == 0 {
        done
    } else {
        done.push(p.last())
    }
}

/// No piece of `s` cut at `sep` is longer than `s`.
pub proof fn lemma_split_on_len(s: Seq<char>, sep: char)
    ensures
        forall|k: int| 0 <= k < split_on(s, sep).len() ==> (#[trigger] split_on(s, sep)[k]).len() <= s.len(),
    decreases s.len(),
{
    if s.len() > 0 {
        lemma_split_on_len(s.drop_last(), sep);
        lemma_split_on_nonempty(s.drop_last(), sep);
    }
}

/// No line of `s` is longer than `s`.
pub proof fn lemma_str_lines_len(s: Seq<char>)
    ensures
        forall|k: int| 0 <= k < str_lines(s).len() ==> (#[trigger] str_lines(s)[k]).len() <= s.len(),
{
    lemma_split_on_len(s, '\n');
    lemma_split_on_nonempty(s, '\n');
    let p = split_on(s, '\n');
    assert forall|k: int| 0 <= k < str_lines(s).len() implies (#[trigger] str_lines(s)[k]).len() <= s.len() by {
        if k < p.len() - 1 {
            assert(str_lines(s)[k] == strip_cr(p[k]));
        } else {
            assert(str_lines(s)[k] == p.last());
        }
    }
}

/// The lines of `text` (`str::lines`).
pub fn text_lines(text: &str) -> (lines: Vec<String>)
    ensures
        strings_view(lines@) == str_lines(text@),
{
    let v = chars_of(text);
    let mut lines: Vec<String> = Vec::new();
    let mut piece: Vec<char> = Vec::new();
    let mut i: usize = 0;
    proof {
        assert(v@.take(0) =~= Seq::<char>::empty());
        assert(strings_view(lines@) =~= strip_all(split_on(v@.take(0), '\n').drop_last()));
    }
    while i < v.len()
        invariant
            i <= v@.len(),
            v@ == text@,
            split_on(v@.take(i as int), '\n').len() >= 1,
            piece@ == split_on(v@.take(i as int), '\n').last(),
            strings_view(lines@) == strip_all(split_on(v@.take(i as int), '\n').drop_last()),
        decreases v.len() - i,
    {
        let c = v[i];
        proof {
            assert(v@.take(i as int + 1).drop_last() =~= v@.take(i as int));
            lemma_split_on_nonempty(v@.take(i as int), '\n');
        }
        if c == '\n' {
            let mut line = piece;
            if line.len() > 0 && line[line.len() - 1] == '\r' {
                line.pop();
            }
            let ghost before = lines@;
            lines.push(string_of(&line));
            piece = Vec::new();
            proof {
                let p = split_on(v@.take(i as int), '\n');
                let q = split_on(v@.take(i as int + 1), '\n');
                assert(q.drop_last() =~= p);
                assert(strings_view(lines@) =~= strings_view(before).push(strip_cr(p.last())));
                assert(strip_all(q.drop_last()) =~= strip_all(p.drop_last()).push(strip_cr(p.last())));
            }
        } else {
            piece.push(c);
            proof {
                let p = split_on(v@.take(i as int), '\n');
                let q = split_on(v@.take(i as int + 1), '\n');
                assert(q.drop_last() =~= p.drop_last());
            }
        }
        i += 1;
    }
    proof {
        assert(v@.take(v@.len() as int) =~= v@);
    }
    if piece.len() > 0 {
        let ghost before = lines@;
        lines.push(string_of(&piece));
        assert(strings_view(lines@) =~= strings_view(before).push(piece@));
    }
    lines
}

/// The whitespace-wrapped chunks of all of `lines`, in order.
pub open spec fn flat_chunks(lines: Seq<Seq<char>>, width: nat) -> Seq<Seq<char>>
    decreases lines.len(),
{
    if lines.len() == 0 {
        Seq::empty()
    } else {
        flat_chunks(lines.drop_last(), width) + ws_lines(lines.last(), width)
    }
}

/// The rows of a text block: every line wrapped at white space to `width`
/// columns (at least one), and a single empty row for a text without lines.
pub open spec fn wrapped_rows(s: Seq<char>, width: nat) -> Seq<Seq<char>> {
    let w = if width == 0 {
        1
    } else {
        width
    };
    let c = flat_chunks(str_lines(s), w);
    if c.len() == 0 {
        seq![Seq::empty()]
    } else {
        c
    }
}

/// The rows of `text` as a wrapped block of `width` columns.
pub fn wrapped_text_rows(text: &str, width: usize) -> (rows: Vec<String>)
    ensures
        strings_view(rows@) == wrapped_rows(text@, width as nat),
{
    let w = if width == 0 {
        1
    } else {
        width
    };
    let lines = text_lines(text);
    let ghost ls = str_lines(text@);
    let mut rows: Vec<String> = Vec::new();
    let n = lines.len();
    let mut i: usize = 0;
    while i < n
        invariant
            n == lines@.len(),
            i <= n,
            strings_view(lines@) == ls,
            strings_view(rows@) == flat_chunks(ls.take(i as int), w as nat),
        decreases n - i,
    {
        let chunks = wrap_line_at_whitespace(lines[i].as_str(), w);
        extend_strings(&mut rows, chunks);
        proof {
            assert(ls.take(i as int + 1).drop_last() =~= ls.take(i as int));
            assert(ls[i as int] == lines@[i as int]@);
        }
        i += 1;
    }
    assert(ls.take(n as int) =~= ls);
    if rows.len() == 0 {
        rows.push(String::new());
        assert(strings_view(rows@) =~= seq![Seq::<char>::empty()]);
    }
    rows
}

/// Every whitespace-wrapped row of `line` lies within it.
pub proof fn lemma_ws_ranges_within(line: Seq<char>, width: nat)
    ensures
        forall|j: int|
            0 <= j < ws_ranges(line, width).len() ==> 0 <= (#[trigger] ws_ranges(line, width)[j]).0
                <= ws_ranges(line, width)[j].1 <= line.len(),
{
    if line.len() > 0 {
        lemma_ws_ranges_cover(line, width);
        let r = ws_ranges(line, width);
        assert forall|j: int| 0 <= j < r.len() implies 0 <= (#[trigger] r[j]).0 <= r[j].1 <= line.len() by {
            lemma_ranges_within(r, line.len() as int, j);
        }
    }
}

/// What the scan has taken fits: the characters from `start` up to the
/// last fitting position add up to its count, and fit the width.
proof fn lemma_ws_scan_fits(line: Seq<char>, start: int, i: int, width: nat)
    requires
        0 <= start <= i <= line.len(),
        width >= 1,
    ensures
        ({
            let sc = ws_scan(line, start, i, width);
            let k = match sc.last_fit {
                Some(k) => k as int,
                None => start,
            };
            &&& start <= k <= i
            &&& !sc.overflow ==> k == i
            &&& sc.count == sum_w(line.subrange(start, k))
            &&& chunk_fits(line.subrange(start, k), width)
            &&& sc.ws_break matches Some(b) ==> b <= k
        }),
    decreases i - start,
{
    if i == start {
        assert(line.subrange(start, start) =~= Seq::<char>::empty());
    } else {
        lemma_ws_scan_fits(line, start, i - 1, width);
        let p = ws_scan(line, start, i - 1, width);
        let w = char_w(line[i - 1]);
        if !p.overflow && !(p.count > 0 && p.count + w > width) {
            let t = line.subrange(start, i);
            assert(t.drop_last() =~= line.subrange(start, i - 1));
            assert(t.last() == line[i - 1]);
        }
    }
}

/// A prefix of a chunk that fits fits too.
proof fn lemma_chunk_fits_prefix(s: Seq<char>, j: int, width: nat)
    requires
        chunk_fits(s, width),
        0 <= j <= s.len(),
    ensures
        chunk_fits(s.take(j), width),
{
    assert(s.take(s.len() as int) =~= s);
    lemma_sum_w_mono(s, j, s.len() as int);
    if j < s.len() && sum_w(s) > width {
        let d = s.drop_last();
        assert(s.take(j) =~= d.take(j));
        assert(d.take(d.len() as int) =~= d);
        lemma_sum_w_mono(d, j, d.len() as int);
    }
}

proof fn lemma_ws_ranges_from_fit(line: Seq<char>, start: int, width: nat)
    requires
        0 <= start <= line.len(),
        width >= 1,
    ensures
        forall|i: int|
            0 <= i < ws_ranges_from(line, start, width).len() ==> chunk_fits(
                line.subrange(#[trigger] ws_ranges_from(line, start, width)[i].0, ws_ranges_from(line, start, width)[i].1),
                width,
            ),
    decreases line.len() - start,
{
    if start < line.len() {
        lemma_ws_scan_fits(line, start, line.len() as int, width);
        lemma_ws_scan_facts(line, start, line.len() as int, width);
        lemma_ws_split_bounds(line, start, width);
        let sc = ws_scan(line, start, line.len() as int, width);
        let k = match sc.last_fit {
            Some(k) => k as int,
            None => start,
        };
        let whole = line.subrange(start, k);
        let r = ws_ranges_from(line, start, width);
        match ws_split(line, start, width) {
            None => {
                assert(!sc.overflow);
                assert(k == line.len());
                assert(r == seq![(start, line.len() as int)]);
                assert(r[0] == (start, line.len() as int));
            },
            Some(split) => {
                assert(sc.overflow);
                assert(split <= k);
                if start < split <= line.len() {
                    assert(line.subrange(start, split as int) =~= whole.take(split - start));
                    lemma_chunk_fits_prefix(whole, split - start, width);
                    lemma_ws_ranges_from_fit(line, split as int, width);
                    let rest = ws_ranges_from(line, split as int, width);
                    assert(r == seq![(start, split as int)] + rest);
                    assert forall|i: int| 0 <= i < r.len() implies chunk_fits(
                        line.subrange(#[trigger] r[i].0, r[i].1),
                        width,
                    ) by {
                        if i > 0 {
                            assert(r[i] == rest[i - 1]);
                        }
                    }
                }
            },
        }
    }
}

/// Whether some character of `s` in `a..e` is not white space.
pub open spec fn has_text(s: Seq<char>, a: int, e: int) -> bool {
    exists|t: int| a <= t < e && !is_white_space(#[trigger] s[t])
}

/// Whether a line starting at `a` may break at `j`: right after white
/// space that follows some text.
pub open spec fn ws_break_at(s: Seq<char>, a: int, j: int) -> bool {
    a < j <= s.len() && is_white_space(s[j - 1]) && has_text(s, a, j - 1)
}

proof fn lemma_ws_scan_greedy(line: Seq<char>, start: int, i: int, width: nat)
    requires
        0 <= start <= i <= line.len(),
        width >= 1,
    ensures
        ({
            let sc = ws_scan(line, start, i, width);
            let k = match sc.last_fit {
                Some(k) => k as int,
                None => start,
            };
            let from = match sc.ws_break {
                Some(b) => b as int,
                None => start,
            };
            &&& !sc.overflow ==> sc.saw_text == has_text(line, start, i)
            &&& sc.overflow ==> k < i && sum_w(line.subrange(start, k + 1)) > width && sc.prefer_width
                == is_white_space(line[k])
            &&& sc.ws_break matches Some(b) ==> ws_break_at(line, start, b as int)
            &&& forall|j: int| from < j <= k ==> !ws_break_at(line, start, j)
        }),
    decreases i - start,
{
    lemma_ws_scan_fits(line, start, i, width);
    if i > start {
        lemma_ws_scan_greedy(line, start, i - 1, width);
        lemma_ws_scan_fits(line, start, i - 1, width);
        let p = ws_scan(line, start, i - 1, width);
        let ch = line[i - 1];
        let w = char_w(ch);
        let t = line.subrange(start, i);
        assert(t.drop_last() =~= line.subrange(start, i - 1));
        assert(t.last() == ch);
        if p.overflow {
        } else if p.count > 0 && p.count + w > width {
            assert(p.last_fit is Some);
        } else {
            assert(has_text(line, start, i) == (has_text(line, start, i - 1) || !is_white_space(ch))) by {
                if has_text(line, start, i) && !has_text(line, start, i - 1) {
                    let x = choose|x: int| start <= x < i && !is_white_space(#[trigger] line[x]);
                    assert(x == i - 1);
                }
                if !is_white_space(ch) {
                    assert(!is_white_space(line[i - 1]));
                }
            }
            let sc = ws_scan(line, start, i, width);
            if is_white_space(ch) && p.saw_text {
                assert(ws_break_at(line, start, i));
            } else {
                assert(!ws_break_at(line, start, i));
            }
        }
    }
}

/// Whitespace wrapping makes each line as long as it can and breaks at
/// white space where it can: every line but the last ends before the text
/// does, and either the line ends right after white space that follows
/// text with no later such break that would still fit, or the next
/// character would pass the width and it is white space or the line had
/// no such break to end at.
pub proof fn lemma_ws_lines_greedy(line: Seq<char>, width: nat)
    ensures
        ({
            let w: nat = if width == 0 { 1 } else { width };
            let r = ws_ranges(line, width);
            forall|i: int|
                0 <= i < r.len() - 1 ==> {
                    let (a, b) = #[trigger] r[i];
                    &&& b < line.len()
                    &&& (sum_w(line.subrange(a, b + 1)) > w && (is_white_space(line[b]) || forall|j: int|
                        a < j <= b ==> !ws_break_at(line, a, j))) || (ws_break_at(line, a, b) && forall|j: int|
                        b < j <= line.len() && sum_w(line.subrange(a, j)) <= w ==> !ws_break_at(line, a, j))
                }
        }),
{
    let w: nat = if width == 0 {
        1
    } else {
        width
    };
    if line.len() > 0 {
        lemma_ws_ranges_from_greedy(line, 0, w);
    }
}

proof fn lemma_ws_ranges_from_greedy(line: Seq<char>, start: int, w: nat)
    requires
        0 <= start <= line.len(),
        w >= 1,
    ensures
        ({
            let r = ws_ranges_from(line, start, w);
            forall|i: int|
                0 <= i < r.len() - 1 ==> {
                    let (a, b) = #[trigger] r[i];
                    &&& b < line.len()
                    &&& (sum_w(line.subrange(a, b + 1)) > w && (is_white_space(line[b]) || forall|j: int|
                        a < j <= b ==> !ws_break_at(line, a, j))) || (ws_break_at(line, a, b) && forall|j: int|
                        b < j <= line.len() && sum_w(line.subrange(a, j)) <= w ==> !ws_break_at(line, a, j))
                }
        }),
    decreases line.len() - start,
{
    if start < line.len() {
        let n = line.len() as int;
        lemma_ws_scan_fits(line, start, n, w);
        lemma_ws_scan_facts(line, start, n, w);
        lemma_ws_scan_greedy(line, start, n, w);
        lemma_ws_split_bounds(line, start, w);
        let sc = ws_scan(line, start, n, w);
        let k = match sc.last_fit {
            Some(k) => k as int,
            None => start,
        };
        let r = ws_ranges_from(line, start, w);
        match ws_split(line, start, w) {
            None => {},
            Some(split) => {
                if start < split <= line.len() {
                    lemma_ws_ranges_from_greedy(line, split as int, w);
                    let rest = ws_ranges_from(line, split as int, w);
                    assert(r == seq![(start, split as int)] + rest);
                    let b = split as int;
                    assert(b < line.len());
                    let first_ok = (sum_w(line.subrange(start, b + 1)) > w && (is_white_space(line[b]) || forall|
                        j: int,
                    | start < j <= b ==> !ws_break_at(line, start, j))) || (ws_break_at(line, start, b) && forall|
                        j: int,
                    |
                        b < j <= line.len() && sum_w(line.subrange(start, j)) <= w ==> !ws_break_at(line, start, j));
                    if sc.prefer_width || !(sc.ws_break matches Some(x) && x > start) {
                        assert(b == k);
                    } else {
                        assert forall|j: int|
                            b < j <= line.len() && sum_w(line.subrange(start, j)) <= w implies !ws_break_at(
                            line,
                            start,
                            j,
                        ) by {
                            if j > k {
                                let t = line.subrange(start, j);
                                lemma_sum_w_mono(t, k + 1 - start, j - start);
                                assert(t.take(k + 1 - start) =~= line.subrange(start, k + 1));
                                assert(t.take(j - start) =~= t);
                            }
                        }
                    }
                    assert(first_ok);
                    assert forall|i: int| 0 <= i < r.len() - 1 implies {
                        let (a, bb) = #[trigger] r[i];
                        &&& bb < line.len()
                        &&& (sum_w(line.subrange(a, bb + 1)) > w && (is_white_space(line[bb]) || forall|j: int|
                            a < j <= bb ==> !ws_break_at(line, a, j))) || (ws_break_at(line, a, bb) && forall|j: int|
                            bb < j <= line.len() && sum_w(line.subrange(a, j)) <= w ==> !ws_break_at(line, a, j))
                    } by {
                        if i > 0 {
                            assert(r[i] == rest[i - 1]);
                        }
                    }
                }
            },
        }
    }
}

/// Every line of a whitespace-wrapped line fits the width (at least one
/// column), or is wider only by its last character, everything before
/// which takes no room.
pub proof fn lemma_ws_lines_fit(line: Seq<char>, width: nat)
    ensures
        forall|i: int|
            0 <= i < ws_lines(line, width).len() ==> chunk_fits(
                #[trigger] ws_lines(line, width)[i],
                if width == 0 { 1 } else { width },
            ),
{
    let w: nat = if width == 0 {
        1
    } else {
        width
    };
    let r = ws_ranges(line, width);
    if line.len() == 0 {
        assert(line.subrange(0, 0) =~= Seq::<char>::empty());
    } else {
        lemma_ws_ranges_from_fit(line, 0, w);
    }
    assert forall|i: int| 0 <= i < ws_lines(line, width).len() implies chunk_fits(
        #[trigger] ws_lines(line, width)[i],
        w,
    ) by {
        assert(ws_lines(line, width)[i] == line.subrange(r[i].0, r[i].1));
    }
}

} // verus!

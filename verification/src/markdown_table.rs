//! Markdown tables: which lines form a table, the cells of a row with code
//! spans and escaped pipes respected, column alignments, and column widths
//! that fit the screen. Positions count characters.
use vstd::prelude::*;
use crate::text::{chars_of, lemma_trim_len, push_str, string_of, string_of_range, trim, trim_in, trim_seq, trim_set, trimmed};
use crate::width::{display_w, display_width, strings_view};
use crate::markdown::{inline_text, lemma_inline_text_len, markdown_inline_segments, segments_of, segments_text, segs_view, SegmentStyle};
use crate::text::text_fits;

verus! {

/// How a column's cells are aligned.
#[derive(Clone, Copy, Debug, PartialEq, Eq, Structural)]
pub enum TableAlignment {
    Left,
    Center,
    Right,
}

/// The length of the run of backticks at `i`.
pub open spec fn run_len(s: Seq<char>, i: int) -> nat
    decreases s.len() - i,
{
    if i < 0 || i >= s.len() || s[i] != '`' {
        0
    } else {
        1 + run_len(s, i + 1)
    }
}

pub proof fn lemma_run_len(s: Seq<char>, i: int)
    requires
        0 <= i,
    ensures
        i < s.len() ==> i + run_len(s, i) <= s.len(),
        i >= s.len() ==> run_len(s, i) == 0,
        0 <= i < s.len() && s[i] == '`' ==> run_len(s, i) >= 1,
        forall|k: int| i <= k < i + run_len(s, i) ==> #[trigger] s[k] == '`',
    decreases s.len() - i,
{
    if 0 <= i < s.len() && s[i] == '`' {
        lemma_run_len(s, i + 1);
        assert forall|k: int| i <= k < i + run_len(s, i) implies #[trigger] s[k] == '`' by {
            if k > i {
                assert(i + 1 <= k < i + 1 + run_len(s, i + 1));
            }
        }
    }
}

fn run_len_in(v: &[char], i: usize) -> (n: usize)
    ensures
        n == run_len(v@, i as int),
{
    let mut k = i;
    while k < v.len() && v[k] == '`'
        invariant
            i <= k <= v@.len() || (k == i && i > v@.len()),
            run_len(v@, i as int) == (k - i) + run_len(v@, k as int),
        decreases v@.len() - k,
    {
        k += 1;
    }
    k - i
}

/// Whether a run of exactly `fence` backticks occurs from `i` on (runs of
/// another length are stepped over whole).
pub open spec fn matching_fence(s: Seq<char>, i: int, fence: nat) -> bool
    decreases s.len() - i,
{
    if i < 0 || i >= s.len() {
        false
    } else if s[i] == '`' {
        let r = run_len(s, i);
        if r == fence {
            true
        } else {
            proof {
                lemma_run_len(s, i);
            }
            matching_fence(s, i + r, fence)
        }
    } else {
        matching_fence(s, i + 1, fence)
    }
}

fn matching_fence_in(v: &[char], from: usize, fence: usize) -> (b: bool)
    ensures
        b == matching_fence(v@, from as int, fence as nat),
{
    let n = v.len();
    let mut i = from;
    while i < n
        invariant
            n == v@.len(),
            from <= i,
            matching_fence(v@, from as int, fence as nat) == matching_fence(v@, i as int, fence as nat),
        decreases n - i,
    {
        if v[i] == '`' {
            let r = run_len_in(v, i);
            proof {
                lemma_run_len(v@, i as int);
            }
            if r == fence {
                return true;
            }
            i += r;
        } else {
            i += 1;
        }
    }
    false
}

/// Whether a run of exactly `fence_len` backticks occurs from `index` on.
pub fn has_matching_code_fence(line: &str, index: usize, fence_len: usize) -> (b: bool)
    ensures
        b == matching_fence(line@, index as int, fence_len as nat),
{
    let v = chars_of(line);
    matching_fence_in(&v, index, fence_len)
}

/// The code span state after a run of `r` backticks at `i`: a run as long
/// as the open fence closes it; with no span open, a run that is matched
/// later opens one.
pub open spec fn fence_after(s: Seq<char>, i: int, r: nat, fence: Option<nat>) -> Option<nat> {
    match fence {
        Some(o) => if o == r {
            None
        } else {
            fence
        },
        None => if matching_fence(s, i + r, r) {
            Some(r)
        } else {
            None
        },
    }
}

/// The positions of the cell separators `|` from `i` on: not inside a code
/// span, not escaped by a backslash.
pub open spec fn delims_scan(s: Seq<char>, i: int, fence: Option<nat>) -> Seq<int>
    decreases s.len() - i,
{
    if i < 0 || i >= s.len() {
        Seq::empty()
    } else if s[i] == '`' {
        let r = run_len(s, i);
        proof {
            lemma_run_len(s, i);
        }
        delims_scan(s, i + r, fence_after(s, i, r, fence))
    } else if s[i] == '\\' && fence is None {
        delims_scan(s, if i + 1 < s.len() {
            i + 2
        } else {
            i + 1
        }, fence)
    } else {
        (if s[i] == '|' && fence is None {
            seq![i]
        } else {
            Seq::empty()
        }) + delims_scan(s, i + 1, fence)
    }
}

pub open spec fn usizes_view(v: Seq<usize>) -> Seq<int> {
    Seq::new(v.len(), |i: int| v[i] as int)
}

fn fence_after_in(v: &[char], i: usize, r: usize, fence: Option<usize>) -> (f: Option<usize>)
    requires
        i + r <= v@.len(),
    ensures
        opt_nat(f) == fence_after(v@, i as int, r as nat, opt_nat(fence)),
{
    let _n = v.len();
    match fence {
        Some(o) => if o == r {
            None
        } else {
            fence
        },
        None => if matching_fence_in(v, i + r, r) {
            Some(r)
        } else {
            None
        },
    }
}

pub open spec fn opt_nat(o: Option<usize>) -> Option<nat> {
    match o {
        Some(x) => Some(x as nat),
        None => None,
    }
}

fn delimiters_in(v: &[char]) -> (d: Vec<usize>)
    ensures
        usizes_view(d@) == delims_scan(v@, 0, None),
{
    let n = v.len();
    let mut d: Vec<usize> = Vec::new();
    let mut i: usize = 0;
    let mut fence: Option<usize> = None;
    assert(usizes_view(d@) =~= Seq::<int>::empty());
    while i < n
        invariant
            n == v@.len(),
            i <= n,
            delims_scan(v@, 0, None) == usizes_view(d@) + delims_scan(v@, i as int, opt_nat(fence)),
        decreases n - i,
    {
        let ch = v[i];
        if ch == '`' {
            let r = run_len_in(v, i);
            proof {
                lemma_run_len(v@, i as int);
            }
            fence = fence_after_in(v, i, r, fence);
            i += r;
        } else if ch == '\\' && fence.is_none() {
            i += 1;
            if i < n {
                i += 1;
            }
        } else {
            let ghost before = usizes_view(d@);
            if ch == '|' && fence.is_none() {
                d.push(i);
                assert(usizes_view(d@) =~= before + seq![i as int]);
            } else {
                assert(before + Seq::<int>::empty() =~= before);
            }
            proof {
                let rest = delims_scan(v@, i + 1, opt_nat(fence));
                if ch == '|' && fence.is_none() {
                    assert(before + (seq![i as int] + rest) =~= usizes_view(d@) + rest);
                } else {
                    assert(before + (Seq::<int>::empty() + rest) =~= usizes_view(d@) + rest);
                }
            }
            i += 1;
        }
    }
    assert(usizes_view(d@) + Seq::<int>::empty() =~= usizes_view(d@));
    d
}

/// The positions of the cell separators of `line`.
pub fn markdown_table_delimiters(line: &str) -> (d: Vec<usize>)
    ensures
        usizes_view(d@) == delims_scan(line@, 0, None),
{
    let v = chars_of(line);
    delimiters_in(&v)
}

/// Whether `line` has a cell separator.
pub fn has_markdown_table_delimiter(line: &str) -> (b: bool)
    ensures
        b == (delims_scan(line@, 0, None).len() > 0),
{
    markdown_table_delimiters(line).len() > 0
}

pub proof fn lemma_delims_scan(s: Seq<char>, i: int, fence: Option<nat>)
    requires
        0 <= i,
    ensures
        forall|k: int|
            0 <= k < delims_scan(s, i, fence).len() ==> i <= #[trigger] delims_scan(s, i, fence)[k] < s.len()
                && s[delims_scan(s, i, fence)[k]] == '|',
        forall|a: int, b: int|
            0 <= a < b < delims_scan(s, i, fence).len() ==> delims_scan(s, i, fence)[a] < delims_scan(
                s,
                i,
                fence,
            )[b],
    decreases s.len() - i,
{
    if i < s.len() {
        if s[i] == '`' {
            lemma_run_len(s, i);
            let r = run_len(s, i);
            lemma_delims_scan(s, i + r, fence_after(s, i, r, fence));
            assert(delims_scan(s, i, fence) == delims_scan(s, i + r, fence_after(s, i, r, fence)));
        } else if s[i] == '\\' && fence is None {
            let next = if i + 1 < s.len() {
                i + 2
            } else {
                i + 1
            };
            lemma_delims_scan(s, next, fence);
            assert(delims_scan(s, i, fence) == delims_scan(s, next, fence));
        } else {
            lemma_delims_scan(s, i + 1, fence);
            let rest = delims_scan(s, i + 1, fence);
            let head: Seq<int> = if s[i] == '|' && fence is None {
                seq![i]
            } else {
                Seq::empty()
            };
            let r = head + rest;
            assert(r == delims_scan(s, i, fence));
            assert forall|k: int| 0 <= k < r.len() implies i <= #[trigger] r[k] < s.len() && s[r[k]] == '|' by {
                if k >= head.len() {
                    assert(r[k] == rest[k - head.len()]);
                }
            }
            assert forall|a: int, b: int| 0 <= a < b < r.len() implies r[a] < r[b] by {
                if a >= head.len() {
                    assert(r[a] == rest[a - head.len()]);
                }
                assert(r[b] == rest[b - head.len()]);
            }
        }
    }
}

/// The text of a cell from `i` on: code spans kept as they are, `\|`
/// outside code read as `|`.
pub open spec fn cell_scan(s: Seq<char>, i: int, fence: Option<nat>) -> Seq<char>
    decreases s.len() - i,
{
    if i < 0 || i >= s.len() {
        Seq::empty()
    } else if s[i] == '`' {
        let r = run_len(s, i);
        proof {
            lemma_run_len(s, i);
        }
        s.subrange(i, i + r) + cell_scan(s, i + r, fence_after(s, i, r, fence))
    } else if s[i] == '\\' && fence is None {
        if i + 1 < s.len() && s[i + 1] == '|' {
            seq!['|'] + cell_scan(s, i + 2, fence)
        } else {
            seq!['\\'] + cell_scan(s, i + 1, fence)
        }
    } else {
        seq![s[i]] + cell_scan(s, i + 1, fence)
    }
}

/// The text of a cell, trimmed.
pub open spec fn cell_text(s: Seq<char>) -> Seq<char> {
    trim_seq(cell_scan(s, 0, None))
}

fn cell_text_in(v: &[char]) -> (t: String)
    ensures
        t@ == cell_text(v@),
        t@.len() <= v@.len(),
{
    let n = v.len();
    let mut out: Vec<char> = Vec::new();
    let mut i: usize = 0;
    let mut fence: Option<usize> = None;
    while i < n
        invariant
            n == v@.len(),
            i <= n,
            out@.len() <= i,
            cell_scan(v@, 0, None) == out@ + cell_scan(v@, i as int, opt_nat(fence)),
        decreases n - i,
    {
        let ch = v[i];
        let ghost before = out@;
        if ch == '`' {
            let r = run_len_in(v, i);
            proof {
                lemma_run_len(v@, i as int);
            }
            let mut k = i;
            while k < i + r
                invariant
                    n == v@.len(),
                    i <= k <= i + r <= n,
                    before.len() <= i,
                    out@ == before + v@.subrange(i as int, k as int),
                decreases i + r - k,
            {
                out.push(v[k]);
                assert(v@.subrange(i as int, k + 1) =~= v@.subrange(i as int, k as int).push(v@[k as int]));
                k += 1;
            }
            let ghost old_fence = opt_nat(fence);
            fence = fence_after_in(v, i, r, fence);
            proof {
                assert(before + (v@.subrange(i as int, i + r) + cell_scan(v@, i + r, opt_nat(fence)))
                    =~= out@ + cell_scan(v@, i + r, opt_nat(fence)));
            }
            i += r;
        } else if ch == '\\' && fence.is_none() {
            if i + 1 < n && v[i + 1] == '|' {
                out.push('|');
                proof {
                    assert(before + (seq!['|'] + cell_scan(v@, i + 2, opt_nat(fence))) =~= out@ + cell_scan(v@, i + 2, opt_nat(fence)));
                }
                i += 2;
            } else {
                out.push('\\');
                proof {
                    assert(before + (seq!['\\'] + cell_scan(v@, i + 1, opt_nat(fence))) =~= out@ + cell_scan(v@, i + 1, opt_nat(fence)));
                }
                i += 1;
            }
        } else {
            out.push(ch);
            proof {
                assert(before + (seq![ch] + cell_scan(v@, i + 1, opt_nat(fence))) =~= out@ + cell_scan(v@, i + 1, opt_nat(fence)));
            }
            i += 1;
        }
    }
    assert(out@ + Seq::<char>::empty() =~= out@);
    let s = string_of(&out);
    proof {
        lemma_trim_len(s@);
    }
    trim(s.as_str())
}

/// The text of a table cell.
pub fn markdown_table_cell(cell: &str) -> (t: String)
    ensures
        t@ == cell_text(cell@),
{
    let v = chars_of(cell);
    cell_text_in(&v)
}

/// The separators of `d` that lie in `lo..hi`.
pub open spec fn between(d: Seq<int>, lo: int, hi: int) -> Seq<int>
    decreases d.len(),
{
    if d.len() == 0 {
        d
    } else {
        let p = between(d.drop_last(), lo, hi);
        if lo <= d.last() < hi {
            p.push(d.last())
        } else {
            p
        }
    }
}

/// The cells of `t` between the separators `kept`, the first starting at
/// `cs` and the last ending at `end`.
pub open spec fn cells_between(t: Seq<char>, kept: Seq<int>, cs: int, end: int) -> Seq<Seq<char>>
    decreases kept.len(),
{
    if kept.len() == 0 {
        seq![cell_text(t.subrange(cs, end))]
    } else {
        seq![cell_text(t.subrange(cs, kept[0]))] + cells_between(t, kept.drop_first(), kept[0] + 1, end)
    }
}

/// Where the cells of a trimmed row start: after a leading separator.
pub open spec fn cells_start(t: Seq<char>) -> int {
    let d = delims_scan(t, 0, None);
    if d.len() > 0 && d[0] == 0 {
        1
    } else {
        0
    }
}

/// Where the cells of a trimmed row end: before a trailing separator.
pub open spec fn cells_end(t: Seq<char>) -> int {
    let d = delims_scan(t, 0, None);
    if d.len() > 0 && d.last() + 1 == t.len() {
        t.len() - 1
    } else {
        t.len() as int
    }
}

/// The cells of a row: the trimmed line cut at its separators, without
/// the outer pipes.
pub open spec fn row_cells(line: Seq<char>) -> Seq<Seq<char>> {
    let t = trim_seq(line);
    cells_between(
        t,
        between(delims_scan(t, 0, None), cells_start(t), cells_end(t)),
        cells_start(t),
        cells_end(t),
    )
}

/// Whether a row can be cut into cells: a lone `|` cannot.
pub open spec fn row_cuttable(line: Seq<char>) -> bool {
    trim_seq(line) != seq!['|']
}

proof fn lemma_between(d: Seq<int>, lo: int, hi: int)
    requires
        forall|a: int, b: int| 0 <= a < b < d.len() ==> d[a] < d[b],
    ensures
        forall|k: int| 0 <= k < between(d, lo, hi).len() ==> lo <= #[trigger] between(d, lo, hi)[k] < hi,
        forall|a: int, b: int|
            0 <= a < b < between(d, lo, hi).len() ==> between(d, lo, hi)[a] < between(d, lo, hi)[b],
    decreases d.len(),
{
    if d.len() > 0 {
        let t = d.drop_last();
        lemma_between(t, lo, hi);
        lemma_between_members(t, lo, hi);
        let p = between(t, lo, hi);
        if lo <= d.last() < hi {
            let r = p.push(d.last());
            assert forall|a: int, b: int| 0 <= a < b < r.len() implies r[a] < r[b] by {
                assert(r[a] == p[a]);
                if b == p.len() {
                    let m = choose|m: int| 0 <= m < t.len() && t[m] == p[a];
                    assert(d[m] < d[d.len() - 1]);
                } else {
                    assert(r[b] == p[b]);
                }
            }
        }
    }
}

proof fn lemma_between_members(d: Seq<int>, lo: int, hi: int)
    ensures
        forall|k: int| 0 <= k < between(d, lo, hi).len() ==> d.contains(#[trigger] between(d, lo, hi)[k]),
    decreases d.len(),
{
    if d.len() > 0 {
        let t = d.drop_last();
        lemma_between_members(t, lo, hi);
        let p = between(t, lo, hi);
        assert forall|k: int| 0 <= k < between(d, lo, hi).len() implies d.contains(#[trigger] between(d, lo, hi)[k]) by {
            if k < p.len() {
                assert(between(d, lo, hi)[k] == p[k]);
                assert(t.contains(p[k]));
                let m = choose|m: int| 0 <= m < t.len() && t[m] == p[k];
                assert(d[m] == p[k]);
            } else {
                assert(d[d.len() - 1] == between(d, lo, hi)[k]);
            }
        }
    }
}

fn between_in(d: &Vec<usize>, lo: usize, hi: usize) -> (r: Vec<usize>)
    ensures
        usizes_view(r@) == between(usizes_view(d@), lo as int, hi as int),
{
    let mut r: Vec<usize> = Vec::new();
    let mut i: usize = 0;
    while i < d.len()
        invariant
            i <= d@.len(),
            usizes_view(r@) == between(usizes_view(d@).take(i as int), lo as int, hi as int),
        decreases d@.len() - i,
    {
        assert(usizes_view(d@).take(i as int + 1).drop_last() =~= usizes_view(d@).take(i as int));
        assert(usizes_view(d@).take(i as int + 1).last() == d@[i as int] as int);
        let ghost before = usizes_view(r@);
        if lo <= d[i] && d[i] < hi {
            r.push(d[i]);
            assert(usizes_view(r@) =~= before.push(d@[i as int] as int));
        }
        i += 1;
    }
    assert(usizes_view(d@).take(d@.len() as int) =~= usizes_view(d@));
    r
}

/// The cells of a table row.
pub fn markdown_table_cells(line: &str) -> (cells: Vec<String>)
    requires
        row_cuttable(line@),
    ensures
        strings_view(cells@) == row_cells(line@),
        forall|k: int| 0 <= k < cells@.len() ==> (#[trigger] cells@[k])@.len() <= line@.len(),
{
    let t = trimmed(line);
    proof {
        lemma_trim_len(line@);
    }
    let n = t.len();
    let d = delimiters_in(&t);
    proof {
        lemma_delims_scan(t@, 0, None);
    }
    let start: usize = if d.len() > 0 && d[0] == 0 {
        1
    } else {
        0
    };
    let mut end: usize = n;
    if d.len() > 0 {
        let last = d[d.len() - 1];
        assert(usizes_view(d@)[d@.len() - 1] == last as int);
        if last + 1 == n {
            end = n - 1;
        }
    }
    assert(start == cells_start(t@));
    assert(end == cells_end(t@));
    proof {
        if start > end {
            assert(n == 1 && t@[0] == '|');
            assert(t@ =~= seq!['|']);
        }
    }
    let kept = between_in(&d, start, end);
    proof {
        lemma_between(usizes_view(d@), start as int, end as int);
    }
    let ghost kv = usizes_view(kept@);
    let mut cells: Vec<String> = Vec::new();
    let mut cell_start = start;
    let mut j: usize = 0;
    assert(kv.skip(0) =~= kv);
    assert(strings_view(cells@) + cells_between(t@, kv, start as int, end as int) =~= cells_between(
        t@,
        kv,
        start as int,
        end as int,
    ));
    while j < kept.len()
        invariant
            n == t@.len(),
            start <= end <= n,
            kv == usizes_view(kept@),
            j <= kept@.len(),
            forall|k: int| 0 <= k < kv.len() ==> start <= #[trigger] kv[k] < end,
            forall|a: int, b: int| 0 <= a < b < kv.len() ==> kv[a] < kv[b],
            j == 0 ==> cell_start == start,
            j > 0 ==> cell_start == kv[j - 1] + 1,
            cell_start <= end,
            n <= line@.len(),
            forall|k: int| 0 <= k < cells@.len() ==> (#[trigger] cells@[k])@.len() <= line@.len(),
            strings_view(cells@) + cells_between(t@, kv.skip(j as int), cell_start as int, end as int)
                == cells_between(t@, kv, start as int, end as int),
        decreases kept@.len() - j,
    {
        let x = kept[j];
        assert(kv[j as int] == x as int);
        if j > 0 {
            assert(kv[j - 1] < kv[j as int]);
        }
        let cell = string_of_range(&t, cell_start, x);
        let c = cell_text_in(&chars_of(cell.as_str()));
        let ghost before = strings_view(cells@);
        cells.push(c);
        proof {
            let rest = kv.skip(j as int);
            assert(rest[0] == x as int);
            assert(rest.drop_first() =~= kv.skip(j as int + 1));
            assert(strings_view(cells@) =~= before.push(c@));
            assert(before + cells_between(t@, rest, cell_start as int, end as int) =~= strings_view(cells@)
                + cells_between(t@, kv.skip(j as int + 1), x + 1, end as int));
        }
        cell_start = x + 1;
        j += 1;
    }
    let cell = string_of_range(&t, cell_start, end);
    let c = cell_text_in(&chars_of(cell.as_str()));
    let ghost before = strings_view(cells@);
    cells.push(c);
    proof {
        assert(kv.skip(kv.len() as int) =~= Seq::<int>::empty());
        assert(strings_view(cells@) =~= before.push(c@));
        assert(before + cells_between(t@, kv.skip(j as int), cell_start as int, end as int) =~= strings_view(cells@));
    }
    cells
}

/// The alignment a separator cell asks for: at least three dashes between
/// optional colons; a colon on the right aligns right, on both sides
/// centres, otherwise left.
pub open spec fn alignment_of(cell: Seq<char>) -> Option<TableAlignment> {
    let c = trim_seq(cell);
    let left = c.len() > 0 && c[0] == ':';
    let right = c.len() > 0 && c.last() == ':';
    let marker = trim_in(c, seq![':']);
    if marker.len() >= 3 && forall|i: int| 0 <= i < marker.len() ==> #[trigger] marker[i] == '-' {
        Some(
            if left && right {
                TableAlignment::Center
            } else if right {
                TableAlignment::Right
            } else {
                TableAlignment::Left
            },
        )
    } else {
        None
    }
}

/// The alignment a separator cell asks for, if it is one.
pub fn markdown_table_alignment(cell: &str) -> (a: Option<TableAlignment>)
    ensures
        a == alignment_of(cell@),
{
    let c = trimmed(cell);
    let n = c.len();
    let left = n > 0 && c[0] == ':';
    let right = n > 0 && c[n - 1] == ':';
    let colon = vec![':'];
    assert(colon@ =~= seq![':']);
    let marker = trim_set(&c, &colon);
    if marker.len() < 3 {
        return None;
    }
    let mut i: usize = 0;
    while i < marker.len()
        invariant
            marker@ == trim_in(trim_seq(cell@), seq![':']),
            marker@.len() >= 3,
            i <= marker@.len(),
            forall|k: int| 0 <= k < i ==> #[trigger] marker@[k] == '-',
        decreases marker@.len() - i,
    {
        if marker[i] != '-' {
            return None;
        }
        i += 1;
    }
    Some(
        if left && right {
            TableAlignment::Center
        } else if right {
            TableAlignment::Right
        } else {
            TableAlignment::Left
        },
    )
}

/// Left and right padding of a cell with `remaining` spare columns: all on
/// the right for left alignment, all on the left for right alignment, and
/// split (the extra column on the right) when centred.
pub fn table_cell_padding(alignment: TableAlignment, remaining: usize) -> (p: (usize, usize))
    ensures
        p.0 + p.1 == remaining,
        alignment == TableAlignment::Left ==> p.0 == 0,
        alignment == TableAlignment::Right ==> p.1 == 0,
        alignment == TableAlignment::Center ==> p.0 == remaining / 2,
{
    match alignment {
        TableAlignment::Left => (0, remaining),
        TableAlignment::Center => (remaining / 2, remaining - remaining / 2),
        TableAlignment::Right => (remaining, 0),
    }
}

/// A parsed table: the alignment of each column and its rows (the header
/// first), each with one cell per column.
#[derive(Debug)]
pub struct MarkdownTable {
    pub alignments: Vec<TableAlignment>,
    pub rows: Vec<Vec<String>>,
}

pub open spec fn rows_view(rows: Seq<Vec<String>>) -> Seq<Seq<Seq<char>>> {
    Seq::new(rows.len(), |i: int| strings_view(rows[i]@))
}

pub open spec fn lines_view(lines: Seq<&str>) -> Seq<Seq<char>> {
    Seq::new(lines.len(), |i: int| lines[i]@)
}

/// Whether a line has a cell separator.
pub open spec fn has_delim(line: Seq<char>) -> bool {
    delims_scan(line, 0, None).len() > 0
}

/// How many lines from `i` on continue the table: non-blank and with a
/// separator.
pub open spec fn body_len(lines: Seq<Seq<char>>, i: int) -> int
    decreases lines.len() - i,
{
    if i < 0 || i >= lines.len() || !(has_delim(lines[i]) && trim_seq(lines[i]).len() > 0) {
        0
    } else {
        1 + body_len(lines, i + 1)
    }
}

/// The cells of a body row made to fit `count` columns: padded with empty
/// cells or cut.
pub open spec fn fit_cells(cells: Seq<Seq<char>>, count: int) -> Seq<Seq<char>> {
    if cells.len() < count {
        cells + Seq::new((count - cells.len()) as nat, |i: int| Seq::<char>::empty())
    } else {
        cells.take(count)
    }
}

/// The alignments of the separator row, when every cell is a separator.
pub open spec fn alignments_of(sep: Seq<Seq<char>>) -> Option<Seq<TableAlignment>> {
    if forall|j: int| 0 <= j < sep.len() ==> (#[trigger] alignment_of(sep[j])) is Some {
        Some(Seq::new(sep.len(), |j: int| alignment_of(sep[j])->0))
    } else {
        None
    }
}

/// The table at the start of `lines`, with the number of lines it takes: a
/// header row and a separator row with the same number (at least two) of
/// cells, then the body rows that follow.
pub open spec fn parse_table(lines: Seq<Seq<char>>) -> Option<(Seq<TableAlignment>, Seq<Seq<Seq<char>>>, int)> {
    if lines.len() < 2 || !has_delim(lines[0]) || !has_delim(lines[1]) {
        None
    } else {
        let header = row_cells(lines[0]);
        let sep = row_cells(lines[1]);
        if header.len() < 2 || header.len() != sep.len() {
            None
        } else {
            match alignments_of(sep) {
                None => None,
                Some(al) => {
                    let k = body_len(lines, 2);
                    Some(
                        (
                            al,
                            seq![header] + Seq::new(
                                k as nat,
                                |j: int| fit_cells(row_cells(lines[2 + j]), header.len() as int),
                            ),
                            2 + k,
                        ),
                    )
                },
            }
        }
    }
}

pub proof fn lemma_body_len(lines: Seq<Seq<char>>, i: int)
    requires
        0 <= i,
    ensures
        0 <= body_len(lines, i),
        i < lines.len() ==> i + body_len(lines, i) <= lines.len(),
        forall|j: int| i <= j < i + body_len(lines, i) ==> has_delim(#[trigger] lines[j]) && trim_seq(lines[j]).len() > 0,
        i + body_len(lines, i) < lines.len() ==> !(has_delim(lines[i + body_len(lines, i)]) && trim_seq(
            lines[i + body_len(lines, i)],
        ).len() > 0),
    decreases lines.len() - i,
{
    if i < lines.len() && has_delim(lines[i]) && trim_seq(lines[i]).len() > 0 {
        lemma_body_len(lines, i + 1);
    }
}

fn fit_cells_vec(cells: Vec<String>, count: usize) -> (r: Vec<String>)
    ensures
        strings_view(r@) == fit_cells(strings_view(cells@), count as int),
{
    let mut cells = cells;
    if cells.len() < count {
        let ghost start = strings_view(cells@);
        while cells.len() < count
            invariant
                start.len() <= cells@.len() <= count,
                strings_view(cells@) == start + Seq::new((cells@.len() - start.len()) as nat, |i: int| Seq::<char>::empty()),
            decreases count - cells@.len(),
        {
            let ghost before = strings_view(cells@);
            let ghost k = (cells@.len() - start.len()) as nat;
            cells.push(String::new());
            assert(strings_view(cells@) =~= before.push(Seq::<char>::empty()));
            assert((start + Seq::new(k, |i: int| Seq::<char>::empty())).push(Seq::<char>::empty()) =~= start
                + Seq::new(k + 1, |i: int| Seq::<char>::empty()));
        }
        cells
    } else {
        let ghost orig = strings_view(cells@);
        cells.truncate(count);
        assert(strings_view(cells@) =~= orig.take(count as int));
        cells
    }
}

/// Whether reading a table at the start of `lines` cuts only rows that
/// can be cut: the first two lines when both hold a separator, then the
/// body rows when those two make a table (see `row_cuttable`).
pub open spec fn table_parse_safe(lines: Seq<Seq<char>>) -> bool {
    lines.len() < 2 || !has_delim(lines[0]) || !has_delim(lines[1]) || (row_cuttable(lines[0])
        && row_cuttable(lines[1]) && (row_cells(lines[0]).len() < 2 || row_cells(lines[0]).len()
        != row_cells(lines[1]).len() || alignments_of(row_cells(lines[1])) is None || forall|j: int|
        2 <= j < 2 + body_len(lines, 2) ==> row_cuttable(#[trigger] lines[j])))
}

fn row_is_cuttable(line: &str) -> (b: bool)
    ensures
        b == row_cuttable(line@),
{
    let t = trimmed(line);
    if t.len() == 1 && t[0] == '|' {
        assert(t@ =~= seq!['|']);
        false
    } else {
        true
    }
}

/// Whether reading a table at the start of `lines` cuts only rows that can
/// be cut (see `table_parse_safe`).
pub fn table_parse_is_safe(lines: &[&str]) -> (b: bool)
    ensures
        b == table_parse_safe(lines_view(lines@)),
{
    let ghost ls = lines_view(lines@);
    let n = lines.len();
    if n < 2 {
        return true;
    }
    assert(ls[0] == lines@[0]@ && ls[1] == lines@[1]@);
    if !has_markdown_table_delimiter(lines[0]) || !has_markdown_table_delimiter(lines[1]) {
        return true;
    }
    if !row_is_cuttable(lines[0]) || !row_is_cuttable(lines[1]) {
        return false;
    }
    let header = markdown_table_cells(lines[0]);
    let separator = markdown_table_cells(lines[1]);
    assert(strings_view(header@).len() == header@.len());
    assert(strings_view(separator@).len() == separator@.len());
    if header.len() < 2 || header.len() != separator.len() {
        return true;
    }
    let mut j: usize = 0;
    while j < separator.len()
        invariant
            j <= separator@.len(),
            n == lines@.len(),
            n >= 2,
            ls == lines_view(lines@),
            has_delim(ls[0]) && has_delim(ls[1]) && row_cuttable(ls[0]) && row_cuttable(ls[1]),
            strings_view(separator@) == row_cells(ls[1]),
            forall|k: int| 0 <= k < j ==> (#[trigger] alignment_of(separator@[k]@)) is Some,
        decreases separator@.len() - j,
    {
        if markdown_table_alignment(separator[j].as_str()).is_none() {
            proof {
                let sep = strings_view(separator@);
                assert(sep[j as int] == separator@[j as int]@);
                assert(alignments_of(sep) is None);
            }
            return true;
        }
        j += 1;
    }
    proof {
        let sep = strings_view(separator@);
        assert forall|k: int| 0 <= k < sep.len() implies (#[trigger] alignment_of(sep[k])) is Some by {
            assert(sep[k] == separator@[k]@);
        }
        lemma_body_len(ls, 2);
    }
    let ghost made = !(row_cells(ls[0]).len() < 2 || row_cells(ls[0]).len() != row_cells(ls[1]).len()
        || alignments_of(row_cells(ls[1])) is None);
    assert(made);
    let mut k: usize = 2;
    while k < n
        invariant
            n == lines@.len(),
            n >= 2,
            ls == lines_view(lines@),
            made == !(row_cells(ls[0]).len() < 2 || row_cells(ls[0]).len() != row_cells(ls[1]).len()
                || alignments_of(row_cells(ls[1])) is None),
            made,
            has_delim(ls[0]) && has_delim(ls[1]) && row_cuttable(ls[0]) && row_cuttable(ls[1]),
            2 <= k <= n,
            k <= 2 + body_len(ls, 2),
            forall|m: int| 2 <= m < k ==> row_cuttable(#[trigger] ls[m]),
            forall|j: int| 2 <= j < 2 + body_len(ls, 2) ==> has_delim(#[trigger] ls[j]) && trim_seq(ls[j]).len() > 0,
            2 + body_len(ls, 2) < ls.len() ==> !(has_delim(ls[2 + body_len(ls, 2)]) && trim_seq(
                ls[2 + body_len(ls, 2)],
            ).len() > 0),
            2 + body_len(ls, 2) <= ls.len(),
        ensures
            k == 2 + body_len(ls, 2),
            forall|m: int| 2 <= m < k ==> row_cuttable(#[trigger] ls[m]),
        decreases n - k,
    {
        let line = lines[k];
        assert(ls[k as int] == line@);
        if !has_markdown_table_delimiter(line) || trimmed(line).len() == 0 {
            break;
        }
        if !row_is_cuttable(line) {
            return false;
        }
        k += 1;
    }
    true
}

/// A table read from `lines` takes no more lines than there are, and has
/// one row for each line it takes but the separator.
pub proof fn lemma_parse_table_size(lines: Seq<Seq<char>>)
    ensures
        parse_table(lines) matches Some(p) ==> 2 <= p.2 <= lines.len() && p.1.len() == p.2 - 1,
{
    if lines.len() >= 2 {
        lemma_body_len(lines, 2);
    }
}

/// Whether every cell of `rows` is no longer than the line it was read
/// from: the header from the first line, body row `r` from line `r + 1`.
pub open spec fn cells_within(rows: Seq<Seq<Seq<char>>>, lines: Seq<Seq<char>>) -> bool {
    forall|r: int, c: int|
        0 <= r < rows.len() && 0 <= c < rows[r].len() ==> (#[trigger] rows[r][c]).len() <= lines[if r == 0 {
            0
        } else {
            r + 1
        }].len()
}

/// The table at the start of `lines` and how many lines it takes (see
/// `parse_table`).
pub fn parse_markdown_table(lines: &[&str]) -> (r: Option<(MarkdownTable, usize)>)
    requires
        table_parse_safe(lines_view(lines@)),
    ensures
        match r {
            None => parse_table(lines_view(lines@)) is None,
            Some((t, used)) => {
                &&& parse_table(lines_view(lines@)) == Some((t.alignments@, rows_view(t.rows@), used as int))
                &&& cells_within(rows_view(t.rows@), lines_view(lines@))
                &&& forall|i: int| 0 <= i < t.rows@.len() ==> (#[trigger] t.rows@[i])@.len() == t.alignments@.len()
            },
        },
{
    let ghost ls = lines_view(lines@);
    let n = lines.len();
    if n < 2 {
        return None;
    }
    assert(ls[0] == lines@[0]@ && ls[1] == lines@[1]@);
    if !has_markdown_table_delimiter(lines[0]) || !has_markdown_table_delimiter(lines[1]) {
        return None;
    }
    let header = markdown_table_cells(lines[0]);
    let separator = markdown_table_cells(lines[1]);
    if header.len() < 2 || header.len() != separator.len() {
        return None;
    }
    let mut alignments: Vec<TableAlignment> = Vec::new();
    let mut j: usize = 0;
    while j < separator.len()
        invariant
            ls == lines_view(lines@),
            n == lines@.len(),
            n >= 2,
            has_delim(ls[0]) && has_delim(ls[1]),
            strings_view(header@) == row_cells(ls[0]),
            strings_view(separator@) == row_cells(ls[1]),
            header@.len() >= 2,
            header@.len() == separator@.len(),
            j <= separator@.len(),
            alignments@.len() == j,
            forall|k: int| 0 <= k < j ==> alignment_of((#[trigger] separator@[k])@) == Some(alignments@[k]),
        decreases separator@.len() - j,
    {
        match markdown_table_alignment(separator[j].as_str()) {
            None => {
                proof {
                    let sep = strings_view(separator@);
                    assert(sep[j as int] == separator@[j as int]@);
                    assert(alignments_of(sep) is None);
                }
                return None;
            },
            Some(a) => alignments.push(a),
        }
        j += 1;
    }
    proof {
        let sep = strings_view(separator@);
        assert forall|k: int| 0 <= k < sep.len() implies (#[trigger] alignment_of(sep[k])) is Some by {
            assert(sep[k] == separator@[k]@);
            assert(alignment_of(separator@[k]@) == Some(alignments@[k]));
        }
        assert(alignments@ =~= Seq::new(sep.len(), |k: int| alignment_of(sep[k])->0));
    }
    let column_count = header.len();
    let ghost hv = strings_view(header@);
    let mut rows: Vec<Vec<String>> = Vec::new();
    rows.push(header);
    let mut consumed: usize = 2;
    proof {
        lemma_body_len(ls, 2);
        assert(rows_view(rows@) =~= seq![hv]);
        assert forall|c: int| 0 <= c < hv.len() implies (#[trigger] hv[c]).len() <= ls[0].len() by {
            assert(hv[c] == header@[c]@);
        }
    }
    while consumed < n
        invariant
            n == lines@.len(),
            ls == lines_view(lines@),
            forall|j: int| 2 <= j < 2 + body_len(ls, 2) ==> row_cuttable(#[trigger] ls[j]),
            forall|c: int| 0 <= c < hv.len() ==> (#[trigger] hv[c]).len() <= ls[0].len(),
            forall|j: int, c: int|
                2 <= j < consumed && 0 <= c < row_cells(ls[j]).len() ==> (#[trigger] row_cells(ls[j])[c]).len()
                    <= ls[j].len(),
            2 <= consumed <= n,
            column_count == hv.len(),
            consumed <= 2 + body_len(ls, 2),
            rows_view(rows@) == seq![hv] + Seq::new(
                (consumed - 2) as nat,
                |j: int| fit_cells(row_cells(ls[2 + j]), hv.len() as int),
            ),
            forall|j: int| 2 <= j < 2 + body_len(ls, 2) ==> has_delim(#[trigger] ls[j]) && trim_seq(ls[j]).len() > 0,
            2 + body_len(ls, 2) < ls.len() ==> !(has_delim(ls[2 + body_len(ls, 2)]) && trim_seq(
                ls[2 + body_len(ls, 2)],
            ).len() > 0),
            2 + body_len(ls, 2) <= ls.len(),
        ensures
            consumed == 2 + body_len(ls, 2),
            rows_view(rows@) == seq![hv] + Seq::new(
                (consumed - 2) as nat,
                |j: int| fit_cells(row_cells(ls[2 + j]), hv.len() as int),
            ),
        decreases n - consumed,
    {
        let line = lines[consumed];
        assert(ls[consumed as int] == line@);
        if !has_markdown_table_delimiter(line) || trimmed(line).len() == 0 {
            break;
        }
        let raw = markdown_table_cells(line);
        proof {
            assert forall|c: int| 0 <= c < row_cells(ls[consumed as int]).len() implies (#[trigger] row_cells(
                ls[consumed as int],
            )[c]).len() <= ls[consumed as int].len() by {
                assert(row_cells(ls[consumed as int])[c] == raw@[c]@);
            }
        }
        let cells = fit_cells_vec(raw, column_count);
        let ghost before = rows_view(rows@);
        rows.push(cells);
        proof {
            let k = (consumed - 2) as nat;
            assert(rows_view(rows@) =~= before.push(strings_view(cells@)));
            assert((seq![hv] + Seq::new(k, |j: int| fit_cells(row_cells(ls[2 + j]), hv.len() as int))).push(
                fit_cells(row_cells(ls[consumed as int]), hv.len() as int),
            ) =~= seq![hv] + Seq::new(k + 1, |j: int| fit_cells(row_cells(ls[2 + j]), hv.len() as int)));
        }
        consumed += 1;
    }
    proof {
        let rv = rows_view(rows@);
        assert forall|r: int, c: int| 0 <= r < rv.len() && 0 <= c < rv[r].len() implies (#[trigger] rv[r][c]).len()
            <= ls[if r == 0 {
            0
        } else {
            r + 1
        }].len() by {
            if r > 0 {
                let cs = row_cells(ls[r + 1]);
                assert(rv[r] == fit_cells(cs, hv.len() as int));
                if c < cs.len() {
                    assert(rv[r][c] == cs[c]);
                }
            }
        }
        assert forall|i: int| 0 <= i < rows@.len() implies (#[trigger] rows@[i])@.len() == alignments@.len() by {
            assert(rv[i].len() == rows@[i]@.len());
        }
    }
    Some((MarkdownTable { alignments, rows }, consumed))
}

// ---------------------------------------------------------------------
// Column widths
// ---------------------------------------------------------------------

/// The drawn width of a cell: the display widths of its resolved pieces,
/// added up.
pub open spec fn segments_width(segs: Seq<(Seq<char>, SegmentStyle)>) -> int
    decreases segs.len(),
{
    if segs.len() == 0 {
        0
    } else {
        segments_width(segs.drop_last()) + display_w(segs.last().0)
    }
}

/// The drawn width of a cell's text.
pub open spec fn cell_width(cell: Seq<char>) -> int {
    segments_width(segments_of(cell))
}

/// The width a column needs: its widest cell among the rows, at least one.
pub open spec fn column_need(rows: Seq<Seq<Seq<char>>>, c: int, n: int) -> int
    decreases n,
{
    if n <= 0 {
        1
    } else {
        let prev = column_need(rows, c, n - 1);
        let w = cell_width(rows[n - 1][c]);
        if w > prev {
            w
        } else {
            prev
        }
    }
}

/// Whether every row has a cell for each of the `count` columns and every
/// cell fits the width arithmetic.
pub open spec fn table_cells_fit(rows: Seq<Seq<Seq<char>>>, count: int) -> bool {
    forall|r: int|
        0 <= r < rows.len() ==> (#[trigger] rows[r]).len() >= count && forall|c: int|
            0 <= c < count ==> text_fits(#[trigger] rows[r][c])
}

fn cell_width_of(cell: &str) -> (w: usize)
    requires
        text_fits(cell@),
    ensures
        w == cell_width(cell@),
{
    let segs = markdown_inline_segments(cell);
    let ghost sv = segs_view(segs@);
    proof {
        lemma_inline_text_len(cell@);
    }
    let mut total: usize = 0;
    let mut i: usize = 0;
    while i < segs.len()
        invariant
            sv == segs_view(segs@),
            sv == segments_of(cell@),
            text_fits(cell@),
            segments_text(sv).len() <= cell@.len(),
            i <= segs@.len(),
            total == segments_width(sv.take(i as int)),
            total <= 3 * segments_text(sv.take(i as int)).len(),
        decreases segs@.len() - i,
    {
        assert(sv.take(i as int + 1).drop_last() =~= sv.take(i as int));
        assert(sv[i as int].0 == segs@[i as int].text@);
        proof {
            lemma_segments_text_prefix(sv, i as int + 1);
        }
        let w = display_width(segs[i].text.as_str());
        total = total + w;
        i += 1;
    }
    assert(sv.take(segs@.len() as int) =~= sv);
    total
}

proof fn lemma_segments_text_prefix(sv: Seq<(Seq<char>, SegmentStyle)>, k: int)
    requires
        0 <= k <= sv.len(),
    ensures
        segments_text(sv.take(k)).len() <= segments_text(sv).len(),
        k >= 1 ==> segments_text(sv.take(k)).len() == segments_text(sv.take(k - 1)).len() + sv[k - 1].0.len(),
    decreases sv.len() - k,
{
    if k >= 1 {
        assert(sv.take(k).drop_last() =~= sv.take(k - 1));
    }
    if k < sv.len() {
        lemma_segments_text_prefix(sv, k + 1);
        assert(sv.take(k + 1).drop_last() =~= sv.take(k));
    } else {
        assert(sv.take(k) =~= sv);
    }
}

/// The width each column needs: its widest cell, at least one column.
pub fn natural_column_widths(table: &MarkdownTable) -> (ws: Vec<usize>)
    requires
        table_cells_fit(rows_view(table.rows@), table.alignments@.len() as int),
    ensures
        ws@.len() == table.alignments@.len(),
        forall|c: int| 0 <= c < ws@.len() ==> #[trigger] ws@[c] == column_need(rows_view(table.rows@), c, table.rows@.len() as int),
{
    let count = table.alignments.len();
    let ghost rv = rows_view(table.rows@);
    let mut ws: Vec<usize> = Vec::new();
    let mut c: usize = 0;
    while c < count
        invariant
            count == table.alignments@.len(),
            rv == rows_view(table.rows@),
            table_cells_fit(rv, count as int),
            c <= count,
            ws@.len() == c,
            forall|k: int| 0 <= k < c ==> #[trigger] ws@[k] == column_need(rv, k, table.rows@.len() as int),
        decreases count - c,
    {
        let mut best: usize = 1;
        let mut r: usize = 0;
        while r < table.rows.len()
            invariant
                count == table.alignments@.len(),
                rv == rows_view(table.rows@),
                table_cells_fit(rv, count as int),
                c < count,
                r <= table.rows@.len(),
                best == column_need(rv, c as int, r as int),
            decreases table.rows@.len() - r,
        {
            assert(rv[r as int] == strings_view(table.rows@[r as int]@));
            assert(rv[r as int].len() >= count);
            assert(rv[r as int][c as int] == table.rows@[r as int]@[c as int]@);
            let w = cell_width_of(table.rows[r][c].as_str());
            if w > best {
                best = w;
            }
            r += 1;
        }
        ws.push(best);
        c += 1;
    }
    ws
}

/// Sum of the widths.
pub open spec fn sum_widths(ws: Seq<usize>) -> int
    decreases ws.len(),
{
    if ws.len() == 0 {
        0
    } else {
        sum_widths(ws.drop_last()) + ws.last()
    }
}

/// The column to narrow next: the widest of those wider than one (the last
/// of them on a tie), among the first `n`.
pub open spec fn narrowest_choice(ws: Seq<usize>, n: int) -> Option<int>
    decreases n,
{
    if n <= 0 || n > ws.len() {
        None
    } else {
        let b = narrowest_choice(ws, n - 1);
        if ws[n - 1] > 1 {
            match b {
                None => Some(n - 1),
                Some(j) => if ws[n - 1] >= ws[j] {
                    Some(n - 1)
                } else {
                    Some(j)
                },
            }
        } else {
            b
        }
    }
}

pub proof fn lemma_narrowest_choice(ws: Seq<usize>, n: int)
    requires
        0 <= n <= ws.len(),
    ensures
        narrowest_choice(ws, n) matches Some(j) ==> 0 <= j < n && ws[j] > 1,
        narrowest_choice(ws, n) is None ==> forall|k: int| 0 <= k < n ==> #[trigger] ws[k] <= 1,
    decreases n,
{
    if n > 0 {
        lemma_narrowest_choice(ws, n - 1);
    }
}

pub proof fn lemma_sum_update(ws: Seq<usize>, j: int, v: usize)
    requires
        0 <= j < ws.len(),
    ensures
        sum_widths(ws.update(j, v)) == sum_widths(ws) - ws[j] + v,
    decreases ws.len(),
{
    let u = ws.update(j, v);
    if j == ws.len() - 1 {
        assert(u.drop_last() =~= ws.drop_last());
    } else {
        lemma_sum_update(ws.drop_last(), j, v);
        assert(u.drop_last() =~= ws.drop_last().update(j, v));
    }
}

/// The widths after narrowing, one column at a time (the widest first), to
/// fit `available` columns; `None` when every column is down to one and
/// they still do not fit.
pub open spec fn shrink_widths(ws: Seq<usize>, available: int) -> Option<Seq<usize>>
    decreases sum_widths(ws),
{
    if sum_widths(ws) <= available {
        Some(ws)
    } else {
        match narrowest_choice(ws, ws.len() as int) {
            None => None,
            Some(j) => {
                proof {
                    lemma_narrowest_choice(ws, ws.len() as int);
                    lemma_sum_update(ws, j, (ws[j] - 1) as usize);
                    lemma_sum_nonneg(ws.update(j, (ws[j] - 1) as usize));
                }
                shrink_widths(ws.update(j, (ws[j] - 1) as usize), available)
            },
        }
    }
}

pub proof fn lemma_sum_nonneg(ws: Seq<usize>)
    ensures
        sum_widths(ws) >= 0,
    decreases ws.len(),
{
    if ws.len() > 0 {
        lemma_sum_nonneg(ws.drop_last());
    }
}

proof fn lemma_sum_bound(ws: Seq<usize>, n: int)
    requires
        0 <= n <= ws.len(),
    ensures
        sum_widths(ws.take(n)) <= n * 0x1_0000_0000_0000_0000,
        sum_widths(ws.take(n)) >= 0,
    decreases n,
{
    if n > 0 {
        lemma_sum_bound(ws, n - 1);
        assert(ws.take(n).drop_last() =~= ws.take(n - 1));
    } else {
        assert(ws.take(0) =~= Seq::<usize>::empty());
    }
}

/// Narrows the columns (the widest first) until they fit `available`
/// columns; `None` when they cannot.
pub fn fit_column_widths(widths: Vec<usize>, available: usize) -> (r: Option<Vec<usize>>)
    ensures
        match r {
            Some(v) => shrink_widths(widths@, available as int) == Some(v@),
            None => shrink_widths(widths@, available as int) is None,
        },
{
    let mut ws = widths;
    let n = ws.len();
    let mut total: u128 = 0;
    let mut i: usize = 0;
    while i < n
        invariant
            n == ws@.len(),
            i <= n,
            total == sum_widths(ws@.take(i as int)),
            total <= i * 0x1_0000_0000_0000_0000,
        decreases n - i,
    {
        assert(ws@.take(i as int + 1).drop_last() =~= ws@.take(i as int));
        total = total + ws[i] as u128;
        i += 1;
    }
    assert(ws@.take(n as int) =~= ws@);
    let ghost orig = ws@;
    while total > available as u128
        invariant
            orig == widths@,
            n == ws@.len(),
            total == sum_widths(ws@),
            shrink_widths(orig, available as int) == shrink_widths(ws@, available as int),
        decreases total,
    {
        let mut best: Option<usize> = None;
        let mut k: usize = 0;
        while k < n
            invariant
                n == ws@.len(),
                k <= n,
                best matches Some(j) ==> j < k,
                match best {
                    Some(j) => narrowest_choice(ws@, k as int) == Some(j as int),
                    None => narrowest_choice(ws@, k as int) is None,
                },
            decreases n - k,
        {
            if ws[k] > 1 {
                match best {
                    None => best = Some(k),
                    Some(j) => if ws[k] >= ws[j] {
                        best = Some(k);
                    },
                }
            }
            k += 1;
        }
        proof {
            lemma_narrowest_choice(ws@, n as int);
        }
        match best {
            None => return None,
            Some(j) => {
                let ghost before = ws@;
                let w = ws[j];
                ws.set(j, w - 1);
                proof {
                    lemma_sum_update(before, j as int, (w - 1) as usize);
                    assert(ws@ == before.update(j as int, (w - 1) as usize));
                }
                total = total - 1;
            },
        }
    }
    Some(ws)
}

/// Narrowing always succeeds when every column starts at one or more and
/// there is room for one column each; the result fits, keeps one column
/// per column, and only narrows.
pub proof fn lemma_shrink_widths(ws: Seq<usize>, available: int)
    requires
        forall|k: int| 0 <= k < ws.len() ==> #[trigger] ws[k] >= 1,
        available >= ws.len(),
    ensures
        shrink_widths(ws, available) is Some,
        shrink_widths(ws, available) matches Some(r) ==> r.len() == ws.len() && sum_widths(r) <= available
            && forall|k: int| 0 <= k < ws.len() ==> 1 <= #[trigger] r[k] <= ws[k],
    decreases sum_widths(ws),
{
    if sum_widths(ws) > available {
        lemma_narrowest_choice(ws, ws.len() as int);
        match narrowest_choice(ws, ws.len() as int) {
            None => {
                lemma_sum_at_most_len(ws);
            },
            Some(j) => {
                let u = ws.update(j, (ws[j] - 1) as usize);
                lemma_sum_update(ws, j, (ws[j] - 1) as usize);
                lemma_sum_nonneg(u);
                lemma_shrink_widths(u, available);
            },
        }
    }
}

proof fn lemma_sum_at_most_len(ws: Seq<usize>)
    requires
        forall|k: int| 0 <= k < ws.len() ==> #[trigger] ws[k] <= 1,
    ensures
        sum_widths(ws) <= ws.len(),
    decreases ws.len(),
{
    if ws.len() > 0 {
        lemma_sum_at_most_len(ws.drop_last());
    }
}

/// The column widths of a table drawn `width` columns wide: after the
/// borders and one space of padding on each side of every cell, each
/// column gets what its widest cell needs, narrowed to fit; `None` when not
/// even one column per column is left.
pub open spec fn table_widths(rows: Seq<Seq<Seq<char>>>, count: int, width: int) -> Option<Seq<usize>> {
    let frame = count + 1 + 2 * count;
    if width < frame || width - frame < count {
        None
    } else {
        shrink_widths(
            Seq::new(count as nat, |c: int| column_need(rows, c, rows.len() as int) as usize),
            width - frame,
        )
    }
}

/// The column widths of `table` drawn `width` columns wide.
pub fn markdown_table_column_widths(table: &MarkdownTable, width: usize) -> (r: Option<Vec<usize>>)
    requires
        table_cells_fit(rows_view(table.rows@), table.alignments@.len() as int),
    ensures
        match r {
            Some(v) => {
                &&& table_widths(rows_view(table.rows@), table.alignments@.len() as int, width as int) == Some(v@)
                &&& v@.len() == table.alignments@.len()
                &&& forall|c: int| 0 <= c < v@.len() ==> 1 <= #[trigger] v@[c] && v@[c] + 3 * v@.len() + 1 <= width
            },
            None => table_widths(rows_view(table.rows@), table.alignments@.len() as int, width as int)
                is None,
        },
{
    let count = table.alignments.len();
    if count > (usize::MAX - 1) / 3 {
        return None;
    }
    let frame = count + 1 + count * 2;
    if width < frame {
        return None;
    }
    let available = width - frame;
    if available < count {
        return None;
    }
    let natural = natural_column_widths(table);
    let ghost rv = rows_view(table.rows@);
    proof {
        assert forall|c: int| 0 <= c < count implies column_need(rv, c, table.rows@.len() as int) >= 1 by {
            lemma_column_need(rv, c, table.rows@.len() as int);
        }
        assert(natural@ =~= Seq::new(count as nat, |c: int| column_need(rv, c, rv.len() as int) as usize));
        lemma_shrink_widths(natural@, available as int);
    }
    let r = fit_column_widths(natural, available);
    proof {
        if r is Some {
            let v = r->0@;
            assert forall|c: int| 0 <= c < v.len() implies 1 <= #[trigger] v[c] && v[c] + 3 * v.len() + 1
                <= width by {
                lemma_elem_le_sum(v, c);
            }
        }
    }
    r
}

/// A width is no more than the sum of the widths.
pub proof fn lemma_elem_le_sum(ws: Seq<usize>, k: int)
    requires
        0 <= k < ws.len(),
    ensures
        ws[k] <= sum_widths(ws),
    decreases ws.len(),
{
    lemma_sum_nonneg(ws.drop_last());
    if k < ws.len() - 1 {
        lemma_elem_le_sum(ws.drop_last(), k);
    }
}

proof fn lemma_column_need(rows: Seq<Seq<Seq<char>>>, c: int, n: int)
    ensures
        column_need(rows, c, n) >= 1,
    decreases n,
{
    if n > 0 {
        lemma_column_need(rows, c, n - 1);
    }
}

} // verus!

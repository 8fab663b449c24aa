//! Display widths of characters and text, truncation and hard wrapping.
use vstd::prelude::*;
use unicode_width::{UnicodeWidthChar, UnicodeWidthStr};
use crate::text::{chars_of, is_control, is_control_char, string_of, string_of_range, text_fits};

verus! {

/// What `unicode_width` reports as the column width of one character
/// (`None` for control characters).
pub uninterp spec fn unicode_char_width(c: char) -> Option<usize>;

/// What `unicode_width` reports as the column width of a whole string.
pub uninterp spec fn unicode_str_width(s: Seq<char>) -> usize;

/// `UnicodeWidthChar::width` of `unicode_width`: the column width of `c`.
/// Besides naming the result, this states what the crate's lookup code does
/// before consulting its tables: control characters (below U+0020 and
/// U+007F..U+009F) have no width, other ASCII characters have width one, and
/// no table entry is wider than three columns.
#[verifier::external_body]
fn unicode_width_of_char(c: char) -> (w: Option<usize>)
    ensures
        w == unicode_char_width(c),
        w is None <==> is_control_char(c),
        (0x20 <= c as u32 && (c as u32) < 0x7f) ==> w == Some(1usize),
        w matches Some(n) ==> n <= 3,
{
    UnicodeWidthChar::width(c)
}

/// `UnicodeWidthStr::width` of `unicode_width`: the column width of `s`.
/// Besides naming the result, this states that no character adds more than
/// three columns, so the width is at most three times the character count,
/// and that (as `lookup::width_in_generic` adds one column for every
/// character up to U+00A0 other than a line break) a string of printable
/// ASCII characters is as wide as it is long.
#[verifier::external_body]
pub(crate) fn unicode_width_of_str(s: &str) -> (w: usize)
    ensures
        w == unicode_str_width(s@),
        w <= 3 * s@.len(),
        (forall|i: int| 0 <= i < s@.len() ==> 0x20 <= (#[trigger] s@[i]) as u32 && (s@[i] as u32) < 0x7f)
            ==> w == s@.len(),
{
    UnicodeWidthStr::width(s)
}

/// Column width of one character, zero for control characters.
pub open spec fn char_w(c: char) -> nat {
    match unicode_char_width(c) {
        Some(n) => n as nat,
        None => 0,
    }
}

/// Sum of the character widths of `s`.
pub open spec fn sum_w(s: Seq<char>) -> nat
    decreases s.len(),
{
    if s.len() == 0 {
        0
    } else {
        sum_w(s.drop_last()) + char_w(s.last())
    }
}

pub proof fn lemma_sum_w_take(s: Seq<char>, i: int)
    requires
        0 <= i < s.len(),
    ensures
        sum_w(s.take(i + 1)) == sum_w(s.take(i)) + char_w(s[i]),
{
    assert(s.take(i + 1).drop_last() =~= s.take(i));
}

pub proof fn lemma_sum_w_bound(s: Seq<char>)
    requires
        forall|i: int| 0 <= i < s.len() ==> char_w(#[trigger] s[i]) <= 3,
    ensures
        sum_w(s) <= 3 * s.len(),
    decreases s.len(),
{
    if s.len() > 0 {
        assert(s.last() == s[s.len() - 1]);
        lemma_sum_w_bound(s.drop_last());
    }
}

pub proof fn lemma_sum_w_mono(s: Seq<char>, i: int, j: int)
    requires
        0 <= i <= j <= s.len(),
    ensures
        sum_w(s.take(i)) <= sum_w(s.take(j)),
    decreases j - i,
{
    if i < j {
        lemma_sum_w_mono(s, i, j - 1);
        lemma_sum_w_take(s, j - 1);
    }
}

/// Column width of `ch`; control characters count as zero columns.
pub fn char_display_width(ch: char) -> (w: usize)
    ensures
        w == char_w(ch),
        w <= 3,
{
    match unicode_width_of_char(ch) {
        Some(n) => n,
        None => 0,
    }
}

/// The pieces of `s` between control characters (`str::split(char::is_control)`).
pub open spec fn control_pieces(s: Seq<char>) -> Seq<Seq<char>>
    decreases s.len(),
{
    if s.len() == 0 {
        seq![Seq::empty()]
    } else {
        let p = control_pieces(s.drop_last());
        if is_control_char(s.last()) {
            p.push(Seq::empty())
        } else {
            p.update(p.len() - 1, p.last().push(s.last()))
        }
    }
}

pub proof fn lemma_control_pieces_nonempty(s: Seq<char>)
    ensures
        control_pieces(s).len() >= 1,
    decreases s.len(),
{
    if s.len() > 0 {
        lemma_control_pieces_nonempty(s.drop_last());
    }
}

/// Sum of the string widths of `pieces`.
pub open spec fn sum_str_w(pieces: Seq<Seq<char>>) -> nat
    decreases pieces.len(),
{
    if pieces.len() == 0 {
        0
    } else {
        sum_str_w(pieces.drop_last()) + unicode_str_width(pieces.last()) as nat
    }
}

/// Display width of `s`: control characters take no columns and the text
/// between them is measured as a whole.
pub open spec fn display_w(s: Seq<char>) -> nat {
    sum_str_w(control_pieces(s))
}

/// Column width of `text`, ignoring control characters.
pub fn display_width(text: &str) -> (w: usize)
    requires
        text_fits(text@),
    ensures
        w == display_w(text@),
        w <= 3 * text@.len(),
{
    let v = chars_of(text);
    let mut total: usize = 0;
    let mut piece: Vec<char> = Vec::new();
    let mut i: usize = 0;
    proof {
        assert(v@.take(0) =~= Seq::<char>::empty());
    }
    while i < v.len()
        invariant
            i <= v.len(),
            v@ == text@,
            text_fits(text@),
            control_pieces(v@.take(i as int)).len() >= 1,
            piece@ == control_pieces(v@.take(i as int)).last(),
            total == sum_str_w(control_pieces(v@.take(i as int)).drop_last()),
            total + 3 * piece@.len() <= 3 * i,
        decreases v.len() - i,
    {
        let c = v[i];
        proof {
            assert(v@.take(i as int + 1).drop_last() =~= v@.take(i as int));
            lemma_control_pieces_nonempty(v@.take(i as int));
        }
        if is_control(c) {
            let s = string_of(&piece);
            let w = unicode_width_of_str(s.as_str());
            total = total + w;
            piece = Vec::new();
            proof {
                let p = control_pieces(v@.take(i as int));
                let q = control_pieces(v@.take(i as int + 1));
                assert(q == p.push(Seq::empty()));
                assert(q.drop_last() =~= p);
                assert(p =~= p.drop_last().push(p.last()));
            }
        } else {
            piece.push(c);
            proof {
                let p = control_pieces(v@.take(i as int));
                let q = control_pieces(v@.take(i as int + 1));
                assert(q.drop_last() =~= p.drop_last());
            }
        }
        i += 1;
    }
    let s = string_of(&piece);
    let w = unicode_width_of_str(s.as_str());
    proof {
        assert(v@.take(v@.len() as int) =~= v@);
        let p = control_pieces(v@);
        assert(p =~= p.drop_last().push(p.last()));
    }
    total + w
}

/// Display width of the first `cursor` characters of `value`.
pub fn char_prefix_display_width(value: &str, cursor: usize) -> (w: usize)
    requires
        text_fits(value@),
    ensures
        w == sum_w(value@.take(if cursor <= value@.len() { cursor as int } else { value@.len() as int })),
{
    let v = chars_of(value);
    let n = if cursor <= v.len() {
        cursor
    } else {
        v.len()
    };
    let mut total: usize = 0;
    let mut i: usize = 0;
    while i < n
        invariant
            i <= n <= v.len(),
            v@ == value@,
            text_fits(value@),
            total == sum_w(v@.take(i as int)),
            total <= 3 * i,
        decreases n - i,
    {
        let w = char_display_width(v[i]);
        proof {
            lemma_sum_w_take(v@, i as int);
        }
        total = total + w;
        i += 1;
    }
    total
}

/// Length of the longest prefix of `s` whose character widths sum to at
/// most `max`.
pub open spec fn is_fit_len(s: Seq<char>, max: nat, k: nat) -> bool {
    &&& k <= s.len()
    &&& sum_w(s.take(k as int)) <= max
    &&& (k < s.len() ==> sum_w(s.take(k as int + 1)) > max)
}

/// Only one length fits: the contract of `fit_len` fixes its result.
pub proof fn lemma_fit_len_unique(s: Seq<char>, max: nat, k1: nat, k2: nat)
    requires
        is_fit_len(s, max, k1),
        is_fit_len(s, max, k2),
    ensures
        k1 == k2,
{
    if k1 < k2 {
        lemma_sum_w_mono(s, k1 as int + 1, k2 as int);
    } else if k2 < k1 {
        lemma_sum_w_mono(s, k2 as int + 1, k1 as int);
    }
}

/// Number of leading characters of `v` that fit in `max` columns.
pub fn fit_len(v: &[char], max: usize) -> (k: usize)
    ensures
        is_fit_len(v@, max as nat, k as nat),
{
    let mut width: usize = 0;
    let mut i: usize = 0;
    while i < v.len()
        invariant
            i <= v.len(),
            width == sum_w(v@.take(i as int)),
            width <= max,
        decreases v.len() - i,
    {
        let w = char_display_width(v[i]);
        proof {
            lemma_sum_w_take(v@, i as int);
        }
        if w > max - width {
            return i;
        }
        width = width + w;
        i += 1;
    }
    proof {
        assert(v@.take(v@.len() as int) =~= v@);
    }
    i
}

/// `text` shortened to the longest prefix that fits in `max_width` columns.
pub open spec fn truncated_to(s: Seq<char>, max: nat, k: nat) -> bool {
    if display_w(s) <= max {
        k == s.len()
    } else {
        is_fit_len(s, max, k)
    }
}

/// `text` when it fits in `max_width` columns, else its longest prefix
/// whose characters fit.
pub fn truncate_to_display_width(text: &str, max_width: usize) -> (r: String)
    requires
        text_fits(text@),
    ensures
        exists|k: nat| truncated_to(text@, max_width as nat, k) && r@ == text@.take(k as int),
{
    if display_width(text) <= max_width {
        proof {
            assert(text@.take(text@.len() as int) =~= text@);
        }
        return String::from_str(text);
    }
    let v = chars_of(text);
    let k = fit_len(&v, max_width);
    string_of_range(&v, 0, k)
}

/// `s` with every `from` replaced by `to` (`str::replace` on characters).
pub open spec fn replace_char(s: Seq<char>, from: char, to: char) -> Seq<char> {
    Seq::new(s.len(), |i: int| if s[i] == from { to } else { s[i] })
}

pub fn replace_char_exec(s: &str, from: char, to: char) -> (r: String)
    ensures
        r@ == replace_char(s@, from, to),
{
    let v = chars_of(s);
    let mut r = String::new();
    let mut i: usize = 0;
    while i < v.len()
        invariant
            i <= v.len(),
            v@ == s@,
            r@ == replace_char(s@, from, to).take(i as int),
        decreases v.len() - i,
    {
        let c = if v[i] == from {
            to
        } else {
            v[i]
        };
        r.push(c);
        assert(replace_char(s@, from, to).take(i as int + 1) =~= replace_char(s@, from, to).take(
            i as int,
        ).push(c));
        i += 1;
    }
    assert(replace_char(s@, from, to).take(v@.len() as int) =~= replace_char(s@, from, to));
    r
}

/// What `truncate_one_line` returns: line breaks become spaces, and text
/// wider than `width` is cut and ends in an ellipsis.
pub open spec fn one_line_result(s: Seq<char>, width: nat, r: Seq<char>) -> bool {
    let t = replace_char(s, '\n', ' ');
    if unicode_str_width(t) <= width {
        r == t
    } else if width == 0 {
        r == Seq::<char>::empty()
    } else if width == 1 {
        r == seq!['…']
    } else {
        exists|k: nat| truncated_to(t, (width - 1) as nat, k) && r == t.take(k as int).push('…')
    }
}

/// `text` on one line, cut to `width` columns with a trailing ellipsis.
pub fn truncate_one_line(text: &str, width: usize) -> (r: String)
    requires
        text_fits(text@),
    ensures
        one_line_result(text@, width as nat, r@),
{
    let t = replace_char_exec(text, '\n', ' ');
    if unicode_width_of_str(t.as_str()) <= width {
        return t;
    }
    if width == 0 {
        return String::new();
    }
    if width == 1 {
        let mut r = String::new();
        r.push('…');
        return r;
    }
    let mut r = truncate_to_display_width(t.as_str(), width - 1);
    r.push('…');
    r
}

/// One step of hard wrapping: the finished chunks, the chunk being filled
/// and its width.
pub open spec fn hard_wrap_step(
    st: (Seq<Seq<char>>, Seq<char>, nat),
    ch: char,
    width: nat,
) -> (Seq<Seq<char>>, Seq<char>, nat) {
    let w = char_w(ch);
    let (chunks, cur, cw) = if st.2 > 0 && st.2 + w > width {
        (st.0.push(st.1), Seq::<char>::empty(), 0nat)
    } else {
        st
    };
    let cur2 = cur.push(ch);
    let cw2 = cw + w;
    if cw2 >= width {
        (chunks.push(cur2), Seq::<char>::empty(), 0nat)
    } else {
        (chunks, cur2, cw2)
    }
}

pub open spec fn hard_wrap_state(s: Seq<char>, width: nat) -> (Seq<Seq<char>>, Seq<char>, nat)
    decreases s.len(),
{
    if s.len() == 0 {
        (Seq::empty(), Seq::empty(), 0)
    } else {
        hard_wrap_step(hard_wrap_state(s.drop_last(), width), s.last(), width)
    }
}

/// The chunks of `s` when it is cut wherever the next character would pass
/// `width` columns, and after every chunk that fills `width` columns.
pub open spec fn hard_wrap(s: Seq<char>, width: nat) -> Seq<Seq<char>> {
    if s.len() == 0 {
        seq![Seq::empty()]
    } else {
        let st = hard_wrap_state(s, width);
        if st.1.len() > 0 {
            st.0.push(st.1)
        } else {
            st.0
        }
    }
}

pub open spec fn strings_view(v: Seq<String>) -> Seq<Seq<char>> {
    Seq::new(v.len(), |i: int| v[i]@)
}

/// `line` cut into chunks of at most `width` columns (a chunk is wider only
/// when all its characters but the last are zero-width; see
/// `lemma_hard_wrap_fits`).
pub fn wrap_line_hard(line: &str, width: usize) -> (chunks: Vec<String>)
    ensures
        strings_view(chunks@) == hard_wrap(line@, width as nat),
{
    let v = chars_of(line);
    let mut chunks: Vec<String> = Vec::new();
    if v.len() == 0 {
        chunks.push(String::new());
        assert(strings_view(chunks@) =~= hard_wrap(line@, width as nat));
        return chunks;
    }
    let mut current: Vec<char> = Vec::new();
    let mut current_width: usize = 0;
    let mut i: usize = 0;
    proof {
        assert(v@.take(0) =~= Seq::<char>::empty());
        assert(strings_view(chunks@) =~= Seq::<Seq<char>>::empty());
    }
    while i < v.len()
        invariant
            i <= v.len(),
            v@ == line@,
            hard_wrap_state(v@.take(i as int), width as nat) == (
                strings_view(chunks@),
                current@,
                current_width as nat,
            ),
            current_width == 0 || current_width < width,
        decreases v.len() - i,
    {
        let ch = v[i];
        let ch_width = char_display_width(ch);
        proof {
            assert(v@.take(i as int + 1).drop_last() =~= v@.take(i as int));
        }
        let ghost before = chunks@;
        if current_width > 0 && ch_width > width - current_width {
            let s = string_of(&current);
            chunks.push(s);
            current = Vec::new();
            current_width = 0;
            proof {
                assert(strings_view(chunks@) =~= strings_view(before).push(s@));
            }
        }
        let ghost mid = chunks@;
        current.push(ch);
        current_width = current_width + ch_width;
        if current_width >= width {
            let s = string_of(&current);
            chunks.push(s);
            current = Vec::new();
            current_width = 0;
            proof {
                assert(strings_view(chunks@) =~= strings_view(mid).push(s@));
            }
        }
        i += 1;
    }
    proof {
        assert(v@.take(v@.len() as int) =~= v@);
    }
    if current.len() > 0 {
        let ghost before = chunks@;
        let s = string_of(&current);
        chunks.push(s);
        proof {
            assert(strings_view(chunks@) =~= strings_view(before).push(s@));
        }
    }
    chunks
}

/// Hard wrapping keeps every character, in order: the chunks put back
/// together give the line back.
pub proof fn lemma_hard_wrap_keeps_text(s: Seq<char>, width: nat)
    ensures
        hard_wrap(s, width).flatten_alt() == s,
{
    lemma_hard_wrap_state_text(s, width);
    let st = hard_wrap_state(s, width);
    if s.len() == 0 {
        assert(seq![Seq::<char>::empty()].drop_last() =~= Seq::<Seq<char>>::empty());
        assert(hard_wrap(s, width).flatten_alt() =~= s);
    } else if st.1.len() > 0 {
        assert(st.0.push(st.1).drop_last() =~= st.0);
    } else {
        assert(st.0.flatten_alt() + st.1 =~= st.0.flatten_alt());
    }
}

/// No chunk of a hard-wrapped line is longer than the line.
pub proof fn lemma_hard_wrap_chunk_len(s: Seq<char>, width: nat)
    ensures
        forall|k: int| 0 <= k < hard_wrap(s, width).len() ==> (#[trigger] hard_wrap(s, width)[k]).len() <= s.len(),
{
    lemma_hard_wrap_keeps_text(s, width);
    assert forall|k: int| 0 <= k < hard_wrap(s, width).len() implies (#[trigger] hard_wrap(s, width)[k]).len()
        <= s.len() by {
        hard_wrap(s, width).lemma_flatten_length_ge_single_element_length(k);
    }
}

proof fn lemma_hard_wrap_state_text(s: Seq<char>, width: nat)
    ensures
        hard_wrap_state(s, width).0.flatten_alt() + hard_wrap_state(s, width).1 == s,
    decreases s.len(),
{
    if s.len() == 0 {
        assert(Seq::<Seq<char>>::empty().flatten_alt() + Seq::<char>::empty() =~= s);
    } else {
        let prev = hard_wrap_state(s.drop_last(), width);
        lemma_hard_wrap_state_text(s.drop_last(), width);
        let ch = s.last();
        let w = char_w(ch);
        let mid = if prev.2 > 0 && prev.2 + w > width {
            (prev.0.push(prev.1), Seq::<char>::empty(), 0nat)
        } else {
            prev
        };
        if prev.2 > 0 && prev.2 + w > width {
            assert(prev.0.push(prev.1).drop_last() =~= prev.0);
            assert(mid.0.flatten_alt() + mid.1 =~= s.drop_last());
        }
        assert(mid.0.flatten_alt() + mid.1 == s.drop_last());
        let cur2 = mid.1.push(ch);
        assert(s =~= s.drop_last().push(ch));
        assert(mid.0.flatten_alt() + cur2 =~= (mid.0.flatten_alt() + mid.1).push(ch));
        if mid.2 + w >= width {
            assert(mid.0.push(cur2).drop_last() =~= mid.0);
            assert(mid.0.push(cur2).flatten_alt() + Seq::<char>::empty() =~= s);
        } else {
            assert(mid.0.flatten_alt() + cur2 =~= s);
        }
    }
}

/// Whether a chunk fits `width` columns, or is wider only by its last
/// character, everything before which takes no room.
pub open spec fn chunk_fits(c: Seq<char>, width: nat) -> bool {
    sum_w(c) <= width || sum_w(c.drop_last()) == 0
}

/// Whether a chunk was cut as late as it could be: it fills `width`
/// columns, or the character `next` that follows it would pass them.
pub open spec fn cut_greedily(c: Seq<char>, next: char, width: nat) -> bool {
    sum_w(c) >= width || sum_w(c) + char_w(next) > width
}

proof fn lemma_hard_wrap_state_shape(s: Seq<char>, width: nat)
    ensures
        ({
            let st = hard_wrap_state(s, width);
            &&& st.2 == sum_w(st.1)
            &&& st.1.len() > 0 ==> st.2 < width
            &&& forall|k: int| 0 <= k < st.0.len() ==> (#[trigger] st.0[k]).len() > 0 && chunk_fits(st.0[k], width)
            &&& forall|k: int| 0 <= k < st.0.len() - 1 ==> cut_greedily(#[trigger] st.0[k], st.0[k + 1][0], width)
            &&& st.0.len() > 0 ==> (sum_w(st.0.last()) >= width || (st.1.len() > 0 && sum_w(st.0.last()) + char_w(
                st.1[0],
            ) > width))
        }),
    decreases s.len(),
{
    if s.len() > 0 {
        lemma_hard_wrap_state_shape(s.drop_last(), width);
        let prev = hard_wrap_state(s.drop_last(), width);
        let ch = s.last();
        let w = char_w(ch);
        let split = prev.2 > 0 && prev.2 + w > width;
        let mid = if split {
            (prev.0.push(prev.1), Seq::<char>::empty(), 0nat)
        } else {
            prev
        };
        if split {
            assert(prev.1.len() > 0);
            assert(mid.0.last() == prev.1);
            assert forall|k: int| 0 <= k < mid.0.len() - 1 implies cut_greedily(
                #[trigger] mid.0[k],
                mid.0[k + 1][0],
                width,
            ) by {
                if k < prev.0.len() - 1 {
                    assert(mid.0[k] == prev.0[k] && mid.0[k + 1] == prev.0[k + 1]);
                } else {
                    assert(mid.0[k] == prev.0.last() && mid.0[k + 1] == prev.1);
                }
            }
            assert forall|k: int| 0 <= k < mid.0.len() implies (#[trigger] mid.0[k]).len() > 0 && chunk_fits(
                mid.0[k],
                width,
            ) by {
                if k < prev.0.len() {
                    assert(mid.0[k] == prev.0[k]);
                }
            }
        }
        let cur2 = mid.1.push(ch);
        assert(cur2.drop_last() =~= mid.1);
        assert(cur2[0] == (if mid.1.len() > 0 { mid.1[0] } else { ch }));
        assert(sum_w(Seq::<char>::empty()) == 0);
        assert(mid.2 == sum_w(mid.1));
        assert(cur2.last() == ch);
        assert(sum_w(cur2) == sum_w(mid.1) + w);
        let st = hard_wrap_state(s, width);
        assert(st == hard_wrap_step(prev, ch, width));
        if mid.2 + w >= width {
            assert(st == (mid.0.push(cur2), Seq::<char>::empty(), 0nat));
            assert(sum_w(Seq::<char>::empty()) == 0);
        } else {
            assert(st == (mid.0, cur2, mid.2 + w));
        }
        if mid.2 + w >= width {
            let out = mid.0.push(cur2);
            assert(out.last() == cur2);
            assert forall|k: int| 0 <= k < out.len() - 1 implies cut_greedily(
                #[trigger] out[k],
                out[k + 1][0],
                width,
            ) by {
                if k < mid.0.len() - 1 {
                    assert(out[k] == mid.0[k] && out[k + 1] == mid.0[k + 1]);
                } else {
                    assert(out[k] == mid.0.last() && out[k + 1] == cur2);
                }
            }
            assert forall|k: int| 0 <= k < out.len() implies (#[trigger] out[k]).len() > 0 && chunk_fits(
                out[k],
                width,
            ) by {
                if k < mid.0.len() {
                    assert(out[k] == mid.0[k]);
                }
            }
        }
    }
}

/// Hard wrapping cuts as late as it can: every chunk fits the width (or
/// is wider only by its last character, all before it zero-width), no
/// chunk is empty unless the line is, and each chunk but the last fills
/// the width or would pass it with the first character of the next.
pub proof fn lemma_hard_wrap_fits(s: Seq<char>, width: nat)
    ensures
        forall|k: int| 0 <= k < hard_wrap(s, width).len() ==> chunk_fits(#[trigger] hard_wrap(s, width)[k], width),
        s.len() > 0 ==> forall|k: int| 0 <= k < hard_wrap(s, width).len() ==> (#[trigger] hard_wrap(s, width)[k]).len() > 0,
        forall|k: int|
            0 <= k < hard_wrap(s, width).len() - 1 ==> cut_greedily(
                #[trigger] hard_wrap(s, width)[k],
                hard_wrap(s, width)[k + 1][0],
                width,
            ),
{
    lemma_hard_wrap_state_shape(s, width);
    let st = hard_wrap_state(s, width);
    let hw = hard_wrap(s, width);
    if s.len() == 0 {
        assert(hw[0] =~= Seq::<char>::empty());
    } else if st.1.len() > 0 {
        assert(st.1.drop_last().len() < st.1.len());
        assert forall|k: int| 0 <= k < hw.len() implies chunk_fits(#[trigger] hw[k], width) && hw[k].len() > 0 by {
            if k < st.0.len() {
                assert(hw[k] == st.0[k]);
            } else {
                assert(hw[k] == st.1);
            }
        }
        assert forall|k: int| 0 <= k < hw.len() - 1 implies cut_greedily(#[trigger] hw[k], hw[k + 1][0], width) by {
            if k < st.0.len() - 1 {
                assert(hw[k] == st.0[k] && hw[k + 1] == st.0[k + 1]);
            } else {
                assert(hw[k] == st.0.last() && hw[k + 1] == st.1);
            }
        }
    }
}

} // verus!

//! Drawing Markdown as styled terminal lines: resolved inline pieces
//! wrapped at white space, code blocks in a frame with a copy button,
//! dividers and tables.
use vstd::prelude::*;
use crate::markdown::{
    code_block_copy_columns, code_block_copy_label, inline_text, lemma_inline_text_len, markdown_inline_segments,
    segments_of, segments_text, segs_view, SegmentStyle, StyledSegment,
};
use crate::markdown_table::{
    cells_within, lemma_parse_table_size, lines_view, markdown_table_column_widths, parse_markdown_table,
    parse_table, rows_view, table_cell_padding, table_cells_fit, table_parse_is_safe, table_parse_safe,
    table_widths, MarkdownTable, TableAlignment,
};
use crate::markdown::{
    divider, fence_fragment, has_unresolved_inline_markdown, in_code_block_at, is_fence_line, is_fence_line_in,
    is_markdown_divider, lemma_line_start_of, line_start_in, line_start_of, line_starts_in_code_block,
    starts_with_code_fence_fragment, unresolved_inline,
};
use crate::questionnaire::{join_seqs, join_strings};
use crate::wrap::{lemma_str_lines_len, str_lines, text_lines};
use crate::text::{chars_of, push_str, repeat, repeat_char, string_of_range, text_fits};
use crate::width::{display_w, display_width, hard_wrap, lemma_hard_wrap_chunk_len, strings_view, wrap_line_hard};
use crate::wrap::{lemma_ws_ranges_cover, lemma_ws_ranges_within, ranges_view, wrap_line_at_whitespace_ranges, ws_ranges};

verus! {

/// How a span of drawn Markdown looks: the theme's roles for body text,
/// dimmed text, code blocks and the copy button, a resolved inline piece,
/// no style at all, or a style that only takes an underline away.
#[derive(Clone, Copy, Debug, PartialEq, Eq, Structural)]
pub enum SpanStyle {
    Text,
    Dim,
    CodeBlock,
    CopyButton,
    Inline(SegmentStyle),
    Plain,
    NotUnderlined,
}

/// A run of text drawn in one style; `bold` adds bold on top of the style.
#[derive(Clone, Debug)]
pub struct StyledSpan {
    pub text: String,
    pub style: SpanStyle,
    pub bold: bool,
}

/// One terminal row of drawn Markdown.
#[derive(Clone, Debug)]
pub struct StyledLine {
    pub spans: Vec<StyledSpan>,
}

pub open spec fn span_view(s: StyledSpan) -> (Seq<char>, SpanStyle, bool) {
    (s.text@, s.style, s.bold)
}

pub open spec fn spans_view(v: Seq<StyledSpan>) -> Seq<(Seq<char>, SpanStyle, bool)> {
    Seq::new(v.len(), |i: int| span_view(v[i]))
}

pub open spec fn line_view(l: StyledLine) -> Seq<(Seq<char>, SpanStyle, bool)> {
    spans_view(l.spans@)
}

pub open spec fn drawn(v: Seq<StyledLine>) -> Seq<Seq<(Seq<char>, SpanStyle, bool)>> {
    Seq::new(v.len(), |i: int| line_view(v[i]))
}

/// A line of one span.
pub open spec fn one_span(text: Seq<char>, style: SpanStyle) -> Seq<(Seq<char>, SpanStyle, bool)> {
    seq![(text, style, false)]
}

// ---------------------------------------------------------------------
// Wrapping resolved pieces
// ---------------------------------------------------------------------

/// Styled characters joined into spans: a character joins the span before
/// it when both have the same style.
pub open spec fn merge_chars(cs: Seq<(char, SegmentStyle)>) -> Seq<(Seq<char>, SpanStyle, bool)>
    decreases cs.len(),
{
    if cs.len() == 0 {
        Seq::empty()
    } else {
        let prev = merge_chars(cs.drop_last());
        let c = cs.last();
        if prev.len() > 0 && prev.last().1 == SpanStyle::Inline(c.1) {
            prev.update(prev.len() - 1, (prev.last().0.push(c.0), prev.last().1, prev.last().2))
        } else {
            prev.push((seq![c.0], SpanStyle::Inline(c.1), false))
        }
    }
}

/// The spans of a row of styled characters; a row without characters is
/// one empty span that takes the underline away.
pub open spec fn merged_line(cs: Seq<(char, SegmentStyle)>) -> Seq<(Seq<char>, SpanStyle, bool)> {
    if cs.len() == 0 {
        one_span(Seq::empty(), SpanStyle::NotUnderlined)
    } else {
        merge_chars(cs)
    }
}

/// The characters of the pieces, each with the style of its piece.
pub open spec fn seg_chars(segs: Seq<(Seq<char>, SegmentStyle)>) -> Seq<(char, SegmentStyle)>
    decreases segs.len(),
{
    if segs.len() == 0 {
        Seq::empty()
    } else {
        seg_chars(segs.drop_last()) + Seq::new(
            segs.last().0.len(),
            |i: int| (segs.last().0[i], segs.last().1),
        )
    }
}

pub proof fn lemma_seg_chars(segs: Seq<(Seq<char>, SegmentStyle)>)
    ensures
        seg_chars(segs).len() == segments_text(segs).len(),
        forall|i: int| 0 <= i < seg_chars(segs).len() ==> (#[trigger] seg_chars(segs)[i]).0 == segments_text(segs)[i],
    decreases segs.len(),
{
    if segs.len() > 0 {
        lemma_seg_chars(segs.drop_last());
    }
}

/// The resolved pieces of a line wrapped at white space to `width`
/// columns, each row drawn as its spans.
pub open spec fn wrapped_styled(segs: Seq<(Seq<char>, SegmentStyle)>, width: nat) -> Seq<
    Seq<(Seq<char>, SpanStyle, bool)>,
> {
    let rs = ws_ranges(segments_text(segs), width);
    Seq::new(rs.len(), |k: int| merged_line(seg_chars(segs).subrange(rs[k].0, rs[k].1)))
}

fn one_char(ch: char) -> (s: String)
    ensures
        s@ == seq![ch],
{
    let mut s = String::new();
    s.push(ch);
    s
}

/// The spans of the styled characters `from..to` (see `merged_line`).
fn merge_styled_chars(chars: &[(char, SegmentStyle)], from: usize, to: usize) -> (line: StyledLine)
    requires
        from <= to <= chars@.len(),
    ensures
        line_view(line) == merged_line(chars@.subrange(from as int, to as int)),
{
    let mut spans: Vec<StyledSpan> = Vec::new();
    let mut i = from;
    assert(spans_view(spans@) =~= merge_chars(chars@.subrange(from as int, from as int)));
    while i < to
        invariant
            from <= i <= to <= chars@.len(),
            spans_view(spans@) == merge_chars(chars@.subrange(from as int, i as int)),
        decreases to - i,
    {
        let (ch, st) = chars[i];
        let style = SpanStyle::Inline(st);
        let ghost prev = spans_view(spans@);
        let ghost cs = chars@.subrange(from as int, i + 1);
        assert(cs.drop_last() =~= chars@.subrange(from as int, i as int));
        assert(cs.last() == (ch, st));
        match spans.pop() {
            Some(last) => {
                assert(span_view(last) == prev.last());
                assert(spans_view(spans@) =~= prev.drop_last());
                if last.style == style {
                    let mut t = last.text;
                    t.push(ch);
                    let grown = StyledSpan { text: t, style: last.style, bold: last.bold };
                    spans.push(grown);
                    assert(spans_view(spans@) =~= prev.update(
                        prev.len() - 1,
                        (prev.last().0.push(ch), prev.last().1, prev.last().2),
                    ));
                } else {
                    spans.push(last);
                    spans.push(StyledSpan { text: one_char(ch), style, bold: false });
                    assert(spans_view(spans@) =~= prev.push((seq![ch], style, false)));
                }
            },
            None => {
                spans.push(StyledSpan { text: one_char(ch), style, bold: false });
                assert(spans_view(spans@) =~= prev.push((seq![ch], style, false)));
            },
        }
        i += 1;
    }
    if spans.len() == 0 {
        spans.push(StyledSpan { text: String::new(), style: SpanStyle::NotUnderlined, bold: false });
        assert(spans_view(spans@) =~= one_span(Seq::empty(), SpanStyle::NotUnderlined));
    }
    StyledLine { spans }
}

/// The resolved pieces of a line wrapped at white space to `width`
/// columns (see `wrapped_styled`).
pub fn wrap_styled_segments(segments: &[StyledSegment], width: usize) -> (lines: Vec<StyledLine>)
    ensures
        drawn(lines@) == wrapped_styled(segs_view(segments@), width as nat),
{
    let ghost sv = segs_view(segments@);
    let mut text = String::new();
    let mut chars: Vec<(char, SegmentStyle)> = Vec::new();
    let mut i: usize = 0;
    assert(sv.take(0) =~= Seq::<(Seq<char>, SegmentStyle)>::empty());
    while i < segments.len()
        invariant
            i <= segments@.len(),
            sv == segs_view(segments@),
            text@ == segments_text(sv.take(i as int)),
            chars@ == seg_chars(sv.take(i as int)),
        decreases segments@.len() - i,
    {
        let seg = &segments[i];
        let cs = chars_of(seg.text.as_str());
        let ghost t0 = text@;
        let ghost c0 = chars@;
        let mut j: usize = 0;
        while j < cs.len()
            invariant
                j <= cs@.len(),
                text@ == t0 + cs@.take(j as int),
                chars@ == c0 + Seq::new(j as nat, |k: int| (cs@[k], seg.style)),
            decreases cs@.len() - j,
        {
            text.push(cs[j]);
            chars.push((cs[j], seg.style));
            assert(cs@.take(j as int + 1) =~= cs@.take(j as int).push(cs@[j as int]));
            assert(c0 + Seq::new(j as nat + 1, |k: int| (cs@[k], seg.style)) =~= (c0 + Seq::new(
                j as nat,
                |k: int| (cs@[k], seg.style),
            )).push((cs@[j as int], seg.style)));
            j += 1;
        }
        proof {
            assert(sv.take(i as int + 1).drop_last() =~= sv.take(i as int));
            assert(sv.take(i as int + 1).last() == (seg.text@, seg.style));
            assert(cs@.take(cs@.len() as int) =~= cs@);
            assert(Seq::new(cs@.len(), |k: int| (cs@[k], seg.style)) =~= Seq::new(
                sv.take(i as int + 1).last().0.len(),
                |k: int| (sv.take(i as int + 1).last().0[k], sv.take(i as int + 1).last().1),
            ));
        }
        i += 1;
    }
    proof {
        assert(sv.take(segments@.len() as int) =~= sv);
        lemma_seg_chars(sv);
        lemma_ws_ranges_within(text@, width as nat);
    }
    let ranges = wrap_line_at_whitespace_ranges(text.as_str(), width);
    let ghost rs = ranges_view(ranges@);
    let mut lines: Vec<StyledLine> = Vec::new();
    let mut k: usize = 0;
    while k < ranges.len()
        invariant
            k <= ranges@.len(),
            rs == ranges_view(ranges@),
            rs == ws_ranges(segments_text(sv), width as nat),
            chars@ == seg_chars(sv),
            chars@.len() == segments_text(sv).len(),
            forall|j: int| 0 <= j < rs.len() ==> 0 <= (#[trigger] rs[j]).0 <= rs[j].1 <= segments_text(sv).len(),
            drawn(lines@) == Seq::new(
                k as nat,
                |q: int| merged_line(seg_chars(sv).subrange(rs[q].0, rs[q].1)),
            ),
        decreases ranges@.len() - k,
    {
        let start = ranges[k].start;
        let end = ranges[k].end;
        assert(rs[k as int] == (start as int, end as int));
        let line = merge_styled_chars(&chars, start, end);
        let ghost before = drawn(lines@);
        lines.push(line);
        assert(drawn(lines@) =~= before.push(line_view(line)));
        assert(drawn(lines@) =~= Seq::new(
            k as nat + 1,
            |q: int| merged_line(seg_chars(sv).subrange(rs[q].0, rs[q].1)),
        ));
        k += 1;
    }
    lines
}

// ---------------------------------------------------------------------
// Code blocks and dividers
// ---------------------------------------------------------------------

/// Whether a code block's top border carries a copy button.
#[derive(Clone, Copy, Debug, PartialEq, Eq, Structural)]
pub enum CodeBlockCopyButton {
    Visible,
    Hidden,
}

/// `n` horizontal box-drawing strokes.
pub open spec fn strokes(n: nat) -> Seq<char> {
    repeat_char('─', n)
}

/// The top (`╭`) or bottom (`╰`) border of a code block `width` columns
/// wide (at least one): a lone corner at one column; otherwise the corner,
/// strokes and the matching closing corner, except that a top border with a
/// visible button and at least six columns ends with the button label
/// (" COPY " from nine columns, "COPY" below) just before its closing
/// corner.
pub open spec fn code_border(width: nat, corner: char, copy_button: CodeBlockCopyButton) -> Seq<
    (Seq<char>, SpanStyle, bool),
> {
    let w = if width == 0 {
        1
    } else {
        width
    };
    let closing = if corner == '╭' {
        '╮'
    } else {
        '╯'
    };
    if w == 1 {
        one_span(seq![corner], SpanStyle::CodeBlock)
    } else if corner == '╭' && copy_button == CodeBlockCopyButton::Visible && w >= 6 {
        let start: int = if w >= 9 {
            w - 7
        } else {
            w - 5
        };
        let label = if w >= 9 {
            " COPY "@
        } else {
            "COPY"@
        };
        seq![
            (seq![corner] + strokes((start - 1) as nat), SpanStyle::CodeBlock, false),
            (label, SpanStyle::CopyButton, false),
            (seq![closing], SpanStyle::CodeBlock, false),
        ]
    } else {
        one_span(seq![corner] + strokes((w - 2) as nat) + seq![closing], SpanStyle::CodeBlock)
    }
}

fn code_span(text: String) -> (s: StyledSpan)
    ensures
        span_view(s) == (text@, SpanStyle::CodeBlock, false),
{
    StyledSpan { text, style: SpanStyle::CodeBlock, bold: false }
}

fn single_span_line(text: String, style: SpanStyle) -> (l: StyledLine)
    ensures
        line_view(l) == one_span(text@, style),
{
    let mut spans: Vec<StyledSpan> = Vec::new();
    spans.push(StyledSpan { text, style, bold: false });
    assert(spans_view(spans@) =~= one_span(text@, style));
    StyledLine { spans }
}

/// A border of a code block (see `code_border`).
pub fn code_block_border(width: usize, corner: char, copy_button: CodeBlockCopyButton) -> (line: StyledLine)
    ensures
        line_view(line) == code_border(width as nat, corner, copy_button),
{
    let w = if width == 0 {
        1
    } else {
        width
    };
    if w == 1 {
        return single_span_line(one_char(corner), SpanStyle::CodeBlock);
    }
    let closing = if corner == '╭' {
        '╮'
    } else {
        '╯'
    };
    let columns = if corner == '╭' && copy_button == CodeBlockCopyButton::Visible {
        code_block_copy_columns(w)
    } else {
        None
    };
    match columns {
        Some(cols) => {
            let label = match code_block_copy_label(w) {
                Some(l) => l,
                None => "",
            };
            let mut left = one_char(corner);
            let line_part = repeat('─', cols.start - 1);
            push_str(&mut left, line_part.as_str());
            let mut spans: Vec<StyledSpan> = Vec::new();
            spans.push(code_span(left));
            spans.push(StyledSpan { text: String::from_str(label), style: SpanStyle::CopyButton, bold: false });
            spans.push(code_span(one_char(closing)));
            proof {
                reveal_strlit(" COPY ");
                reveal_strlit("COPY");
                assert(left@ =~= seq![corner] + strokes((cols.start - 1) as nat));
                assert(spans_view(spans@) =~~= code_border(width as nat, corner, copy_button));
            }
            StyledLine { spans }
        },
        None => {
            let mut text = one_char(corner);
            let middle = repeat('─', w - 2);
            push_str(&mut text, middle.as_str());
            text.push(closing);
            assert(text@ =~= seq![corner] + strokes((w - 2) as nat) + seq![closing]);
            single_span_line(text, SpanStyle::CodeBlock)
        },
    }
}

/// The rows of one line inside a code block `width` columns wide: at one
/// column the line hard-wrapped to one column; at two or three a left
/// border and the line wrapped to the rest; wider, the line wrapped to
/// `width - 4` columns (at least one) and each chunk framed as
/// "│ chunk │", padded with spaces to the content width.
pub open spec fn code_content(line: Seq<char>, width: nat) -> Seq<Seq<(Seq<char>, SpanStyle, bool)>> {
    if width <= 1 {
        let cs = hard_wrap(line, 1);
        Seq::new(cs.len(), |i: int| one_span(cs[i], SpanStyle::CodeBlock))
    } else if width <= 3 {
        let cs = hard_wrap(line, (width - 1) as nat);
        Seq::new(cs.len(), |i: int| one_span(seq!['│'] + cs[i], SpanStyle::CodeBlock))
    } else {
        let cw = (width - 4) as nat;
        let cs = hard_wrap(
            line,
            if cw == 0 {
                1
            } else {
                cw
            },
        );
        Seq::new(
            cs.len(),
            |i: int|
                one_span(
                    seq!['│', ' '] + cs[i] + repeat_char(
                        ' ',
                        if display_w(cs[i]) < cw {
                            (cw - display_w(cs[i])) as nat
                        } else {
                            0
                        },
                    ) + seq![' ', '│'],
                    SpanStyle::CodeBlock,
                ),
        )
    }
}

/// The rows of one line inside a code block (see `code_content`).
pub fn code_block_content_lines(line: &str, width: usize) -> (lines: Vec<StyledLine>)
    requires
        text_fits(line@),
    ensures
        drawn(lines@) == code_content(line@, width as nat),
{
    let chunk_width: usize = if width <= 1 {
        1
    } else if width <= 3 {
        width - 1
    } else if width == 4 {
        1
    } else {
        width - 4
    };
    let chunks = wrap_line_hard(line, chunk_width);
    proof {
        lemma_hard_wrap_chunk_len(line@, chunk_width as nat);
    }
    let ghost cs = hard_wrap(line@, chunk_width as nat);
    let mut lines: Vec<StyledLine> = Vec::new();
    let mut i: usize = 0;
    while i < chunks.len()
        invariant
            i <= chunks@.len(),
            cs == hard_wrap(line@, chunk_width as nat),
            cs.len() == chunks@.len(),
            forall|k: int| 0 <= k < chunks@.len() ==> (#[trigger] chunks@[k])@ == cs[k],
            forall|k: int| 0 <= k < cs.len() ==> (#[trigger] cs[k]).len() <= line@.len(),
            text_fits(line@),
            chunk_width == (if width <= 1 {
                1
            } else if width <= 3 {
                width - 1
            } else if width == 4 {
                1
            } else {
                width - 4
            }),
            drawn(lines@) == code_content(line@, width as nat).take(i as int),
            code_content(line@, width as nat).len() == cs.len(),
        decreases chunks@.len() - i,
    {
        let chunk = &chunks[i];
        assert(chunk@ == cs[i as int]);
        let text = if width <= 1 {
            String::from_str(chunk.as_str())
        } else if width <= 3 {
            let mut t = one_char('│');
            push_str(&mut t, chunk.as_str());
            t
        } else {
            let content_width = width - 4;
            let w = display_width(chunk.as_str());
            let pad = repeat(' ', content_width.saturating_sub(w));
            let mut t = one_char('│');
            t.push(' ');
            push_str(&mut t, chunk.as_str());
            push_str(&mut t, pad.as_str());
            t.push(' ');
            t.push('│');
            assert(t@ =~= seq!['│', ' '] + cs[i as int] + repeat_char(
                ' ',
                if display_w(cs[i as int]) < content_width {
                    (content_width - display_w(cs[i as int])) as nat
                } else {
                    0
                },
            ) + seq![' ', '│']);
            t
        };
        let ghost before = drawn(lines@);
        lines.push(single_span_line(text, SpanStyle::CodeBlock));
        proof {
            assert(drawn(lines@) =~= before.push(one_span(text@, SpanStyle::CodeBlock)));
            if width > 1 && width <= 3 {
                assert(text@ =~= seq!['│'] + cs[i as int]);
            }
            assert(code_content(line@, width as nat)[i as int] == one_span(text@, SpanStyle::CodeBlock));
            assert(code_content(line@, width as nat).take(i as int + 1) =~= code_content(line@, width as nat).take(
                i as int,
            ).push(one_span(text@, SpanStyle::CodeBlock)));
        }
        i += 1;
    }
    assert(code_content(line@, width as nat).take(chunks@.len() as int) =~= code_content(line@, width as nat));
    lines
}

/// A divider: strokes across the width (at least one), dimmed.
pub open spec fn divider_line(width: nat) -> Seq<(Seq<char>, SpanStyle, bool)> {
    one_span(
        strokes(
            if width == 0 {
                1
            } else {
                width
            },
        ),
        SpanStyle::Dim,
    )
}

/// A divider line (see `divider_line`).
pub fn markdown_divider(width: usize) -> (line: StyledLine)
    ensures
        line_view(line) == divider_line(width as nat),
{
    let w = if width == 0 {
        1
    } else {
        width
    };
    single_span_line(repeat('─', w), SpanStyle::Dim)
}

// ---------------------------------------------------------------------
// Tables
// ---------------------------------------------------------------------

/// `n` spaces.
pub open spec fn spaces(n: nat) -> Seq<char> {
    repeat_char(' ', n)
}

/// The part of a table border after its left corner: for each column its
/// width plus two in strokes, then a junction, or the right corner after
/// the last column.
pub open spec fn border_cols(ws: Seq<usize>, k: int, junction: char, right: char) -> Seq<char>
    decreases k,
{
    if k <= 0 {
        Seq::empty()
    } else {
        border_cols(ws, k - 1, junction, right) + strokes((ws[k - 1] + 2) as nat) + seq![
            if k == ws.len() {
                right
            } else {
                junction
            },
        ]
    }
}

/// A table border for columns of widths `ws`, dimmed.
pub open spec fn table_border_line(ws: Seq<usize>, left: char, junction: char, right: char) -> Seq<
    (Seq<char>, SpanStyle, bool),
> {
    one_span(seq![left] + border_cols(ws, ws.len() as int, junction, right), SpanStyle::Dim)
}

/// A table border (see `table_border_line`).
pub fn table_border(ws: &[usize], left: char, junction: char, right: char) -> (line: StyledLine)
    requires
        forall|k: int| 0 <= k < ws@.len() ==> #[trigger] ws@[k] + 2 <= usize::MAX,
    ensures
        line_view(line) == table_border_line(ws@, left, junction, right),
{
    let mut text = one_char(left);
    let mut k: usize = 0;
    while k < ws.len()
        invariant
            k <= ws@.len(),
            forall|j: int| 0 <= j < ws@.len() ==> #[trigger] ws@[j] + 2 <= usize::MAX,
            text@ == seq![left] + border_cols(ws@, k as int, junction, right),
        decreases ws@.len() - k,
    {
        let run = repeat('─', ws[k] + 2);
        push_str(&mut text, run.as_str());
        if k + 1 == ws.len() {
            text.push(right);
        } else {
            text.push(junction);
        }
        assert(text@ =~= seq![left] + border_cols(ws@, k + 1, junction, right));
        k += 1;
    }
    single_span_line(text, SpanStyle::Dim)
}

/// The columns the spans take: their display widths added up.
pub open spec fn spans_width(sp: Seq<(Seq<char>, SpanStyle, bool)>) -> int
    decreases sp.len(),
{
    if sp.len() == 0 {
        0
    } else {
        spans_width(sp.drop_last()) + display_w(sp.last().0)
    }
}

/// The characters in the spans.
pub open spec fn spans_len(sp: Seq<(Seq<char>, SpanStyle, bool)>) -> int
    decreases sp.len(),
{
    if sp.len() == 0 {
        0
    } else {
        spans_len(sp.drop_last()) + sp.last().0.len()
    }
}

proof fn lemma_spans_len_prefix(sp: Seq<(Seq<char>, SpanStyle, bool)>, i: int)
    requires
        0 <= i <= sp.len(),
    ensures
        0 <= spans_len(sp.take(i)) <= spans_len(sp),
        i < sp.len() ==> sp[i].0.len() + spans_len(sp.take(i)) <= spans_len(sp),
    decreases sp.len() - i,
{
    if i < sp.len() {
        lemma_spans_len_prefix(sp, i + 1);
        lemma_spans_len_nonneg(sp.take(i));
        assert(sp.take(i + 1).drop_last() =~= sp.take(i));
        assert(sp.take(i + 1).last() == sp[i]);
    } else {
        assert(sp.take(i) =~= sp);
        lemma_spans_len_nonneg(sp);
    }
}

proof fn lemma_spans_len_nonneg(sp: Seq<(Seq<char>, SpanStyle, bool)>)
    ensures
        spans_len(sp) >= 0,
    decreases sp.len(),
{
    if sp.len() > 0 {
        lemma_spans_len_nonneg(sp.drop_last());
    }
}

proof fn lemma_merge_len(cs: Seq<(char, SegmentStyle)>)
    ensures
        spans_len(merge_chars(cs)) == cs.len(),
        spans_len(merged_line(cs)) == cs.len(),
    decreases cs.len(),
{
    if cs.len() > 0 {
        lemma_merge_len(cs.drop_last());
        let prev = merge_chars(cs.drop_last());
        let c = cs.last();
        if prev.len() > 0 && prev.last().1 == SpanStyle::Inline(c.1) {
            let u = prev.update(prev.len() - 1, (prev.last().0.push(c.0), prev.last().1, prev.last().2));
            assert(u.drop_last() =~= prev.drop_last());
        } else {
            assert(prev.push((seq![c.0], SpanStyle::Inline(c.1), false)).drop_last() =~= prev);
        }
    } else {
        assert(one_span(Seq::empty(), SpanStyle::NotUnderlined).drop_last() =~= Seq::<
            (Seq<char>, SpanStyle, bool),
        >::empty());
    }
}

/// The width of a run of spans.
fn spans_display_width(spans: &[StyledSpan]) -> (w: usize)
    requires
        3 * spans_len(spans_view(spans@)) <= usize::MAX,
    ensures
        w == spans_width(spans_view(spans@)),
{
    let ghost sv = spans_view(spans@);
    let mut acc: usize = 0;
    let mut i: usize = 0;
    proof {
        lemma_spans_len_prefix(sv, 0);
    }
    while i < spans.len()
        invariant
            i <= spans@.len(),
            sv == spans_view(spans@),
            3 * spans_len(sv) <= usize::MAX,
            acc == spans_width(sv.take(i as int)),
            acc <= 3 * spans_len(sv.take(i as int)),
        decreases spans@.len() - i,
    {
        proof {
            lemma_spans_len_prefix(sv, i as int);
            assert(sv.take(i as int + 1).drop_last() =~= sv.take(i as int));
            assert(sv[i as int].0 == spans@[i as int].text@);
        }
        let w = display_width(spans[i].text.as_str());
        acc = acc + w;
        i += 1;
    }
    assert(sv.take(spans@.len() as int) =~= sv);
    acc
}

/// The spans with bold added when `bold` holds.
pub open spec fn bolded(sp: Seq<(Seq<char>, SpanStyle, bool)>, bold: bool) -> Seq<(Seq<char>, SpanStyle, bool)> {
    Seq::new(sp.len(), |i: int| (sp[i].0, sp[i].1, sp[i].2 || bold))
}

fn push_spans(out: &mut Vec<StyledSpan>, src: &[StyledSpan], bold: bool)
    ensures
        spans_view(final(out)@) == spans_view(old(out)@) + bolded(spans_view(src@), bold),
{
    let ghost start = spans_view(out@);
    let mut i: usize = 0;
    while i < src.len()
        invariant
            i <= src@.len(),
            spans_view(out@) == start + bolded(spans_view(src@), bold).take(i as int),
        decreases src@.len() - i,
    {
        let sp = &src[i];
        let ghost before = spans_view(out@);
        out.push(StyledSpan { text: String::from_str(sp.text.as_str()), style: sp.style, bold: sp.bold || bold });
        assert(spans_view(out@) =~= before.push(bolded(spans_view(src@), bold)[i as int]));
        assert(bolded(spans_view(src@), bold).take(i as int + 1) =~= bolded(spans_view(src@), bold).take(
            i as int,
        ).push(bolded(spans_view(src@), bold)[i as int]));
        i += 1;
    }
    assert(bolded(spans_view(src@), bold).take(src@.len() as int) =~= bolded(spans_view(src@), bold));
}

/// The rows of a cell drawn `w` columns wide.
pub open spec fn cell_rows(cell: Seq<char>, w: usize) -> Seq<Seq<(Seq<char>, SpanStyle, bool)>> {
    wrapped_styled(segments_of(cell), w as nat)
}

/// Row `v` of a cell, or an empty unstyled span below its last row.
pub open spec fn cell_spans(cell: Seq<char>, w: usize, v: int) -> Seq<(Seq<char>, SpanStyle, bool)> {
    let rows = cell_rows(cell, w);
    if 0 <= v < rows.len() {
        rows[v]
    } else {
        one_span(Seq::empty(), SpanStyle::Plain)
    }
}

/// Spare columns split as `table_cell_padding` does.
pub open spec fn padding_of(al: TableAlignment, rem: nat) -> (nat, nat) {
    match al {
        TableAlignment::Left => (0, rem),
        TableAlignment::Center => (rem / 2, (rem - rem / 2) as nat),
        TableAlignment::Right => (rem, 0),
    }
}

/// Row `v` of a cell in a column `w` wide: a space, the left padding, the
/// cell's spans (bold in the header) and the right padding with one more
/// space, then a dimmed border.
pub open spec fn cell_part(cell: Seq<char>, w: usize, al: TableAlignment, v: int, header: bool) -> Seq<
    (Seq<char>, SpanStyle, bool),
> {
    let sp = cell_spans(cell, w, v);
    let cw = spans_width(sp);
    let rem: nat = if cw < w {
        (w - cw) as nat
    } else {
        0
    };
    let p = padding_of(al, rem);
    seq![(seq![' '], SpanStyle::Text, false), (spaces(p.0), SpanStyle::Text, false)] + bolded(sp, header) + seq![
        (spaces(p.1 + 1), SpanStyle::Text, false),
        (seq!['│'], SpanStyle::Dim, false),
    ]
}

/// The parts of the first `n` columns of row `v`.
pub open spec fn cols_part(
    row: Seq<Seq<char>>,
    al: Seq<TableAlignment>,
    ws: Seq<usize>,
    v: int,
    header: bool,
    n: int,
) -> Seq<(Seq<char>, SpanStyle, bool)>
    decreases n,
{
    if n <= 0 {
        Seq::empty()
    } else {
        cols_part(row, al, ws, v, header, n - 1) + cell_part(row[n - 1], ws[n - 1], al[n - 1], v, header)
    }
}

/// Visual row `v` of a table row: a dimmed left border, then each column.
pub open spec fn table_row_line(
    row: Seq<Seq<char>>,
    al: Seq<TableAlignment>,
    ws: Seq<usize>,
    v: int,
    header: bool,
) -> Seq<(Seq<char>, SpanStyle, bool)> {
    seq![(seq!['│'], SpanStyle::Dim, false)] + cols_part(row, al, ws, v, header, ws.len() as int)
}

/// The most rows any of the first `n` cells of a row takes.
pub open spec fn rows_needed(row: Seq<Seq<char>>, ws: Seq<usize>, n: int) -> nat
    decreases n,
{
    if n <= 0 {
        0
    } else {
        let p = rows_needed(row, ws, n - 1);
        let h = cell_rows(row[n - 1], ws[n - 1]).len();
        if h > p {
            h
        } else {
            p
        }
    }
}

/// How many visual rows a table row takes: as many as its tallest cell.
pub open spec fn row_height(row: Seq<Seq<char>>, ws: Seq<usize>) -> nat {
    if ws.len() == 0 {
        1
    } else {
        rows_needed(row, ws, ws.len() as int)
    }
}

proof fn lemma_rows_needed(row: Seq<Seq<char>>, ws: Seq<usize>, n: int)
    requires
        0 <= n <= ws.len(),
    ensures
        forall|c: int| 0 <= c < n ==> cell_rows(row[c], ws[c]).len() <= rows_needed(row, ws, n),
        n > 0 ==> exists|c: int| 0 <= c < n && cell_rows(row[c], ws[c]).len() == rows_needed(row, ws, n),
    decreases n,
{
    if n > 0 {
        lemma_rows_needed(row, ws, n - 1);
        let h = cell_rows(row[n - 1], ws[n - 1]).len();
        if h <= rows_needed(row, ws, n - 1) && n > 1 {
            let c = choose|c: int| 0 <= c < n - 1 && cell_rows(row[c], ws[c]).len() == rows_needed(row, ws, n - 1);
            assert(cell_rows(row[c], ws[c]).len() == rows_needed(row, ws, n));
        } else {
            assert(cell_rows(row[n - 1], ws[n - 1]).len() == rows_needed(row, ws, n));
        }
    }
}

/// A table row takes as many visual rows as its tallest cell: every
/// wrapped row of every cell is drawn on one of them (visual row `v` of
/// the row holds row `v` of each cell), and some cell fills them all.
pub proof fn lemma_row_block_shows_every_cell_row(
    row: Seq<Seq<char>>,
    al: Seq<TableAlignment>,
    ws: Seq<usize>,
    header: bool,
)
    ensures
        forall|c: int, v: int|
            0 <= c < ws.len() && 0 <= v < cell_rows(row[c], ws[c]).len() ==> v < row_block(row, al, ws, header).len()
                && row_block(row, al, ws, header)[v] == table_row_line(row, al, ws, v, header) && cell_spans(
                row[c],
                ws[c],
                v,
            ) == cell_rows(row[c], ws[c])[v],
        ws.len() > 0 ==> exists|c: int|
            0 <= c < ws.len() && cell_rows(row[c], ws[c]).len() == row_block(row, al, ws, header).len(),
{
    lemma_rows_needed(row, ws, ws.len() as int);
}

/// The visual rows of a table row.
pub open spec fn row_block(row: Seq<Seq<char>>, al: Seq<TableAlignment>, ws: Seq<usize>, header: bool) -> Seq<
    Seq<(Seq<char>, SpanStyle, bool)>,
> {
    Seq::new(row_height(row, ws), |v: int| table_row_line(row, al, ws, v, header))
}

/// The first `n` rows of a table drawn, with a border under the header.
pub open spec fn table_rows_drawn(
    rows: Seq<Seq<Seq<char>>>,
    al: Seq<TableAlignment>,
    ws: Seq<usize>,
    n: int,
) -> Seq<Seq<(Seq<char>, SpanStyle, bool)>>
    decreases n,
{
    if n <= 0 {
        Seq::empty()
    } else {
        table_rows_drawn(rows, al, ws, n - 1) + row_block(rows[n - 1], al, ws, n == 1) + if n == 1 {
            seq![table_border_line(ws, '├', '┼', '┤')]
        } else {
            Seq::empty()
        }
    }
}

/// A table drawn `width` columns wide: borders above and below, the rows
/// with the header in bold and a border under it; `None` when the columns
/// do not fit (see `table_widths`).
pub open spec fn table_drawing(al: Seq<TableAlignment>, rows: Seq<Seq<Seq<char>>>, width: int) -> Option<
    Seq<Seq<(Seq<char>, SpanStyle, bool)>>,
> {
    match table_widths(rows, al.len() as int, width) {
        None => None,
        Some(ws) => Some(
            seq![table_border_line(ws, '┌', '┬', '┐')] + table_rows_drawn(rows, al, ws, rows.len() as int)
                + seq![table_border_line(ws, '└', '┴', '┘')],
        ),
    }
}

/// No visual row of a cell holds more characters than the cell.
proof fn lemma_cell_spans_len(cell: Seq<char>, w: usize, v: int)
    ensures
        spans_len(cell_spans(cell, w, v)) <= cell.len(),
{
    let segs = segments_of(cell);
    let rs = ws_ranges(segments_text(segs), w as nat);
    lemma_ws_ranges_within(segments_text(segs), w as nat);
    lemma_seg_chars(segs);
    lemma_inline_text_len(cell);
    if 0 <= v < rs.len() {
        let sub = seg_chars(segs).subrange(rs[v].0, rs[v].1);
        lemma_merge_len(sub);
        assert(cell_spans(cell, w, v) == merged_line(sub));
        assert(sub.len() == rs[v].1 - rs[v].0);
        assert(segments_text(segs) == inline_text(cell));
        assert(0 <= rs[v].0 <= rs[v].1 <= segments_text(segs).len());
        assert(spans_len(cell_spans(cell, w, v)) == sub.len());
    } else {
        let e = one_span(Seq::empty(), SpanStyle::Plain);
        assert(e.drop_last() =~= Seq::<(Seq<char>, SpanStyle, bool)>::empty());
        assert(spans_len(Seq::<(Seq<char>, SpanStyle, bool)>::empty()) == 0);
        assert(e.last().0.len() == 0);
        assert(spans_len(e) == spans_len(e.drop_last()) + e.last().0.len());
        assert(cell_spans(cell, w, v) == e);
    }
}

fn text_span(text: String, style: SpanStyle) -> (s: StyledSpan)
    ensures
        span_view(s) == (text@, style, false),
{
    StyledSpan { text, style, bold: false }
}

/// Adds row `v` of a cell (see `cell_part`), given the cell's rows.
fn push_cell_part(
    out: &mut Vec<StyledSpan>,
    cell: &str,
    rows: &Vec<StyledLine>,
    w: usize,
    al: TableAlignment,
    v: usize,
    header: bool,
)
    requires
        drawn(rows@) == cell_rows(cell@, w),
        text_fits(cell@),
        w + 1 <= usize::MAX,
    ensures
        spans_view(final(out)@) == spans_view(old(out)@) + cell_part(cell@, w, al, v as int, header),
{
    let ghost start = spans_view(out@);
    let plain: Vec<StyledSpan> = vec![StyledSpan { text: String::new(), style: SpanStyle::Plain, bold: false }];
    let sp: &Vec<StyledSpan> = if v < rows.len() {
        &rows[v].spans
    } else {
        &plain
    };
    proof {
        if v < rows@.len() {
            assert(drawn(rows@)[v as int] == line_view(rows@[v as int]));
        } else {
            assert(spans_view(plain@) =~= one_span(Seq::empty(), SpanStyle::Plain));
        }
        assert(spans_view(sp@) == cell_spans(cell@, w, v as int));
        lemma_cell_spans_len(cell@, w, v as int);
    }
    let cw = spans_display_width(sp.as_slice());
    let rem = w.saturating_sub(cw);
    let (left, right) = table_cell_padding(al, rem);
    let ghost a = (seq![' '], SpanStyle::Text, false);
    let ghost b = (spaces(left as nat), SpanStyle::Text, false);
    let ghost c = (spaces(right as nat + 1), SpanStyle::Text, false);
    let ghost d = (seq!['│'], SpanStyle::Dim, false);
    out.push(text_span(one_char(' '), SpanStyle::Text));
    assert(spans_view(out@) =~= start.push(a));
    out.push(text_span(repeat(' ', left), SpanStyle::Text));
    assert(spans_view(out@) =~= start.push(a).push(b));
    push_spans(out, sp.as_slice(), header);
    let ghost mid = spans_view(out@);
    out.push(text_span(repeat(' ', right + 1), SpanStyle::Text));
    assert(spans_view(out@) =~= mid.push(c));
    out.push(text_span(one_char('│'), SpanStyle::Dim));
    assert(spans_view(out@) =~= mid.push(c).push(d));
    proof {
        let p = padding_of(al, rem as nat);
        assert(p == (left as nat, right as nat));
        assert(cell_part(cell@, w, al, v as int, header) == seq![a, b] + bolded(spans_view(sp@), header) + seq![c, d]);
        assert(mid.push(c).push(d) =~= start + (seq![a, b] + bolded(spans_view(sp@), header) + seq![c, d]));
    }
}

/// Visual row `v` of a table row (see `table_row_line`), given the rows of
/// each of its cells.
fn table_row_visual(
    row: &Vec<String>,
    wrapped: &Vec<Vec<StyledLine>>,
    al: &Vec<TableAlignment>,
    ws: &Vec<usize>,
    v: usize,
    header: bool,
) -> (line: StyledLine)
    requires
        ws@.len() == al@.len(),
        wrapped@.len() == ws@.len(),
        row@.len() >= ws@.len(),
        forall|c: int|
            0 <= c < ws@.len() ==> drawn((#[trigger] wrapped@[c])@) == cell_rows(row@[c]@, ws@[c]) && text_fits(
                row@[c]@,
            ) && ws@[c] + 1 <= usize::MAX,
    ensures
        line_view(line) == table_row_line(strings_view(row@), al@, ws@, v as int, header),
{
    let ghost rv = strings_view(row@);
    let mut spans: Vec<StyledSpan> = Vec::new();
    spans.push(text_span(one_char('│'), SpanStyle::Dim));
    let mut c: usize = 0;
    assert(spans_view(spans@) =~= seq![(seq!['│'], SpanStyle::Dim, false)] + cols_part(rv, al@, ws@, v as int, header, 0));
    while c < ws.len()
        invariant
            c <= ws@.len(),
            ws@.len() == al@.len(),
            wrapped@.len() == ws@.len(),
            row@.len() >= ws@.len(),
            rv == strings_view(row@),
            forall|j: int|
                0 <= j < ws@.len() ==> drawn((#[trigger] wrapped@[j])@) == cell_rows(row@[j]@, ws@[j]) && text_fits(
                    row@[j]@,
                ) && ws@[j] + 1 <= usize::MAX,
            spans_view(spans@) == seq![(seq!['│'], SpanStyle::Dim, false)] + cols_part(rv, al@, ws@, v as int, header, c as int),
        decreases ws@.len() - c,
    {
        let ghost before = spans_view(spans@);
        assert(drawn(wrapped@[c as int]@) == cell_rows(row@[c as int]@, ws@[c as int]));
        push_cell_part(&mut spans, row[c].as_str(), &wrapped[c], ws[c], al[c], v, header);
        assert(rv[c as int] == row@[c as int]@);
        assert(spans_view(spans@) =~= seq![(seq!['│'], SpanStyle::Dim, false)] + cols_part(
            rv,
            al@,
            ws@,
            v as int,
            header,
            c + 1,
        ));
        c += 1;
    }
    StyledLine { spans }
}

/// A table drawn `width` columns wide (see `table_drawing`).
pub fn render_markdown_table(table: &MarkdownTable, width: usize) -> (r: Option<Vec<StyledLine>>)
    requires
        table_cells_fit(rows_view(table.rows@), table.alignments@.len() as int),
    ensures
        match r {
            Some(v) => table_drawing(table.alignments@, rows_view(table.rows@), width as int) == Some(drawn(v@)),
            None => table_drawing(table.alignments@, rows_view(table.rows@), width as int) is None,
        },
{
    let ws = match markdown_table_column_widths(table, width) {
        None => return None,
        Some(ws) => ws,
    };
    let ghost al = table.alignments@;
    let ghost rv = rows_view(table.rows@);
    let count = table.alignments.len();
    let top = table_border(ws.as_slice(), '┌', '┬', '┐');
    let mut lines: Vec<StyledLine> = Vec::new();
    lines.push(top);
    assert(drawn(lines@) =~= seq![table_border_line(ws@, '┌', '┬', '┐')] + table_rows_drawn(rv, al, ws@, 0));
    let mut r: usize = 0;
    while r < table.rows.len()
        invariant
            r <= table.rows@.len(),
            count == al.len(),
            al == table.alignments@,
            rv == rows_view(table.rows@),
            ws@.len() == count,
            table_cells_fit(rv, count as int),
            forall|c: int| 0 <= c < ws@.len() ==> 1 <= #[trigger] ws@[c] && ws@[c] + 3 * ws@.len() + 1 <= width,
            drawn(lines@) == seq![table_border_line(ws@, '┌', '┬', '┐')] + table_rows_drawn(rv, al, ws@, r as int),
        decreases table.rows@.len() - r,
    {
        let row = &table.rows[r];
        assert(rv[r as int] == strings_view(row@));
        let mut wrapped: Vec<Vec<StyledLine>> = Vec::new();
        let mut height: usize = 0;
        let mut c: usize = 0;
        while c < count
            invariant
                c <= count,
                count == ws@.len(),
                rv[r as int] == strings_view(row@),
                row@.len() >= count,
                wrapped@.len() == c,
                forall|j: int| 0 <= j < c ==> drawn((#[trigger] wrapped@[j])@) == cell_rows(row@[j]@, ws@[j]),
                height == rows_needed(strings_view(row@), ws@, c as int),
            decreases count - c,
        {
            let segs = markdown_inline_segments(row[c].as_str());
            let cell_lines = wrap_styled_segments(&segs, ws[c]);
            assert(strings_view(row@)[c as int] == row@[c as int]@);
            if cell_lines.len() > height {
                height = cell_lines.len();
            }
            wrapped.push(cell_lines);
            c += 1;
        }
        if count == 0 {
            height = 1;
        }
        assert(height == row_height(strings_view(row@), ws@));
        let ghost done = drawn(lines@);
        let mut v: usize = 0;
        while v < height
            invariant
                v <= height,
                height == row_height(strings_view(row@), ws@),
                count == ws@.len(),
                count == al.len(),
                al == table.alignments@,
                wrapped@.len() == count,
                row@.len() >= count,
                rv[r as int] == strings_view(row@),
                forall|j: int|
                    0 <= j < ws@.len() ==> drawn((#[trigger] wrapped@[j])@) == cell_rows(row@[j]@, ws@[j]),
                forall|j: int| 0 <= j < count ==> text_fits(#[trigger] rv[r as int][j]),
                forall|j: int| 0 <= j < ws@.len() ==> 1 <= #[trigger] ws@[j] && ws@[j] + 3 * ws@.len() + 1 <= width,
                drawn(lines@) == done + row_block(strings_view(row@), al, ws@, r == 0).take(v as int),
            decreases height - v,
        {
            proof {
                assert forall|j: int|
                    0 <= j < ws@.len() implies drawn((#[trigger] wrapped@[j])@) == cell_rows(row@[j]@, ws@[j])
                        && text_fits(row@[j]@) && ws@[j] + 1 <= usize::MAX by {
                    assert(rv[r as int][j] == row@[j]@);
                }
            }
            let line = table_row_visual(row, &wrapped, &table.alignments, &ws, v, r == 0);
            let ghost before = drawn(lines@);
            lines.push(line);
            assert(drawn(lines@) =~= before.push(line_view(line)));
            assert(row_block(strings_view(row@), al, ws@, r == 0).take(v as int + 1) =~= row_block(
                strings_view(row@),
                al,
                ws@,
                r == 0,
            ).take(v as int).push(line_view(line)));
            v += 1;
        }
        assert(row_block(strings_view(row@), al, ws@, r == 0).take(height as int) =~= row_block(
            strings_view(row@),
            al,
            ws@,
            r == 0,
        ));
        if r == 0 {
            let mid = table_border(ws.as_slice(), '├', '┼', '┤');
            let ghost before = drawn(lines@);
            lines.push(mid);
            assert(drawn(lines@) =~= before.push(line_view(mid)));
        }
        proof {
            let t = seq![table_border_line(ws@, '┌', '┬', '┐')];
            assert(drawn(lines@) =~= t + table_rows_drawn(rv, al, ws@, r + 1));
        }
        r += 1;
    }
    let bottom = table_border(ws.as_slice(), '└', '┴', '┘');
    let ghost before = drawn(lines@);
    lines.push(bottom);
    assert(drawn(lines@) =~= before.push(line_view(bottom)));
    Some(lines)
}

/// The table at the start of `lines` drawn `width` columns wide, with the
/// number of lines it takes; `None` when there is no table there or its
/// columns do not fit.
#[verifier::opaque]
pub open spec fn table_lines(lines: Seq<Seq<char>>, width: int) -> Option<
    (Seq<Seq<(Seq<char>, SpanStyle, bool)>>, int),
> {
    match parse_table(lines) {
        None => None,
        Some(p) => match table_drawing(p.0, p.1, width) {
            None => None,
            Some(d) => Some((d, p.2)),
        },
    }
}

/// The table at the start of `lines`, drawn (see `table_lines`).
pub fn markdown_table_lines(lines: &[&str], width: usize) -> (r: Option<(Vec<StyledLine>, usize)>)
    requires
        table_parse_safe(lines_view(lines@)),
        forall|i: int| 0 <= i < lines@.len() ==> text_fits((#[trigger] lines@[i])@),
    ensures
        match r {
            None => table_lines(lines_view(lines@), width as int) is None,
            Some(p) => table_lines(lines_view(lines@), width as int) == Some((drawn(p.0@), p.1 as int)),
        },
{
    reveal(table_lines);
    let ghost ls = lines_view(lines@);
    let (table, used) = match parse_markdown_table(lines) {
        None => return None,
        Some(p) => p,
    };
    proof {
        lemma_parse_table_size(ls);
        let rv = rows_view(table.rows@);
        let count = table.alignments@.len() as int;
        assert forall|r: int| 0 <= r < rv.len() implies (#[trigger] rv[r]).len() >= count && forall|c: int|
            0 <= c < count ==> text_fits(#[trigger] rv[r][c]) by {
            assert(rv[r] == strings_view(table.rows@[r]@));
            assert forall|c: int| 0 <= c < count implies text_fits(#[trigger] rv[r][c]) by {
                let li = if r == 0 {
                    0
                } else {
                    r + 1
                };
                assert(ls[li] == lines@[li]@);
            }
        }
    }
    match render_markdown_table(&table, width) {
        None => None,
        Some(drawing) => Some((drawing, used)),
    }
}

/// Where drawing stands: the rows so far, whether a code block is open,
/// the block being collected (its top row, its copy button's columns and
/// its lines) and the finished blocks (top row, button columns, text).
pub struct DrawState {
    pub lines: Seq<Seq<(Seq<char>, SpanStyle, bool)>>,
    pub open: bool,
    pub active: Option<(int, (int, int), Seq<Seq<char>>)>,
    pub blocks: Seq<(int, (int, int), Seq<char>)>,
}

/// The columns of the copy button of a code block `w` columns wide (six
/// or more).
pub open spec fn button_columns(w: nat) -> (int, int) {
    if w >= 9 {
        (w - 7, w - 1)
    } else {
        (w - 5, w - 1)
    }
}

/// The block being collected, finished: its lines joined with line breaks.
#[verifier::opaque]
pub open spec fn finished_blocks(
    active: Option<(int, (int, int), Seq<Seq<char>>)>,
    blocks: Seq<(int, (int, int), Seq<char>)>,
) -> Seq<(int, (int, int), Seq<char>)> {
    match active {
        Some(a) => blocks.push((a.0, a.1, join_seqs(a.2, seq!['\n']))),
        None => blocks,
    }
}

/// A fence line: it closes an open code block (bottom border; the block
/// being collected is finished) or opens one (top border; with a visible
/// button and room for it, a block starts being collected).
#[verifier::opaque]
pub open spec fn fence_next(st: DrawState, w: nat, copy: CodeBlockCopyButton) -> DrawState {
    if st.open {
        DrawState {
            lines: st.lines.push(code_border(w, '╰', copy)),
            open: false,
            active: None,
            blocks: finished_blocks(st.active, st.blocks),
        }
    } else {
        DrawState {
            lines: st.lines.push(code_border(w, '╭', copy)),
            open: true,
            active: if copy == CodeBlockCopyButton::Visible && w >= 6 {
                Some((st.lines.len() as int, button_columns(w), Seq::empty()))
            } else {
                st.active
            },
            blocks: st.blocks,
        }
    }
}

/// A line inside a code block: framed, and added to the block being
/// collected.
#[verifier::opaque]
pub open spec fn code_next(st: DrawState, line: Seq<char>, w: nat) -> DrawState {
    DrawState {
        lines: st.lines + code_content(line, w),
        open: st.open,
        active: match st.active {
            Some(a) => Some((a.0, a.1, a.2.push(line))),
            None => None,
        },
        blocks: st.blocks,
    }
}

/// Rows added to the drawing.
pub open spec fn with_rows(st: DrawState, rows: Seq<Seq<(Seq<char>, SpanStyle, bool)>>) -> DrawState {
    DrawState { lines: st.lines + rows, ..st }
}

/// A line outside code blocks and tables: a divider, or its inline
/// Markdown wrapped at white space.
#[verifier::opaque]
pub open spec fn plain_rows(line: Seq<char>, w: nat) -> Seq<Seq<(Seq<char>, SpanStyle, bool)>> {
    if divider(line) {
        seq![divider_line(w)]
    } else {
        wrapped_styled(segments_of(line), w)
    }
}

/// Whether reading a table at line `i` of `raw` cuts only rows that can be
/// cut (see `table_parse_safe`).
#[verifier::opaque]
pub open spec fn parse_safe_at(raw: Seq<Seq<char>>, i: int) -> bool {
    table_parse_safe(raw.skip(i))
}

/// One step of drawing, at line `i` of `raw` with `w` columns: a fence line
/// (see `fence_next`), a line inside a code block (see `code_next`), or
/// outside one a table starting here drawn whole, else the line itself
/// (see `plain_rows`). Gives the next state and the next line, or `None`
/// where reading a table would cut a lone `|` row.
pub open spec fn draw_step(raw: Seq<Seq<char>>, i: int, w: nat, copy: CodeBlockCopyButton, st: DrawState) -> Option<
    (DrawState, int),
> {
    let line = raw[i];
    if is_fence_line(line) {
        Some((fence_next(st, w, copy), i + 1))
    } else if st.open {
        Some((code_next(st, line, w), i + 1))
    } else if !parse_safe_at(raw, i) {
        None
    } else {
        match table_lines(raw.skip(i), w as int) {
            Some(t) => Some((with_rows(st, t.0), i + t.1)),
            None => Some((with_rows(st, plain_rows(line, w)), i + 1)),
        }
    }
}

/// Drawing from line `i` of `raw` on.
pub open spec fn draw_from(raw: Seq<Seq<char>>, i: int, w: nat, copy: CodeBlockCopyButton, st: DrawState) -> Option<
    DrawState,
>
    decreases raw.len() - i,
{
    if i < 0 || i >= raw.len() {
        Some(st)
    } else {
        match draw_step(raw, i, w, copy, st) {
            None => None,
            Some(p) => if i < p.1 <= raw.len() {
                draw_from(raw, p.1, w, copy, p.0)
            } else {
                None
            },
        }
    }
}

/// `text` drawn `width` columns wide (at least one), starting inside a
/// code block when `open` holds: every line drawn in turn, a block still
/// open at the end finished as it stands, and an empty text drawn as one
/// empty row.
pub open spec fn markdown_drawing(text: Seq<char>, width: nat, open: bool, copy: CodeBlockCopyButton) -> Option<
    DrawState,
> {
    let w = if width == 0 {
        1
    } else {
        width
    };
    match draw_from(
        str_lines(text),
        0,
        w,
        copy,
        DrawState { lines: Seq::empty(), open, active: None, blocks: Seq::empty() },
    ) {
        None => None,
        Some(st) => Some(
            DrawState {
                lines: if st.lines.len() == 0 && text.len() == 0 {
                    seq![one_span(Seq::empty(), SpanStyle::Text)]
                } else {
                    st.lines
                },
                open: st.open,
                active: None,
                blocks: finished_blocks(st.active, st.blocks),
            },
        ),
    }
}

/// A code block of drawn Markdown: the row of its top border, the columns
/// of its copy button and its text.
#[derive(Debug, PartialEq, Eq)]
pub struct MarkdownCodeBlock {
    pub top_line: usize,
    pub copy_columns: std::ops::Range<usize>,
    pub text: String,
}

/// Markdown drawn as rows, with the code blocks that carry a copy button.
pub struct RenderedMarkdown {
    pub lines: Vec<StyledLine>,
    pub code_blocks: Vec<MarkdownCodeBlock>,
}

pub open spec fn block_view(b: MarkdownCodeBlock) -> (int, (int, int), Seq<char>) {
    (b.top_line as int, (b.copy_columns.start as int, b.copy_columns.end as int), b.text@)
}

pub open spec fn blocks_view(v: Seq<MarkdownCodeBlock>) -> Seq<(int, (int, int), Seq<char>)> {
    Seq::new(v.len(), |i: int| block_view(v[i]))
}

/// Whether `m` and `open` are what `markdown_drawing` gives.
pub open spec fn drawing_is(d: Option<DrawState>, m: RenderedMarkdown, open: bool) -> bool {
    d matches Some(st) && drawn(m.lines@) == st.lines && blocks_view(m.code_blocks@) == st.blocks && open == st.open
}

pub open spec fn active_view(a: Option<(usize, std::ops::Range<usize>, Vec<String>)>) -> Option<
    (int, (int, int), Seq<Seq<char>>),
> {
    match a {
        Some(t) => Some((t.0 as int, (t.1.start as int, t.1.end as int), strings_view(t.2@))),
        None => None,
    }
}

/// Drawing in progress (see `DrawState`).
struct DrawBuf {
    lines: Vec<StyledLine>,
    open: bool,
    active: Option<(usize, std::ops::Range<usize>, Vec<String>)>,
    blocks: Vec<MarkdownCodeBlock>,
}

spec fn buf_view(b: DrawBuf) -> DrawState {
    DrawState { lines: drawn(b.lines@), open: b.open, active: active_view(b.active), blocks: blocks_view(b.blocks@) }
}

fn append_lines(lines: &mut Vec<StyledLine>, more: Vec<StyledLine>)
    ensures
        drawn(final(lines)@) == drawn(old(lines)@) + drawn(more@),
{
    let mut more = more;
    let ghost a = lines@;
    let ghost b = more@;
    lines.append(&mut more);
    assert(drawn(lines@) =~= drawn(a) + drawn(b));
}

fn push_line(lines: &mut Vec<StyledLine>, line: StyledLine)
    ensures
        drawn(final(lines)@) == drawn(old(lines)@).push(line_view(line)),
{
    let ghost a = drawn(lines@);
    lines.push(line);
    assert(drawn(lines@) =~= a.push(line_view(line)));
}

/// The block being collected, finished and added to the finished ones.
fn finish_block(blocks: &mut Vec<MarkdownCodeBlock>, active: Option<(usize, std::ops::Range<usize>, Vec<String>)>)
    ensures
        blocks_view(final(blocks)@) == finished_blocks(active_view(active), blocks_view(old(blocks)@)),
{
    reveal(finished_blocks);
    let ghost blocks0 = blocks_view(blocks@);
    match active {
        Some((top, cols, content)) => {
            let joined = join_strings(&content, "\n");
            proof {
                reveal_strlit("\n");
                assert("\n"@ =~= seq!['\n']);
            }
            let ghost expected = (top as int, (cols.start as int, cols.end as int), join_seqs(
                strings_view(content@),
                seq!['\n'],
            ));
            let block = MarkdownCodeBlock { top_line: top, copy_columns: cols, text: joined };
            assert(block_view(block) == expected);
            blocks.push(block);
            assert(blocks_view(blocks@) =~= blocks0.push(expected));
        },
        None => {},
    }
}

fn draw_fence(buf: &mut DrawBuf, w: usize, copy_button: CodeBlockCopyButton)
    ensures
        buf_view(*final(buf)) == fence_next(buf_view(*old(buf)), w as nat, copy_button),
{
    reveal(fence_next);
    reveal(finished_blocks);
    if buf.open {
        push_line(&mut buf.lines, code_block_border(w, '╰', copy_button));
        let active = buf.active.take();
        finish_block(&mut buf.blocks, active);
        buf.open = false;
    } else {
        let top = buf.lines.len();
        push_line(&mut buf.lines, code_block_border(w, '╭', copy_button));
        if copy_button == CodeBlockCopyButton::Visible {
            match code_block_copy_columns(w) {
                Some(cols) => {
                    let content: Vec<String> = Vec::new();
                    assert(strings_view(content@) =~= Seq::<Seq<char>>::empty());
                    buf.active = Some((top, cols, content));
                },
                None => {},
            }
        }
        buf.open = true;
    }
}

fn draw_code_line(buf: &mut DrawBuf, line: &str, w: usize)
    requires
        text_fits(line@),
    ensures
        buf_view(*final(buf)) == code_next(buf_view(*old(buf)), line@, w as nat),
{
    reveal(code_next);
    let active = buf.active.take();
    match active {
        Some((top, cols, content)) => {
            let mut content = content;
            let ghost c0 = strings_view(content@);
            content.push(String::from_str(line));
            assert(strings_view(content@) =~= c0.push(line@));
            buf.active = Some((top, cols, content));
        },
        None => {},
    }
    let more = code_block_content_lines(line, w);
    append_lines(&mut buf.lines, more);
}

fn draw_plain_line(lines: &mut Vec<StyledLine>, line: &str, w: usize)
    ensures
        drawn(final(lines)@) == drawn(old(lines)@) + plain_rows(line@, w as nat),
{
    reveal(plain_rows);
    if is_markdown_divider(line) {
        let ghost a = drawn(lines@);
        push_line(lines, markdown_divider(w));
        assert(seq![divider_line(w as nat)] + Seq::empty() =~= seq![divider_line(w as nat)]);
        assert(drawn(lines@) =~= a + seq![divider_line(w as nat)]);
    } else {
        let segs = markdown_inline_segments(line);
        let more = wrap_styled_segments(&segs, w);
        append_lines(lines, more);
    }
}

/// `text` drawn `width` columns wide from the code-block state
/// `in_code_block` (see `markdown_drawing`), with the state after it;
/// `None` exactly where reading a table would cut a lone `|` row.
pub fn try_render_markdown(text: &str, width: usize, in_code_block: bool, copy_button: CodeBlockCopyButton) -> (r: Option<
    (RenderedMarkdown, bool),
>)
    requires
        text_fits(text@),
    ensures
        match r {
            None => markdown_drawing(text@, width as nat, in_code_block, copy_button) is None,
            Some(p) => drawing_is(markdown_drawing(text@, width as nat, in_code_block, copy_button), p.0, p.1),
        },
{
    let w = if width == 0 {
        1
    } else {
        width
    };
    let raw_lines = text_lines(text);
    let ghost raw = str_lines(text@);
    proof {
        lemma_str_lines_len(text@);
    }
    let n = raw_lines.len();
    let mut refs: Vec<&str> = Vec::new();
    let mut k: usize = 0;
    while k < n
        invariant
            n == raw_lines@.len(),
            k <= n,
            strings_view(raw_lines@) == raw,
            lines_view(refs@) == raw.take(k as int),
        decreases n - k,
    {
        let ghost before = lines_view(refs@);
        let piece: &str = raw_lines[k].as_str();
        assert(piece@ == raw[k as int]);
        refs.push(piece);
        assert(lines_view(refs@) =~= before.push(piece@));
        assert(raw.take(k as int + 1) =~= raw.take(k as int).push(raw[k as int]));
        k += 1;
    }
    assert(raw.take(n as int) =~= raw);
    let ghost init = DrawState { lines: Seq::empty(), open: in_code_block, active: None, blocks: Seq::empty() };
    let mut buf = DrawBuf { lines: Vec::new(), open: in_code_block, active: None, blocks: Vec::new() };
    assert(drawn(buf.lines@) =~= Seq::<Seq<(Seq<char>, SpanStyle, bool)>>::empty());
    assert(blocks_view(buf.blocks@) =~= Seq::<(int, (int, int), Seq<char>)>::empty());
    assert(buf_view(buf) == init);
    let mut i: usize = 0;
    while i < n
        invariant
            n == refs@.len(),
            n == raw.len(),
            i <= n,
            w == (if width == 0 {
                1
            } else {
                width
            }),
            raw == lines_view(refs@),
            raw == str_lines(text@),
            init == (DrawState { lines: Seq::empty(), open: in_code_block, active: None, blocks: Seq::empty() }),
            forall|j: int| 0 <= j < raw.len() ==> text_fits(#[trigger] raw[j]),
            draw_from(raw, i as int, w as nat, copy_button, buf_view(buf)) == draw_from(raw, 0, w as nat, copy_button, init),
        decreases n - i,
    {
        let line: &str = refs[i];
        let ghost st = buf_view(buf);
        assert(raw[i as int] == line@);
        let lc = chars_of(line);
        if is_fence_line_in(&lc) {
            draw_fence(&mut buf, w, copy_button);
            assert(draw_step(raw, i as int, w as nat, copy_button, st) == Some((buf_view(buf), i + 1)));
            i += 1;
        } else if buf.open {
            draw_code_line(&mut buf, line, w);
            assert(draw_step(raw, i as int, w as nat, copy_button, st) == Some((buf_view(buf), i + 1)));
            i += 1;
        } else {
            let rest = vstd::slice::slice_subrange(refs.as_slice(), i, n);
            assert(lines_view(rest@) =~= raw.skip(i as int));
            let safe = table_parse_is_safe(rest);
            assert(safe == parse_safe_at(raw, i as int)) by {
                reveal(parse_safe_at);
            }
            if !safe {
                assert(draw_step(raw, i as int, w as nat, copy_button, st) is None);
                assert(draw_from(raw, i as int, w as nat, copy_button, st) is None);
                return None;
            }
            proof {
                assert forall|k: int| 0 <= k < rest@.len() implies text_fits((#[trigger] rest@[k])@) by {
                    assert(lines_view(rest@)[k] == rest@[k]@);
                    assert(raw.skip(i as int)[k] == raw[i + k]);
                }
            }
            match markdown_table_lines(rest, w) {
                Some((tl, used)) => {
                    proof {
                        reveal(table_lines);
                        lemma_parse_table_size(raw.skip(i as int));
                    }
                    append_lines(&mut buf.lines, tl);
                    assert(draw_step(raw, i as int, w as nat, copy_button, st) == Some((buf_view(buf), i + used)));
                    i += used;
                },
                None => {
                    draw_plain_line(&mut buf.lines, line, w);
                    assert(draw_step(raw, i as int, w as nat, copy_button, st) == Some((buf_view(buf), i + 1)));
                    i += 1;
                },
            }
        }
    }
    let ghost fin = buf_view(buf);
    assert(draw_from(raw, n as int, w as nat, copy_button, fin) == Some(fin));
    let DrawBuf { mut lines, open, active, mut blocks } = buf;
    finish_block(&mut blocks, active);
    if lines.len() == 0 && chars_of(text).len() == 0 {
        let ghost a = drawn(lines@);
        push_line(&mut lines, single_span_line(String::new(), SpanStyle::Text));
        assert(drawn(lines@) =~= seq![one_span(Seq::empty(), SpanStyle::Text)]);
    }
    Some((RenderedMarkdown { lines, code_blocks: blocks }, open))
}

/// `text` drawn `width` columns wide (see `markdown_drawing`), with or
/// without copy buttons on code blocks; `in_code_block` carries whether a
/// code block is open from before `text` to after it.
pub fn render_markdown_with_copy_button(
    text: &str,
    width: usize,
    in_code_block: &mut bool,
    copy_button: CodeBlockCopyButton,
) -> (r: RenderedMarkdown)
    requires
        text_fits(text@),
        markdown_drawing(text@, width as nat, *old(in_code_block), copy_button) is Some,
    ensures
        drawing_is(markdown_drawing(text@, width as nat, *old(in_code_block), copy_button), r, *final(in_code_block)),
{
    match try_render_markdown(text, width, *in_code_block, copy_button) {
        Some((m, open)) => {
            *in_code_block = open;
            m
        },
        None => RenderedMarkdown { lines: Vec::new(), code_blocks: Vec::new() },
    }
}

/// `text` drawn with copy buttons on its code blocks.
pub fn render_markdown(text: &str, width: usize, in_code_block: &mut bool) -> (r: RenderedMarkdown)
    requires
        text_fits(text@),
        markdown_drawing(text@, width as nat, *old(in_code_block), CodeBlockCopyButton::Visible) is Some,
    ensures
        drawing_is(
            markdown_drawing(text@, width as nat, *old(in_code_block), CodeBlockCopyButton::Visible),
            r,
            *final(in_code_block),
        ),
{
    render_markdown_with_copy_button(text, width, in_code_block, CodeBlockCopyButton::Visible)
}

/// The rows of `text` drawn with copy buttons.
pub fn markdown_lines(text: &str, width: usize, in_code_block: &mut bool) -> (lines: Vec<StyledLine>)
    requires
        text_fits(text@),
        markdown_drawing(text@, width as nat, *old(in_code_block), CodeBlockCopyButton::Visible) is Some,
    ensures
        markdown_drawing(text@, width as nat, *old(in_code_block), CodeBlockCopyButton::Visible) matches Some(d)
            && drawn(lines@) == d.lines && *final(in_code_block) == d.open,
{
    render_markdown(text, width, in_code_block).lines
}

/// Adds the rows of `text`, drawn with copy buttons, to `lines`.
pub fn push_wrapped_markdown(lines: &mut Vec<StyledLine>, text: &str, width: usize, in_code_block: &mut bool)
    requires
        text_fits(text@),
        markdown_drawing(text@, width as nat, *old(in_code_block), CodeBlockCopyButton::Visible) is Some,
    ensures
        markdown_drawing(text@, width as nat, *old(in_code_block), CodeBlockCopyButton::Visible) matches Some(d)
            && drawn(final(lines)@) == drawn(old(lines)@) + d.lines && *final(in_code_block) == d.open,
{
    let more = render_markdown(text, width, in_code_block).lines;
    append_lines(lines, more);
}

/// Adds the rows of `text`, drawn without copy buttons, to `lines`.
pub fn push_wrapped_markdown_without_copy_button(
    lines: &mut Vec<StyledLine>,
    text: &str,
    width: usize,
    in_code_block: &mut bool,
)
    requires
        text_fits(text@),
        markdown_drawing(text@, width as nat, *old(in_code_block), CodeBlockCopyButton::Hidden) is Some,
    ensures
        markdown_drawing(text@, width as nat, *old(in_code_block), CodeBlockCopyButton::Hidden) matches Some(d)
            && drawn(final(lines)@) == drawn(old(lines)@) + d.lines && *final(in_code_block) == d.open,
{
    let more = render_markdown_with_copy_button(text, width, in_code_block, CodeBlockCopyButton::Hidden).lines;
    append_lines(lines, more);
}

/// Whether the line being typed at the end of `text` is left out of a
/// preview: it is empty, starts a code fence, or (outside code) still has
/// unresolved inline Markdown.
pub open spec fn preview_skipped(text: Seq<char>, open: bool) -> bool {
    let start = line_start_of(text, text.len() as int);
    let cur = text.skip(start);
    cur.len() == 0 || fence_fragment(cur) || (!in_code_block_at(text, start, open) && unresolved_inline(cur))
}

/// The width of the last drawn row, or zero without rows.
pub open spec fn last_row_width(d: DrawState) -> int {
    if d.lines.len() == 0 {
        0
    } else {
        spans_width(d.lines.last())
    }
}

/// The characters of the last drawn row.
pub open spec fn last_row_len(d: DrawState) -> int {
    if d.lines.len() == 0 {
        0
    } else {
        spans_len(d.lines.last())
    }
}

/// How wide the preview of a streamed reply is: zero when its last line
/// is left out (see `preview_skipped`), else the width of the last row of
/// the whole text drawn.
pub fn markdown_preview_width(text: &str, width: usize, in_code_block: bool) -> (w: usize)
    requires
        text_fits(text@),
        preview_skipped(text@, in_code_block) || (markdown_drawing(
            text@,
            width as nat,
            in_code_block,
            CodeBlockCopyButton::Visible,
        ) matches Some(d) && 3 * last_row_len(d) <= usize::MAX),
    ensures
        w == if preview_skipped(text@, in_code_block) {
            0
        } else {
            last_row_width(markdown_drawing(text@, width as nat, in_code_block, CodeBlockCopyButton::Visible)->0)
        },
{
    let v = chars_of(text);
    let start = line_start_in(&v, v.len());
    proof {
        lemma_line_start_of(v@, v@.len() as int);
    }
    let in_code = line_starts_in_code_block(text, start, in_code_block);
    let current = string_of_range(&v, start, v.len());
    assert(current@ =~= text@.skip(start as int));
    if chars_of(current.as_str()).len() == 0 || starts_with_code_fence_fragment(current.as_str()) {
        return 0;
    }
    if !in_code && has_unresolved_inline_markdown(current.as_str()) {
        return 0;
    }
    let mut open = in_code_block;
    let lines = markdown_lines(text, width, &mut open);
    if lines.len() == 0 {
        0
    } else {
        let last = &lines[lines.len() - 1];
        assert(line_view(*last) == drawn(lines@).last());
        spans_display_width(last.spans.as_slice())
    }
}

/// The text of a row: its spans' texts joined.
pub open spec fn spans_text(sp: Seq<(Seq<char>, SpanStyle, bool)>) -> Seq<char>
    decreases sp.len(),
{
    if sp.len() == 0 {
        Seq::empty()
    } else {
        spans_text(sp.drop_last()) + sp.last().0
    }
}

/// The text of a drawn row.
pub fn line_text(line: &StyledLine) -> (t: String)
    ensures
        t@ == spans_text(line_view(*line)),
{
    let ghost sv = line_view(*line);
    let mut t = String::new();
    let mut i: usize = 0;
    while i < line.spans.len()
        invariant
            i <= line.spans@.len(),
            sv == spans_view(line.spans@),
            t@ == spans_text(sv.take(i as int)),
        decreases line.spans@.len() - i,
    {
        push_str(&mut t, line.spans[i].text.as_str());
        assert(sv.take(i as int + 1).drop_last() =~= sv.take(i as int));
        i += 1;
    }
    assert(sv.take(line.spans@.len() as int) =~= sv);
    t
}

/// The text of rows, read one after the other.
pub open spec fn rows_text(rows: Seq<Seq<(Seq<char>, SpanStyle, bool)>>) -> Seq<char>
    decreases rows.len(),
{
    if rows.len() == 0 {
        Seq::empty()
    } else {
        rows_text(rows.drop_last()) + spans_text(rows.last())
    }
}

/// The characters of styled characters.
pub open spec fn plain_chars(cs: Seq<(char, SegmentStyle)>) -> Seq<char> {
    Seq::new(cs.len(), |i: int| cs[i].0)
}

proof fn lemma_merge_text(cs: Seq<(char, SegmentStyle)>)
    ensures
        spans_text(merge_chars(cs)) == plain_chars(cs),
    decreases cs.len(),
{
    if cs.len() == 0 {
        assert(plain_chars(cs) =~= Seq::<char>::empty());
    } else {
        lemma_merge_text(cs.drop_last());
        let prev = merge_chars(cs.drop_last());
        let c = cs.last();
        assert(plain_chars(cs) =~= plain_chars(cs.drop_last()).push(c.0));
        if prev.len() > 0 && prev.last().1 == SpanStyle::Inline(c.1) {
            let u = prev.update(prev.len() - 1, (prev.last().0.push(c.0), prev.last().1, prev.last().2));
            assert(u.drop_last() =~= prev.drop_last());
            assert(spans_text(u) =~= spans_text(prev).push(c.0));
        } else {
            let u = prev.push((seq![c.0], SpanStyle::Inline(c.1), false));
            assert(u.drop_last() =~= prev);
            assert(spans_text(u) =~= spans_text(prev).push(c.0));
        }
    }
}

proof fn lemma_rows_text_prefix(segs: Seq<(Seq<char>, SegmentStyle)>, width: nat, k: int)
    requires
        segments_text(segs).len() > 0,
        0 <= k <= ws_ranges(segments_text(segs), width).len(),
    ensures
        rows_text(wrapped_styled(segs, width).take(k)) == segments_text(segs).take(
            if k == 0 {
                0
            } else {
                ws_ranges(segments_text(segs), width)[k - 1].1
            },
        ),
    decreases k,
{
    let text = segments_text(segs);
    let rs = ws_ranges(text, width);
    let rows = wrapped_styled(segs, width);
    lemma_ws_ranges_cover(text, width);
    lemma_ws_ranges_within(text, width);
    lemma_seg_chars(segs);
    if k == 0 {
        assert(rows.take(0) =~= Seq::<Seq<(Seq<char>, SpanStyle, bool)>>::empty());
        assert(text.take(0) =~= Seq::<char>::empty());
    } else {
        lemma_rows_text_prefix(segs, width, k - 1);
        assert(rows.take(k).drop_last() =~= rows.take(k - 1));
        let sub = seg_chars(segs).subrange(rs[k - 1].0, rs[k - 1].1);
        lemma_merge_text(sub);
        assert(rs[k - 1].0 < rs[k - 1].1);
        assert(rows[k - 1] == merged_line(sub));
        assert(plain_chars(sub) =~= text.subrange(rs[k - 1].0, rs[k - 1].1));
        let start = if k - 1 == 0 {
            0
        } else {
            rs[k - 2].1
        };
        assert(start == rs[k - 1].0);
        assert(text.take(start) + text.subrange(start, rs[k - 1].1) =~= text.take(rs[k - 1].1));
    }
}

/// Wrapping a line loses nothing: its rows, read one after the other, give
/// back the line's text with its inline Markdown resolved.
pub proof fn lemma_wrapped_line_keeps_text(line: Seq<char>, width: nat)
    requires
        inline_text(line).len() > 0,
    ensures
        rows_text(wrapped_styled(segments_of(line), width)) == inline_text(line),
{
    let segs = segments_of(line);
    let text = segments_text(segs);
    lemma_ws_ranges_cover(text, width);
    let n = ws_ranges(text, width).len() as int;
    lemma_rows_text_prefix(segs, width, n);
    assert(wrapped_styled(segs, width).take(n) =~= wrapped_styled(segs, width));
    assert(text.take(text.len() as int) =~= text);
}

} // verus!

//! A streamed reply held back until its text can be drawn for good: the
//! settled prefix is handed out in fragments, the rest waits for more text.
use vstd::prelude::*;
use crate::markdown::{lemma_stream_prefix_bound, markdown_stream_prefix, stream_prefix};
use crate::markdown_render::{
    last_row_len, last_row_width, markdown_drawing, markdown_preview_width, preview_skipped, CodeBlockCopyButton,
};
use crate::text::{chars_of, push_str, string_of_range, text_fits};
use vstd::string::StrSliceExecFns;
use crate::width::{display_w, display_width};
use crate::wrap::{complete_visual_prefix, lemma_next_nl, lemma_visual_prefix_bound, next_nl, visual_prefix};

verus! {

/// Text received but not yet drawn, and what has been handed out so far.
#[derive(Debug)]
pub struct AppendOnlyStream {
    pub pending: String,
    pub emitted_text: String,
    pub leading_blank_emitted: bool,
    pub previous_emission_ended_at_wrap: bool,
}

/// A piece of the stream handed out for drawing.
#[derive(Debug, PartialEq, Eq)]
pub struct StreamFragment {
    pub text: String,
    pub include_leading_blank: bool,
    pub skip_leading_newline: bool,
}

/// Whether the pending text starts with the line break that ends a row the
/// previous fragment already wrapped: that break is not drawn again.
pub open spec fn skips_newline(s: AppendOnlyStream) -> bool {
    s.previous_emission_ended_at_wrap && s.pending@.len() > 0 && s.pending@[0] == '\n'
}

/// Where scanning the pending text starts (after a skipped line break).
pub open spec fn scan_start(s: AppendOnlyStream) -> int {
    if skips_newline(s) {
        1
    } else {
        0
    }
}

/// The pending text that is scanned for a settled prefix.
pub open spec fn scan_text(s: AppendOnlyStream) -> Seq<char> {
    s.pending@.skip(scan_start(s))
}

/// `new` and `f` are `old` after handing out its first `k` pending
/// characters.
pub open spec fn took_prefix(
    old: AppendOnlyStream,
    new: AppendOnlyStream,
    f: StreamFragment,
    k: int,
    skip: bool,
    wrap: bool,
) -> bool {
    &&& f.text@ == old.pending@.take(k)
    &&& f.include_leading_blank == !old.leading_blank_emitted
    &&& f.skip_leading_newline == skip
    &&& new.pending@ == old.pending@.skip(k)
    &&& new.emitted_text@ == old.emitted_text@ + old.pending@.take(k)
    &&& new.leading_blank_emitted
    &&& new.previous_emission_ended_at_wrap == wrap
}

/// The first line of `t`.
pub open spec fn first_line(t: Seq<char>) -> Seq<char> {
    t.take(next_nl(t, 0))
}

/// How far a preview of an unfinished line reaches: to the end of the first
/// line, when that line starts the text and draws as something.
pub open spec fn preview_end(t: Seq<char>, line_width: int) -> Option<int> {
    if t.len() == 0 || t[0] == '\n' {
        None
    } else if line_width > 0 {
        Some(next_nl(t, 0))
    } else {
        None
    }
}

/// The drawn width of a streamed Markdown line (see `markdown_preview_width`).
pub open spec fn markdown_line_width(line: Seq<char>, width: nat, open: bool) -> int {
    if preview_skipped(line, open) {
        0
    } else {
        last_row_width(markdown_drawing(line, width, open, CodeBlockCopyButton::Visible)->0)
    }
}

/// Whether the drawn width of a streamed Markdown line can be measured.
pub open spec fn markdown_line_measurable(line: Seq<char>, width: nat, open: bool) -> bool {
    preview_skipped(line, open) || (markdown_drawing(line, width, open, CodeBlockCopyButton::Visible) matches Some(
        d,
    ) && 3 * last_row_len(d) <= usize::MAX)
}

/// Where a Markdown fragment ends and whether it ends at a wrap: the settled
/// prefix, or, for a preview, the whole first line when nothing is settled.
pub open spec fn markdown_split(s: AppendOnlyStream, width: nat, open: bool, allow_partial: bool) -> Option<
    (int, bool),
> {
    let t = scan_text(s);
    let (p, wr) = stream_prefix(t, width, open);
    let (r, e) = if allow_partial && p == 0 {
        match preview_end(t, markdown_line_width(first_line(t), width, open)) {
            Some(b) => (b, false),
            None => (p, wr),
        }
    } else {
        (p, wr)
    };
    let split = scan_start(s) + r;
    if split == 0 {
        None
    } else {
        Some((split, e))
    }
}

/// Whether a preview of `s` can measure its first line when it needs to.
pub open spec fn preview_measurable(s: AppendOnlyStream, width: nat, open: bool) -> bool {
    let t = scan_text(s);
    (stream_prefix(t, width, open).0 == 0 && t.len() > 0 && t[0] != '\n') ==> markdown_line_measurable(
        first_line(t),
        width,
        open,
    )
}

/// The end of the first line of `v` (its first line break, else its end).
fn first_line_end(v: &[char], from: usize) -> (e: usize)
    requires
        from <= v@.len(),
    ensures
        e == from + next_nl(v@.skip(from as int), 0),
        from <= e <= v@.len(),
{
    let ghost t = v@.skip(from as int);
    let mut i = from;
    while i < v.len() && v[i] != '\n'
        invariant
            from <= i <= v@.len(),
            t == v@.skip(from as int),
            next_nl(t, (i - from) as int) == next_nl(t, 0),
        decreases v.len() - i,
    {
        assert(t[(i - from) as int] == v@[i as int]);
        i += 1;
    }
    proof {
        lemma_next_nl(t, (i - from) as int);
    }
    i
}

impl AppendOnlyStream {
    /// An empty stream.
    pub fn new() -> (s: Self)
        ensures
            s.pending@ == Seq::<char>::empty(),
            s.emitted_text@ == Seq::<char>::empty(),
            !s.leading_blank_emitted,
            !s.previous_emission_ended_at_wrap,
    {
        AppendOnlyStream {
            pending: String::new(),
            emitted_text: String::new(),
            leading_blank_emitted: false,
            previous_emission_ended_at_wrap: false,
        }
    }

    /// Forgets everything, for a new reply.
    pub fn reset(&mut self)
        ensures
            final(self).pending@ == Seq::<char>::empty(),
            final(self).emitted_text@ == Seq::<char>::empty(),
            !final(self).leading_blank_emitted,
            !final(self).previous_emission_ended_at_wrap,
    {
        self.pending = String::new();
        self.emitted_text = String::new();
        self.leading_blank_emitted = false;
        self.previous_emission_ended_at_wrap = false;
    }

    /// Receives more of the reply.
    pub fn push_delta(&mut self, delta: &str)
        ensures
            final(self).pending@ == old(self).pending@ + delta@,
            final(self).emitted_text == old(self).emitted_text,
            final(self).leading_blank_emitted == old(self).leading_blank_emitted,
            final(self).previous_emission_ended_at_wrap == old(self).previous_emission_ended_at_wrap,
    {
        push_str(&mut self.pending, delta);
    }

    /// The text received and not yet handed out.
    pub fn pending_text(&self) -> (t: &str)
        ensures
            t@ == self.pending@,
    {
        self.pending.as_str()
    }

    /// The text handed out so far.
    pub fn emitted_text(&self) -> (t: &str)
        ensures
            t@ == self.emitted_text@,
    {
        self.emitted_text.as_str()
    }

    /// Whether nothing was received.
    pub fn is_empty(&self) -> (b: bool)
        ensures
            b == (self.pending@.len() == 0 && self.emitted_text@.len() == 0),
    {
        chars_of(self.pending.as_str()).len() == 0 && chars_of(self.emitted_text.as_str()).len() == 0
    }

    /// Whether the pending line break is not drawn again.
    pub fn should_skip_leading_newline(&self) -> (b: bool)
        ensures
            b == skips_newline(*self),
    {
        if !self.previous_emission_ended_at_wrap {
            return false;
        }
        let v = chars_of(self.pending.as_str());
        v.len() > 0 && v[0] == '\n'
    }

    /// Hands out the first `k` pending characters.
    fn take_pending_prefix(&mut self, k: usize, skip_leading_newline: bool, ends_with_wrap: bool) -> (f:
        StreamFragment)
        requires
            k <= old(self).pending@.len(),
        ensures
            took_prefix(*old(self), *final(self), f, k as int, skip_leading_newline, ends_with_wrap),
    {
        let v = chars_of(self.pending.as_str());
        let text = string_of_range(&v, 0, k);
        self.pending = string_of_range(&v, k, v.len());
        assert(v@.subrange(k as int, v@.len() as int) =~= v@.skip(k as int));
        assert(v@.subrange(0, k as int) =~= v@.take(k as int));
        let include_leading_blank = !self.leading_blank_emitted;
        self.leading_blank_emitted = true;
        self.previous_emission_ended_at_wrap = ends_with_wrap;
        push_str(&mut self.emitted_text, text.as_str());
        StreamFragment { text, include_leading_blank, skip_leading_newline }
    }

    /// Hands out the complete visual lines of the pending text wrapped at
    /// `inner_width` columns, if any.
    pub fn drain_renderable(&mut self, inner_width: usize) -> (f: Option<StreamFragment>)
        requires
            text_fits(old(self).pending@),
        ensures
            ({
                let o = *old(self);
                let (p, wrap) = visual_prefix(scan_text(o), inner_width as nat);
                let split = scan_start(o) + p;
                match f {
                    None => split == 0 && *final(self) == o,
                    Some(frag) => split > 0 && took_prefix(o, *final(self), frag, split, skips_newline(o), wrap),
                }
            }),
    {
        let skip = self.should_skip_leading_newline();
        let scan: usize = if skip {
            1
        } else {
            0
        };
        let v = chars_of(self.pending.as_str());
        let rest = string_of_range(&v, scan, v.len());
        assert(v@.subrange(scan as int, v@.len() as int) =~= scan_text(*self));
        let prefix = complete_visual_prefix(rest.as_str(), inner_width);
        proof {
            lemma_visual_prefix_bound(rest@, inner_width as nat);
        }
        let split = scan + prefix.char_index;
        if split == 0 {
            return None;
        }
        Some(self.take_pending_prefix(split, skip, prefix.ends_with_wrap))
    }

    /// Where a Markdown fragment of the pending text ends (see
    /// `markdown_split`).
    fn markdown_renderable_split(&self, inner_width: usize, in_code_block: bool, allow_partial_line: bool) -> (r:
        Option<(usize, bool)>)
        requires
            text_fits(self.pending@),
            allow_partial_line ==> preview_measurable(*self, inner_width as nat, in_code_block),
        ensures
            match r {
                None => markdown_split(*self, inner_width as nat, in_code_block, allow_partial_line) is None,
                Some((k, e)) => {
                    &&& markdown_split(*self, inner_width as nat, in_code_block, allow_partial_line) == Some(
                        (k as int, e),
                    )
                    &&& k <= self.pending@.len()
                },
            },
    {
        let skip = self.should_skip_leading_newline();
        let scan: usize = if skip {
            1
        } else {
            0
        };
        let v = chars_of(self.pending.as_str());
        let rest = string_of_range(&v, scan, v.len());
        let ghost t = scan_text(*self);
        assert(v@.subrange(scan as int, v@.len() as int) =~= t);
        let prefix = markdown_stream_prefix(rest.as_str(), inner_width, in_code_block);
        proof {
            lemma_stream_prefix_bound(t, inner_width as nat, in_code_block);
        }
        let mut renderable = prefix.char_index;
        let mut ends_with_wrap = prefix.ends_with_wrap;
        if allow_partial_line && renderable == 0 {
            let rv = chars_of(rest.as_str());
            if rv.len() > 0 && rv[0] != '\n' {
                let end = first_line_end(&rv, 0);
                assert(rv@.skip(0) =~= rv@);
                let line = string_of_range(&rv, 0, end);
                assert(rv@.subrange(0, end as int) =~= first_line(t));
                let w = markdown_preview_width(line.as_str(), inner_width, in_code_block);
                if w > 0 {
                    renderable = end;
                    ends_with_wrap = false;
                }
            }
        }
        let split = scan + renderable;
        if split == 0 {
            return None;
        }
        Some((split, ends_with_wrap))
    }

    /// Hands out the settled Markdown of the pending text, if any.
    pub fn drain_renderable_markdown(&mut self, inner_width: usize, in_code_block: bool) -> (f: Option<
        StreamFragment,
    >)
        requires
            text_fits(old(self).pending@),
        ensures
            ({
                let o = *old(self);
                match markdown_split(o, inner_width as nat, in_code_block, false) {
                    None => f is None && *final(self) == o,
                    Some((k, e)) => f matches Some(frag) && took_prefix(
                        o,
                        *final(self),
                        frag,
                        k,
                        skips_newline(o),
                        e,
                    ),
                }
            }),
    {
        let skip = self.should_skip_leading_newline();
        match self.markdown_renderable_split(inner_width, in_code_block, false) {
            None => None,
            Some((k, e)) => Some(self.take_pending_prefix(k, skip, e)),
        }
    }

    /// Hands out a preview of the pending Markdown: the settled part, or the
    /// whole first line when nothing is settled yet and it draws as
    /// something.
    pub fn drain_preview_markdown(&mut self, inner_width: usize, in_code_block: bool) -> (f: Option<
        StreamFragment,
    >)
        requires
            text_fits(old(self).pending@),
            preview_measurable(*old(self), inner_width as nat, in_code_block),
        ensures
            ({
                let o = *old(self);
                match markdown_split(o, inner_width as nat, in_code_block, true) {
                    None => f is None && *final(self) == o,
                    Some((k, e)) => f matches Some(frag) && took_prefix(
                        o,
                        *final(self),
                        frag,
                        k,
                        skips_newline(o),
                        e,
                    ),
                }
            }),
    {
        let skip = self.should_skip_leading_newline();
        match self.markdown_renderable_split(inner_width, in_code_block, true) {
            None => None,
            Some((k, e)) => Some(self.take_pending_prefix(k, skip, e)),
        }
    }

    /// Hands out a preview of the pending plain text: its first line, when
    /// that line starts the text and is not blank to the eye.
    pub fn drain_preview(&mut self) -> (f: Option<StreamFragment>)
        requires
            text_fits(old(self).pending@),
        ensures
            ({
                let o = *old(self);
                let t = scan_text(o);
                match preview_end(t, display_w(first_line(t)) as int) {
                    None => f is None && *final(self) == o,
                    Some(b) => f matches Some(frag) && took_prefix(
                        o,
                        *final(self),
                        frag,
                        scan_start(o) + b,
                        skips_newline(o),
                        false,
                    ),
                }
            }),
    {
        let skip = self.should_skip_leading_newline();
        let scan: usize = if skip {
            1
        } else {
            0
        };
        let v = chars_of(self.pending.as_str());
        let ghost t = scan_text(*self);
        if scan >= v.len() || v[scan] == '\n' {
            return None;
        }
        let end = first_line_end(&v, scan);
        let line = string_of_range(&v, scan, end);
        assert(v@.skip(scan as int) =~= t);
        assert(v@.subrange(scan as int, end as int) =~= first_line(t));
        let w = display_width(line.as_str());
        if w == 0 {
            return None;
        }
        Some(self.take_pending_prefix(end, skip, false))
    }

    /// Hands out everything still pending, at the end of the reply.
    pub fn finish(&mut self) -> (f: Option<StreamFragment>)
        ensures
            ({
                let o = *old(self);
                match f {
                    None => o.pending@.len() == 0 && *final(self) == o,
                    Some(frag) => o.pending@.len() > 0 && took_prefix(
                        o,
                        *final(self),
                        frag,
                        o.pending@.len() as int,
                        skips_newline(o),
                        false,
                    ),
                }
            }),
    {
        let n = chars_of(self.pending.as_str()).len();
        if n == 0 {
            return None;
        }
        let skip = self.should_skip_leading_newline();
        Some(self.take_pending_prefix(n, skip, false))
    }
}

impl StreamFragment {
    /// The text to draw: without the line break a wrap already drew.
    pub fn render_text(&self) -> (t: &str)
        requires
            self.skip_leading_newline ==> self.text@.len() > 0 && self.text@[0] == '\n',
        ensures
            t@ == if self.skip_leading_newline {
                self.text@.drop_first()
            } else {
                self.text@
            },
    {
        if self.skip_leading_newline {
            let n = self.text.as_str().unicode_len();
            self.text.as_str().substring_char(1, n)
        } else {
            self.text.as_str()
        }
    }

    /// The text handed out.
    pub fn into_text(self) -> (t: String)
        ensures
            t == self.text,
    {
        self.text
    }

    /// Whether a blank line goes before this fragment (the first of a
    /// reply).
    pub fn include_leading_blank(&self) -> (b: bool)
        ensures
            b == self.include_leading_blank,
    {
        self.include_leading_blank
    }
}

/// A fragment handed out keeps the skipped line break at its start, so
/// drawing it can leave that break out.
pub proof fn lemma_fragment_skips_a_newline(o: AppendOnlyStream, n: AppendOnlyStream, f: StreamFragment, k: int)
    requires
        scan_start(o) < k <= o.pending@.len(),
        took_prefix(o, n, f, k, skips_newline(o), n.previous_emission_ended_at_wrap),
    ensures
        f.skip_leading_newline ==> f.text@.len() > 0 && f.text@[0] == '\n',
{
}

/// Handing out never loses or reorders text: what was handed out followed
/// by what is pending stays the text received.
pub proof fn lemma_stream_keeps_text(o: AppendOnlyStream, n: AppendOnlyStream, f: StreamFragment, k: int, skip: bool, wrap: bool)
    requires
        0 <= k <= o.pending@.len(),
        took_prefix(o, n, f, k, skip, wrap),
    ensures
        n.emitted_text@ + n.pending@ == o.emitted_text@ + o.pending@,
        f.text@ + n.pending@ == o.pending@,
{
    assert(o.pending@.take(k) + o.pending@.skip(k) =~= o.pending@);
    assert(o.emitted_text@ + o.pending@.take(k) + o.pending@.skip(k) =~= o.emitted_text@ + o.pending@);
}

} // verus!

//! The status line below the composer: what it shows and in which order.
//! Numbers are handed out as integers; their decimal rendering is left to
//! the caller.
use vstd::prelude::*;
use crate::text::{chars_of, decimal, decimal_string, push_str, repeat, repeat_char, str_eq};
use crate::goal::{elapsed_text, format_elapsed};
use crate::width::{display_w, display_width, one_line_result, replace_char, truncate_one_line, truncated_to, unicode_str_width};
use crate::usage::{
    estimated_cost, estimated_usage_cost, ContextUsage, ContextUsageSource, ModelMetadata, ModelUsage,
};

verus! {

/// How the session is billed.
#[derive(Clone, Copy, Debug, PartialEq, Eq, Structural)]
pub enum BillingInfo {
    Metered,
    Subscription,
}

impl BillingInfo {
    /// Subscription billing for the Codex provider or Codex sign-in,
    /// metered billing otherwise.
    pub fn from_provider_auth(provider: &str, auth: &str) -> (b: Self)
        ensures
            b == (if provider@ == "openai-codex"@ || auth@ == "codex"@ {
                BillingInfo::Subscription
            } else {
                BillingInfo::Metered
            }),
    {
        if str_eq(provider, "openai-codex") || str_eq(auth, "codex") {
            BillingInfo::Subscription
        } else {
            BillingInfo::Metered
        }
    }

    /// The tag shown for the billing: "sub" for a subscription, none for
    /// metered use.
    pub fn label(self) -> (l: Option<&'static str>)
        ensures
            l matches Some(t) <==> self == BillingInfo::Subscription,
            l matches Some(t) ==> t@ == "sub"@,
    {
        match self {
            BillingInfo::Metered => None,
            BillingInfo::Subscription => Some("sub"),
        }
    }
}

/// What the status line reflects. `cwd` is the working directory as shown
/// (with the home directory abbreviated).
#[derive(Clone, Debug)]
pub struct StatusLineState {
    pub cwd: String,
    pub branch: Option<String>,
    pub status: String,
    pub usage: Option<ModelUsage>,
    pub latest_usage: Option<ModelUsage>,
    pub context_usage: Option<ContextUsage>,
    pub provider: String,
    pub model: String,
    pub reasoning: String,
    pub billing: BillingInfo,
    pub model_metadata: Option<ModelMetadata>,
    pub model_metadata_loading: bool,
}

impl StatusLineState {
    /// The top-left text, as a sequence.
    pub open spec fn left_top_spec(&self) -> Seq<char> {
        match self.branch {
            Some(b) => self.cwd@ + " ("@ + b@ + ")"@,
            None => self.cwd@,
        }
    }

    /// The length of the top-left text.
    pub open spec fn left_top_len(&self) -> int {
        self.left_top_spec().len() as int
    }

    /// The bottom-right text, as a sequence.
    pub open spec fn right_bottom_spec(&self) -> Seq<char> {
        "("@ + self.provider@ + ") "@ + self.model@ + " • "@ + self.reasoning@
    }

    /// The length of the bottom-right text.
    pub open spec fn right_bottom_len(&self) -> int {
        self.right_bottom_spec().len() as int
    }

    /// The top-left text: the directory and, when known, the git branch in
    /// brackets.
    pub fn left_top(&self) -> (t: String)
        ensures
            t@ == match self.branch {
                Some(b) => self.cwd@ + " ("@ + b@ + ")"@,
                None => self.cwd@,
            },
    {
        let mut t = String::new();
        push_str(&mut t, self.cwd.as_str());
        if let Some(branch) = &self.branch {
            push_str(&mut t, " (");
            push_str(&mut t, branch.as_str());
            push_str(&mut t, ")");
        }
        t
    }

    /// The bottom-right text: provider, model and reasoning level.
    pub fn right_bottom(&self) -> (t: String)
        ensures
            t@ == "("@ + self.provider@ + ") "@ + self.model@ + " • "@ + self.reasoning@,
    {
        let mut t = String::new();
        push_str(&mut t, "(");
        push_str(&mut t, self.provider.as_str());
        push_str(&mut t, ") ");
        push_str(&mut t, self.model.as_str());
        push_str(&mut t, " • ");
        push_str(&mut t, self.reasoning.as_str());
        t
    }
}

/// Whether the catalogue gives the model any price.
pub fn has_pricing(metadata: &ModelMetadata) -> (b: bool)
    ensures
        b == (metadata.cost_default is Some || metadata.cost_long_context is Some),
{
    metadata.cost_default.is_some() || metadata.cost_long_context.is_some()
}

/// The estimated cost of `usage` in micro-dollars.
pub fn estimated_cost_usd_micros(usage: &ModelUsage, metadata: Option<&ModelMetadata>) -> (c: Option<u64>)
    ensures
        c == estimated_cost(*usage, match metadata {
            Some(m) => Some(*m),
            None => None,
        }),
{
    estimated_usage_cost(usage, metadata)
}

/// The marker before a context figure: "~" for an estimate, "?" when
/// unknown after compaction, none when reported by the provider.
#[derive(Clone, Copy, Debug, PartialEq, Eq, Structural)]
pub enum ContextMarker {
    Estimated,
    Reported,
    Unknown,
}

/// One piece of the usage row, in the order shown.
#[derive(Clone, Copy, Debug, PartialEq, Eq, Structural)]
pub enum UsagePart {
    /// Model metadata is still loading; the row shows only that.
    Loading,
    /// Input tokens (shown with an up arrow).
    Input(u64),
    /// Output tokens (shown with a down arrow).
    Output(u64),
    /// Cache-read tokens.
    CacheRead(u64),
    /// Cache-write tokens.
    CacheWrite(u64),
    /// Cache-hit share: cache-read tokens out of all prompt tokens (more
    /// than zero).
    CacheHit { cache_read: u64, prompt_tokens: u64 },
    /// Cost in micro-dollars.
    Cost(u64),
    /// The billing tag ("sub").
    Billing,
    /// Context use: the marker, the tokens in use when known, and the
    /// window (more than zero).
    Context { marker: ContextMarker, tokens: Option<u64>, window: u64 },
}

/// The cache-hit share of the latest turn: cache reads out of input plus
/// cache reads, when there are cache reads and any prompt tokens.
pub open spec fn cache_hit(latest: Option<ModelUsage>) -> Option<(u64, u64)> {
    match latest {
        None => None,
        Some(u) => match u.cache_read_tokens {
            None => None,
            Some(r) => {
                let input = match u.input_tokens {
                    Some(i) => i,
                    None => 0,
                };
                let prompt = if input + r <= u64::MAX {
                    (input + r) as u64
                } else {
                    u64::MAX
                };
                if prompt > 0 {
                    Some((r, prompt))
                } else {
                    None
                }
            },
        },
    }
}

/// The context figure: the window the context usage reports, else the
/// model's, when more than zero.
pub open spec fn context_part(context: Option<ContextUsage>, metadata_window: Option<u64>) -> Option<UsagePart> {
    let window = match context {
        Some(c) => match c.context_window {
            Some(w) => Some(w),
            None => metadata_window,
        },
        None => metadata_window,
    };
    match window {
        None => None,
        Some(w) => if w == 0 {
            None
        } else {
            let marker = match context {
                Some(c) => match c.source {
                    ContextUsageSource::Estimated => ContextMarker::Estimated,
                    ContextUsageSource::ProviderReported => ContextMarker::Reported,
                    ContextUsageSource::UnknownAfterCompaction => ContextMarker::Unknown,
                },
                None => ContextMarker::Reported,
            };
            let tokens = match context {
                Some(c) => c.tokens,
                None => None,
            };
            Some(UsagePart::Context { marker, tokens, window: w })
        },
    }
}

/// Appends `p` when present.
pub open spec fn push_opt(s: Seq<UsagePart>, p: Option<UsagePart>) -> Seq<UsagePart> {
    match p {
        Some(x) => s.push(x),
        None => s,
    }
}

/// The counts and cost of the usage row, for cumulative usage `u`.
pub open spec fn counts_of(u: ModelUsage, latest: Option<ModelUsage>, metadata: Option<ModelMetadata>) -> Seq<UsagePart> {
    let a = push_opt(Seq::empty(), match u.input_tokens {
        Some(t) => Some(UsagePart::Input(t)),
        None => None,
    });
    let b = push_opt(a, match u.output_tokens {
        Some(t) => Some(UsagePart::Output(t)),
        None => None,
    });
    let c = push_opt(b, match u.cache_read_tokens {
        Some(t) => Some(UsagePart::CacheRead(t)),
        None => None,
    });
    let d = push_opt(c, match u.cache_write_tokens {
        Some(t) => Some(UsagePart::CacheWrite(t)),
        None => None,
    });
    let e = push_opt(d, match cache_hit(latest) {
        Some((r, p)) => Some(UsagePart::CacheHit { cache_read: r, prompt_tokens: p }),
        None => None,
    });
    let cost = match u.cost_usd_micros {
        Some(c) => Some(c),
        None => estimated_cost(u, metadata),
    };
    push_opt(e, match cost {
        Some(c) => Some(UsagePart::Cost(c)),
        None => None,
    })
}

/// The pieces of the usage row: while metadata loads, only that; else the
/// token counts that are known, the cache-hit share of the latest turn, the
/// reported or estimated cost (or a zero cost for a priced model before any
/// use), the billing tag, and the context figure.
pub open spec fn usage_parts_of(state: StatusLineState) -> Seq<UsagePart> {
    if state.model_metadata_loading {
        seq![UsagePart::Loading]
    } else {
        let metadata_window = match state.model_metadata {
            Some(m) => m.advertised_context_window,
            None => None,
        };
        let with_usage = match state.usage {
            Some(u) => counts_of(u, state.latest_usage, state.model_metadata),
            None => match state.model_metadata {
                Some(m) => if m.cost_default is Some || m.cost_long_context is Some {
                    seq![UsagePart::Cost(0)]
                } else {
                    Seq::empty()
                },
                None => Seq::empty(),
            },
        };
        let with_billing = if state.billing == BillingInfo::Subscription {
            with_usage.push(UsagePart::Billing)
        } else {
            with_usage
        };
        push_opt(with_billing, context_part(state.context_usage, metadata_window))
    }
}

fn push_part(parts: &mut Vec<UsagePart>, p: Option<UsagePart>)
    ensures
        final(parts)@ == push_opt(old(parts)@, p),
{
    if let Some(x) = p {
        parts.push(x);
    }
}

fn cache_hit_part(latest: &Option<ModelUsage>) -> (p: Option<UsagePart>)
    ensures
        p == match cache_hit(*latest) {
            Some((r, q)) => Some(UsagePart::CacheHit { cache_read: r, prompt_tokens: q }),
            None => None,
        },
{
    match latest {
        None => None,
        Some(latest) => match latest.cache_read_tokens {
            None => None,
            Some(r) => {
                let input = match latest.input_tokens {
                    Some(i) => i,
                    None => 0,
                };
                let prompt = input.saturating_add(r);
                if prompt > 0 {
                    Some(UsagePart::CacheHit { cache_read: r, prompt_tokens: prompt })
                } else {
                    None
                }
            },
        },
    }
}

fn counts_parts(u: &ModelUsage, latest: &Option<ModelUsage>, metadata: &Option<ModelMetadata>) -> (parts: Vec<UsagePart>)
    ensures
        parts@ == counts_of(*u, *latest, *metadata),
{
    let mut parts: Vec<UsagePart> = Vec::new();
    push_part(&mut parts, match u.input_tokens {
        Some(t) => Some(UsagePart::Input(t)),
        None => None,
    });
    push_part(&mut parts, match u.output_tokens {
        Some(t) => Some(UsagePart::Output(t)),
        None => None,
    });
    push_part(&mut parts, match u.cache_read_tokens {
        Some(t) => Some(UsagePart::CacheRead(t)),
        None => None,
    });
    push_part(&mut parts, match u.cache_write_tokens {
        Some(t) => Some(UsagePart::CacheWrite(t)),
        None => None,
    });
    push_part(&mut parts, cache_hit_part(latest));
    let cost = match u.cost_usd_micros {
        Some(c) => Some(c),
        None => estimated_usage_cost(u, metadata.as_ref()),
    };
    push_part(&mut parts, match cost {
        Some(c) => Some(UsagePart::Cost(c)),
        None => None,
    });
    parts
}

fn context_part_exec(context: &Option<ContextUsage>, metadata_window: Option<u64>) -> (p: Option<UsagePart>)
    ensures
        p == context_part(*context, metadata_window),
{
    let window = match context {
        Some(c) => match c.context_window {
            Some(w) => Some(w),
            None => metadata_window,
        },
        None => metadata_window,
    };
    match window {
        None => None,
        Some(w) => if w == 0 {
            None
        } else {
            let marker = match context {
                Some(c) => match c.source {
                    ContextUsageSource::Estimated => ContextMarker::Estimated,
                    ContextUsageSource::ProviderReported => ContextMarker::Reported,
                    ContextUsageSource::UnknownAfterCompaction => ContextMarker::Unknown,
                },
                None => ContextMarker::Reported,
            };
            let tokens = match context {
                Some(c) => c.tokens,
                None => None,
            };
            Some(UsagePart::Context { marker, tokens, window: w })
        },
    }
}

/// The pieces of the usage row, in order (see `usage_parts_of`).
pub fn usage_parts(state: &StatusLineState) -> (parts: Vec<UsagePart>)
    ensures
        parts@ == usage_parts_of(*state),
{
    if state.model_metadata_loading {
        let mut parts: Vec<UsagePart> = Vec::new();
        parts.push(UsagePart::Loading);
        assert(parts@ =~= seq![UsagePart::Loading]);
        return parts;
    }
    let mut parts: Vec<UsagePart> = match &state.usage {
        Some(u) => counts_parts(u, &state.latest_usage, &state.model_metadata),
        None => {
            let mut parts: Vec<UsagePart> = Vec::new();
            if let Some(m) = &state.model_metadata {
                if has_pricing(m) {
                    parts.push(UsagePart::Cost(0));
                    assert(parts@ =~= seq![UsagePart::Cost(0)]);
                }
            }
            parts
        },
    };
    if state.billing == BillingInfo::Subscription {
        parts.push(UsagePart::Billing);
    }
    let metadata_window = match &state.model_metadata {
        Some(m) => m.display_context_window(),
        None => None,
    };
    push_part(&mut parts, context_part_exec(&state.context_usage, metadata_window));
    parts
}

// ---------------------------------------------------------------------
// Rows
// ---------------------------------------------------------------------

proof fn lemma_one_line_len(s: Seq<char>, width: nat, r: Seq<char>)
    requires
        one_line_result(s, width, r),
    ensures
        r.len() <= s.len() + 1,
{
    let t = replace_char(s, '\n', ' ');
    if !(unicode_str_width(t) <= width) && width > 1 {
        let k = choose|k: nat| truncated_to(t, (width - 1) as nat, k) && r == t.take(k as int).push('…');
        assert(k <= t.len());
    }
}

/// The columns left for the right-hand text of a row that does not fit:
/// at most half the width (at least one column).
pub open spec fn right_budget(right_width: int, width: int) -> int {
    let half = if width / 2 > 1 {
        width / 2
    } else {
        1
    };
    if right_width < half {
        right_width
    } else {
        half
    }
}

/// Whether `r` is the status row with `left` at the start and `right` at
/// the end of `width` columns: they are spaced apart when they fit; else
/// the right text is cut to its budget and the left text to what remains.
pub open spec fn row_text(left: Seq<char>, right: Seq<char>, width: nat, r: Seq<char>) -> bool {
    let lw = display_w(left) as int;
    let rw = display_w(right) as int;
    if right.len() == 0 {
        one_line_result(left, width, r)
    } else if lw + rw < width {
        r == left + repeat_char(' ', (width - lw - rw) as nat) + right
    } else {
        exists|rr: Seq<char>, ll: Seq<char>|
            #[trigger] one_line_result(right, right_budget(rw, width as int) as nat, rr) && #[trigger] one_line_result(
                left,
                left_room(rr, width as int) as nat,
                ll,
            ) && r == ll + repeat_char(' ', row_gap(ll, rr, width as int) as nat) + rr
    }
}

/// The columns left for the left-hand text beside the cut right text `rr`
/// and one space (at least one column).
pub open spec fn left_room(rr: Seq<char>, width: int) -> int {
    let room = width - (display_w(rr) + 1);
    if room > 1 {
        room
    } else {
        1
    }
}

/// The spaces between the two texts of a row.
pub open spec fn row_gap(ll: Seq<char>, rr: Seq<char>, width: int) -> int {
    let gap = width - (display_w(ll) + display_w(rr));
    if gap > 0 {
        gap
    } else {
        0
    }
}

/// One status row, `left` and `right` laid out in `width` columns.
pub fn render_row(left: &str, right: &str, width: usize) -> (r: String)
    requires
        3 * (left@.len() + right@.len() + 2) <= usize::MAX,
    ensures
        row_text(left@, right@, width as nat, r@),
{
    if chars_of(right).len() == 0 {
        return truncate_one_line(left, width);
    }
    let left_width = display_width(left);
    let right_width = display_width(right);
    if left_width + right_width < width {
        let mut r = String::new();
        push_str(&mut r, left);
        push_str(&mut r, repeat(' ', width - left_width - right_width).as_str());
        push_str(&mut r, right);
        return r;
    }
    let half = if width / 2 > 1 {
        width / 2
    } else {
        1
    };
    let budget = if right_width < half {
        right_width
    } else {
        half
    };
    let rr = truncate_one_line(right, budget);
    proof {
        lemma_one_line_len(right@, budget as nat, rr@);
    }
    let rrw = display_width(rr.as_str());
    let room = width.saturating_sub(rrw.saturating_add(1));
    let room = if room > 1 {
        room
    } else {
        1
    };
    let ll = truncate_one_line(left, room);
    proof {
        lemma_one_line_len(left@, room as nat, ll@);
    }
    let llw = display_width(ll.as_str());
    let gap = width.saturating_sub(llw + rrw);
    let mut r = String::new();
    push_str(&mut r, ll.as_str());
    push_str(&mut r, repeat(' ', gap).as_str());
    push_str(&mut r, rr.as_str());
    proof {
        assert(one_line_result(right@, right_budget(display_w(right@) as int, width as int) as nat, rr@));
        assert(room == left_room(rr@, width as int));
        assert(one_line_result(left@, left_room(rr@, width as int) as nat, ll@));
        assert(gap == row_gap(ll@, rr@, width as int));
    }
    r
}

/// An active `/goal`: the turns it has taken and how long it has run, in
/// whole seconds.
#[derive(Clone, Copy, Debug, PartialEq, Eq, Structural)]
pub struct GoalStatus {
    pub turns: usize,
    pub elapsed_seconds: u64,
}

/// The goal indicator of the status line.
pub open spec fn goal_indicator_text(goal: GoalStatus) -> Seq<char> {
    "◎ /goal active • "@ + decimal(goal.turns as nat) + " turns • "@ + elapsed_text(goal.elapsed_seconds as nat)
}

/// The goal indicator, such as `"◎ /goal active • 2 turns • 1m 5s"`.
pub fn goal_indicator(goal: GoalStatus) -> (t: String)
    ensures
        t@ == goal_indicator_text(goal),
{
    let mut t = String::new();
    push_str(&mut t, "◎ /goal active • ");
    push_str(&mut t, decimal_string(goal.turns as u64).as_str());
    push_str(&mut t, " turns • ");
    push_str(&mut t, format_elapsed(goal.elapsed_seconds).as_str());
    t
}

/// The right-hand text of the top row: the goal indicator while a goal is
/// active.
pub open spec fn top_right(goal: Option<GoalStatus>) -> Seq<char> {
    match goal {
        Some(g) => goal_indicator_text(g),
        None => Seq::empty(),
    }
}

/// The three status rows: the directory (with the goal indicator while a
/// goal is active), the usage (already formatted as `usage_text`) with the
/// model, and the status message.
pub fn statusline_rows(state: &StatusLineState, usage_text: &str, width: usize, goal: Option<GoalStatus>) -> (rows:
    Vec<String>)
    requires
        3 * (state.left_top_len() + top_right(goal).len() + 2) <= usize::MAX,
        3 * (usage_text@.len() + state.right_bottom_len() + 2) <= usize::MAX,
        3 * (state.status@.len() + 2) <= usize::MAX,
    ensures
        rows@.len() == 3,
        row_text(state.left_top_spec(), top_right(goal), width as nat, rows@[0]@),
        row_text(usage_text@, state.right_bottom_spec(), width as nat, rows@[1]@),
        row_text(state.status@, Seq::empty(), width as nat, rows@[2]@),
{
    let top = state.left_top();
    let bottom = state.right_bottom();
    let none = String::new();
    let top_right_text = match goal {
        Some(g) => goal_indicator(g),
        None => String::new(),
    };
    let mut rows: Vec<String> = Vec::new();
    rows.push(render_row(top.as_str(), top_right_text.as_str(), width));
    rows.push(render_row(usage_text, bottom.as_str(), width));
    rows.push(render_row(state.status.as_str(), none.as_str(), width));
    rows
}

} // verus!

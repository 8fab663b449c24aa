//! Token usage, pricing and cost estimates of model turns.
use vstd::prelude::*;

verus! {

/// Tokens and cost reported for one or more model turns.
#[derive(Clone, Copy, Debug, PartialEq, Eq, Default)]
pub struct ModelUsage {
    pub input_tokens: Option<u64>,
    pub output_tokens: Option<u64>,
    pub cache_read_tokens: Option<u64>,
    pub cache_write_tokens: Option<u64>,
    pub total_tokens: Option<u64>,
    pub cost_usd_micros: Option<u64>,
    pub context_window: Option<u64>,
}

/// Prices in micro-dollars per million tokens.
#[derive(Clone, Copy, Debug, PartialEq, Eq, Default)]
pub struct ModelCost {
    pub input_micros_per_m: Option<u64>,
    pub output_micros_per_m: Option<u64>,
    pub cache_read_micros_per_m: Option<u64>,
    pub cache_write_micros_per_m: Option<u64>,
}

/// What the model catalogue tells about a model.
#[derive(Clone, Copy, Debug, PartialEq, Eq, Default)]
pub struct ModelMetadata {
    pub cost_default: Option<ModelCost>,
    pub cost_long_context: Option<ModelCost>,
    pub advertised_context_window: Option<u64>,
}

/// Prompts with more input tokens than this are billed at long-context prices.
pub const LONG_CONTEXT_THRESHOLD_TOKENS: u64 = 200_000;

/// Where a context-usage figure comes from.
#[derive(Clone, Copy, Debug, PartialEq, Eq)]
pub enum ContextUsageSource {
    Estimated,
    ProviderReported,
    UnknownAfterCompaction,
}

/// How full the model's context window is.
#[derive(Clone, Copy, Debug, PartialEq, Eq)]
pub struct ContextUsage {
    pub tokens: Option<u64>,
    pub context_window: Option<u64>,
    pub source: ContextUsageSource,
}

impl ContextUsage {
    pub fn estimated(tokens: u64, context_window: Option<u64>) -> (c: Self)
        ensures
            c == (ContextUsage { tokens: Some(tokens), context_window, source: ContextUsageSource::Estimated }),
    {
        ContextUsage { tokens: Some(tokens), context_window, source: ContextUsageSource::Estimated }
    }

    pub fn provider_reported(tokens: u64, context_window: Option<u64>) -> (c: Self)
        ensures
            c == (ContextUsage {
                tokens: Some(tokens),
                context_window,
                source: ContextUsageSource::ProviderReported,
            }),
    {
        ContextUsage {
            tokens: Some(tokens),
            context_window,
            source: ContextUsageSource::ProviderReported,
        }
    }
}

/// Sum of two optional counts; absent counts are left out, and the sum
/// stops at `u64::MAX`.
pub open spec fn add_opt(left: Option<u64>, right: Option<u64>) -> Option<u64> {
    match (left, right) {
        (Some(l), Some(r)) => Some(if l + r <= u64::MAX {
            (l + r) as u64
        } else {
            u64::MAX
        }),
        (Some(v), None) => Some(v),
        (None, Some(v)) => Some(v),
        (None, None) => None,
    }
}

/// Adds two optional token counts.
pub fn add_optional(left: Option<u64>, right: Option<u64>) -> (r: Option<u64>)
    ensures
        r == add_opt(left, right),
{
    match (left, right) {
        (Some(left), Some(right)) => Some(left.saturating_add(right)),
        (Some(value), None) => Some(value),
        (None, Some(value)) => Some(value),
        (None, None) => None,
    }
}

pub open spec fn or_zero(v: Option<u64>) -> u64 {
    match v {
        Some(n) => n,
        None => 0,
    }
}

impl ModelUsage {
    pub open spec fn total_input_spec(&self) -> Option<u64> {
        add_opt(add_opt(self.input_tokens, self.cache_read_tokens), self.cache_write_tokens)
    }

    /// All prompt tokens: fresh input, cache reads and cache writes.
    pub fn total_input_tokens(&self) -> (t: Option<u64>)
        ensures
            t == self.total_input_spec(),
    {
        add_optional(add_optional(self.input_tokens, self.cache_read_tokens), self.cache_write_tokens)
    }
}

impl ModelMetadata {
    pub open spec fn cost_for_spec(&self, total_input: u64) -> Option<ModelCost> {
        if total_input > LONG_CONTEXT_THRESHOLD_TOKENS && self.cost_long_context is Some {
            self.cost_long_context
        } else {
            self.cost_default
        }
    }

    /// The prices that apply to a prompt of `total_input` tokens.
    pub fn cost_for_input_tokens(&self, total_input: u64) -> (c: Option<ModelCost>)
        ensures
            c == self.cost_for_spec(total_input),
    {
        if total_input > LONG_CONTEXT_THRESHOLD_TOKENS && self.cost_long_context.is_some() {
            self.cost_long_context
        } else {
            self.cost_default
        }
    }

    /// The context window to show when the provider reports none.
    pub fn display_context_window(&self) -> (w: Option<u64>)
        ensures
            w == self.advertised_context_window,
    {
        self.advertised_context_window
    }
}

/// Cost in micro-dollars of `tokens` at `rate` micro-dollars per million.
pub open spec fn component(tokens: u64, rate: Option<u64>) -> nat {
    (tokens * or_zero(rate)) as nat / 1_000_000
}

/// Micro-dollars for `tokens` at `micros_per_million` per million tokens,
/// rounded down.
pub fn cost_component(tokens: u64, micros_per_million: Option<u64>) -> (c: u128)
    ensures
        c == component(tokens, micros_per_million),
        c <= u64::MAX * u64::MAX / 1_000_000,
{
    let rate: u64 = match micros_per_million {
        Some(r) => r,
        None => 0,
    };
    let t = tokens as u128;
    let r = rate as u128;
    proof {
        assert(t * r <= u64::MAX * u64::MAX) by (nonlinear_arith)
            requires
                t <= u64::MAX,
                r <= u64::MAX,
        ;
        assert((t * r) / 1_000_000 <= u64::MAX * u64::MAX / 1_000_000) by (nonlinear_arith)
            requires
                t * r <= u64::MAX * u64::MAX,
        ;
    }
    t * r / 1_000_000
}

/// The estimated cost of `usage` under `metadata`'s prices, in micro-dollars.
pub open spec fn estimated_cost(usage: ModelUsage, metadata: Option<ModelMetadata>) -> Option<u64> {
    match metadata {
        None => None,
        Some(m) => match m.cost_for_spec(or_zero(usage.total_input_spec())) {
            None => None,
            Some(cost) => {
                let micros = component(or_zero(usage.input_tokens), cost.input_micros_per_m)
                    + component(or_zero(usage.output_tokens), cost.output_micros_per_m)
                    + component(or_zero(usage.cache_read_tokens), cost.cache_read_micros_per_m)
                    + component(or_zero(usage.cache_write_tokens), cost.cache_write_micros_per_m);
                if micros > 0 {
                    Some(if micros <= u64::MAX {
                        micros as u64
                    } else {
                        u64::MAX
                    })
                } else {
                    None
                }
            },
        },
    }
}

/// Cost of `usage` at the prices `metadata` gives, when any tokens cost
/// something.
pub fn estimated_usage_cost(usage: &ModelUsage, metadata: Option<&ModelMetadata>) -> (c: Option<u64>)
    ensures
        c == estimated_cost(*usage, match metadata {
            Some(m) => Some(*m),
            None => None,
        }),
{
    let metadata = match metadata {
        Some(m) => m,
        None => return None,
    };
    let input = match usage.input_tokens {
        Some(n) => n,
        None => 0,
    };
    let cache_read = match usage.cache_read_tokens {
        Some(n) => n,
        None => 0,
    };
    let total_input = match usage.total_input_tokens() {
        Some(n) => n,
        None => 0,
    };
    let cost = match metadata.cost_for_input_tokens(total_input) {
        Some(c) => c,
        None => return None,
    };
    let output = match usage.output_tokens {
        Some(n) => n,
        None => 0,
    };
    let cache_write = match usage.cache_write_tokens {
        Some(n) => n,
        None => 0,
    };
    let a = cost_component(input, cost.input_micros_per_m);
    let b = cost_component(output, cost.output_micros_per_m);
    let c = cost_component(cache_read, cost.cache_read_micros_per_m);
    let d = cost_component(cache_write, cost.cache_write_micros_per_m);
    let micros: u128 = a + b + c + d;
    if micros > 0 {
        Some(if micros <= u64::MAX as u128 {
            micros as u64
        } else {
            u64::MAX
        })
    } else {
        None
    }
}

/// `usage` with its cost filled in from `metadata` when the provider
/// reported none.
pub fn usage_with_estimated_cost(usage: ModelUsage, metadata: Option<&ModelMetadata>) -> (u: ModelUsage)
    ensures
        usage.cost_usd_micros is Some ==> u == usage,
        usage.cost_usd_micros is None ==> u == (ModelUsage {
            cost_usd_micros: estimated_cost(usage, match metadata {
                Some(m) => Some(*m),
                None => None,
            }),
            ..usage
        }),
{
    let mut usage = usage;
    if usage.cost_usd_micros.is_none() {
        usage.cost_usd_micros = estimated_usage_cost(&usage, metadata);
    }
    usage
}

pub open spec fn usage_total(usage: ModelUsage) -> Option<u64> {
    let i = or_zero(usage.total_input_spec());
    let o = or_zero(usage.output_tokens);
    let t = if i + o <= u64::MAX {
        (i + o) as u64
    } else {
        u64::MAX
    };
    if t > 0 {
        Some(t)
    } else {
        None
    }
}

/// Prompt plus output tokens of `usage`, when there are any.
pub fn usage_total_tokens(usage: &ModelUsage) -> (t: Option<u64>)
    ensures
        t == usage_total(*usage),
{
    let i = match usage.total_input_tokens() {
        Some(n) => n,
        None => 0,
    };
    let o = match usage.output_tokens {
        Some(n) => n,
        None => 0,
    };
    let total = i.saturating_add(o);
    if total > 0 {
        Some(total)
    } else {
        None
    }
}

/// The running totals after adding one turn's `usage`: counts and cost add
/// up, the total-token figure is the latest turn's, and the context window
/// is the latest one reported.
pub open spec fn merged(total: Option<ModelUsage>, usage: ModelUsage) -> Option<ModelUsage> {
    match total {
        None => Some(usage),
        Some(t) => Some(ModelUsage {
            input_tokens: add_opt(t.input_tokens, usage.input_tokens),
            output_tokens: add_opt(t.output_tokens, usage.output_tokens),
            cache_read_tokens: add_opt(t.cache_read_tokens, usage.cache_read_tokens),
            cache_write_tokens: add_opt(t.cache_write_tokens, usage.cache_write_tokens),
            total_tokens: match usage.total_tokens {
                Some(n) => Some(n),
                None => usage_total(usage),
            },
            cost_usd_micros: add_opt(t.cost_usd_micros, usage.cost_usd_micros),
            context_window: match usage.context_window {
                Some(n) => Some(n),
                None => t.context_window,
            },
        }),
    }
}

/// Adds one turn's `usage` to the running `total`.
pub fn merge_usage(total: &mut Option<ModelUsage>, usage: ModelUsage)
    ensures
        *final(total) == merged(*old(total), usage),
{
    match total {
        None => {
            *total = Some(usage);
        },
        Some(t) => {
            t.input_tokens = add_optional(t.input_tokens, usage.input_tokens);
            t.output_tokens = add_optional(t.output_tokens, usage.output_tokens);
            t.cache_read_tokens = add_optional(t.cache_read_tokens, usage.cache_read_tokens);
            t.cache_write_tokens = add_optional(t.cache_write_tokens, usage.cache_write_tokens);
            t.total_tokens = match usage.total_tokens {
                Some(n) => Some(n),
                None => usage_total_tokens(&usage),
            };
            t.cost_usd_micros = add_optional(t.cost_usd_micros, usage.cost_usd_micros);
            t.context_window = match usage.context_window {
                Some(n) => Some(n),
                None => t.context_window,
            };
        },
    }
}

/// Merging keeps token counts monotone: the running input count never
/// drops when a turn is added.
pub proof fn lemma_merge_never_loses_input(total: ModelUsage, usage: ModelUsage)
    ensures
        or_zero(merged(Some(total), usage).unwrap().input_tokens) >= or_zero(total.input_tokens),
        or_zero(merged(Some(total), usage).unwrap().input_tokens) >= or_zero(usage.input_tokens),
{
}

} // verus!

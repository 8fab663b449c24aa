//! The `/goal` command: its state, prompts and the text it shows.
use vstd::prelude::*;
use crate::text::{ascii_lower_seq, chars_of, decimal, decimal_string, push_range, push_str, string_of_range, trim_seq, trimmed};

verus! {

/// Longest goal condition accepted, in characters.
pub const MAX_GOAL_CHARS: usize = 4_000;

/// Transcript characters handed to the goal evaluator.
pub const MAX_EVALUATION_TRANSCRIPT_CHARS: usize = 64_000;

/// An active goal; times are monotonic clock readings in nanoseconds.
#[derive(Clone, Debug)]
pub struct GoalState {
    pub condition: String,
    pub turns: usize,
    pub last_reason: Option<String>,
    pub started_at: u64,
}

impl GoalState {
    /// A goal set at `now`, with no turns yet.
    pub fn new(condition: String, now: u64) -> (g: Self)
        ensures
            g.condition == condition,
            g.turns == 0,
            g.last_reason is None,
            g.started_at == now,
    {
        GoalState { condition, turns: 0, last_reason: None, started_at: now }
    }

    /// Time since the goal was set, in nanoseconds.
    pub fn elapsed(&self, now: u64) -> (d: u64)
        ensures
            d == (if now >= self.started_at { now - self.started_at } else { 0 }),
    {
        now.saturating_sub(self.started_at)
    }
}

/// The last `max_chars` characters of `text`, marked as cut when anything
/// was dropped.
pub open spec fn tail(text: Seq<char>, max_chars: nat) -> Seq<char> {
    if text.len() <= max_chars {
        text
    } else {
        "[earlier transcript omitted]\n"@ + text.skip(text.len() - max_chars)
    }
}

/// Keeps the end of an evaluation transcript.
pub fn tail_chars(text: &str, max_chars: usize) -> (r: String)
    ensures
        r@ == tail(text@, max_chars as nat),
{
    let v = chars_of(text);
    let mut r = String::new();
    if v.len() <= max_chars {
        push_range(&mut r, &v, 0, v.len());
        assert(v@.subrange(0, v@.len() as int) =~= v@);
        return r;
    }
    push_str(&mut r, "[earlier transcript omitted]\n");
    push_range(&mut r, &v, v.len() - max_chars, v.len());
    assert(v@.subrange((v@.len() - max_chars) as int, v@.len() as int) =~= v@.skip(v@.len() - max_chars));
    r
}

/// How long a goal has run, from whole seconds: seconds, minutes and
/// seconds, or hours and minutes.
pub open spec fn elapsed_text(seconds: nat) -> Seq<char> {
    if seconds < 60 {
        decimal(seconds) + "s"@
    } else if seconds < 3_600 {
        decimal(seconds / 60) + "m "@ + decimal(seconds % 60) + "s"@
    } else {
        decimal(seconds / 3_600) + "h "@ + decimal(seconds % 3_600 / 60) + "m"@
    }
}

/// `elapsed_seconds` as a short text such as `"2m 5s"`.
pub fn format_elapsed(elapsed_seconds: u64) -> (r: String)
    ensures
        r@ == elapsed_text(elapsed_seconds as nat),
{
    let seconds = elapsed_seconds;
    let mut r = String::new();
    if seconds < 60 {
        push_str(&mut r, decimal_string(seconds).as_str());
        push_str(&mut r, "s");
    } else if seconds < 3_600 {
        push_str(&mut r, decimal_string(seconds / 60).as_str());
        push_str(&mut r, "m ");
        push_str(&mut r, decimal_string(seconds % 60).as_str());
        push_str(&mut r, "s");
    } else {
        push_str(&mut r, decimal_string(seconds / 3_600).as_str());
        push_str(&mut r, "h ");
        push_str(&mut r, decimal_string(seconds % 3_600 / 60).as_str());
        push_str(&mut r, "m");
    }
    r
}

pub open spec fn goal_prompt_head() -> Seq<char> {
    "The user invoked Rho's `/goal` command to set the following completion goal. Treat this as a goal-setting action, not as an ordinary conversational message or a claim that the goal is already complete.\n\nGoal:\n"@
}

pub open spec fn goal_prompt_tail() -> Seq<char> {
    "\n\nBegin working toward the goal now. Make concrete progress, use tools as needed, and verify the completion condition before stopping."@
}

/// The prompt that starts work on a new goal.
pub fn initial_goal_prompt(condition: &str) -> (r: String)
    ensures
        r@ == goal_prompt_head() + condition@ + goal_prompt_tail(),
{
    let mut r = String::new();
    push_str(&mut r, "The user invoked Rho's `/goal` command to set the following completion goal. Treat this as a goal-setting action, not as an ordinary conversational message or a claim that the goal is already complete.\n\nGoal:\n");
    push_str(&mut r, condition);
    push_str(&mut r, "\n\nBegin working toward the goal now. Make concrete progress, use tools as needed, and verify the completion condition before stopping.");
    r
}

/// Whether `v` holds exactly the characters of `lit`.
pub fn chars_eq(v: &[char], lit: &str) -> (b: bool)
    ensures
        b == (v@ == lit@),
{
    let w = chars_of(lit);
    if v.len() != w.len() {
        return false;
    }
    let mut i: usize = 0;
    while i < v.len()
        invariant
            i <= v@.len(),
            v@.len() == w@.len(),
            w@ == lit@,
            forall|k: int| 0 <= k < i ==> v@[k] == w@[k],
        decreases v.len() - i,
    {
        if v[i] != w[i] {
            return false;
        }
        i += 1;
    }
    assert(v@ =~= w@);
    true
}

/// The words that clear a goal.
pub open spec fn is_clear_word(s: Seq<char>) -> bool {
    s == "clear"@ || s == "stop"@ || s == "off"@ || s == "reset"@ || s == "none"@ || s == "cancel"@
}

/// Whether `/goal <value>` clears the goal: the trimmed value is one of the
/// clearing words, in any ASCII case.
pub fn is_goal_clear_alias(value: &str) -> (b: bool)
    ensures
        b == is_clear_word(ascii_lower_seq(trim_seq(value@))),
{
    let t = trimmed(value);
    let mut lower: Vec<char> = Vec::new();
    let mut i: usize = 0;
    while i < t.len()
        invariant
            i <= t@.len(),
            t@ == trim_seq(value@),
            lower@ == ascii_lower_seq(t@).take(i as int),
        decreases t.len() - i,
    {
        let c = t[i];
        let l = if 'A' <= c && c <= 'Z' {
            ((c as u8) + 32) as char
        } else {
            c
        };
        proof {
            if 'A' <= c && c <= 'Z' {
                assert((c as u32) < 128);
                assert(l == ((c as u32) + 32) as char);
            }
        }
        lower.push(l);
        assert(ascii_lower_seq(t@).take(i as int + 1) =~= ascii_lower_seq(t@).take(i as int).push(l));
        i += 1;
    }
    assert(ascii_lower_seq(t@).take(t@.len() as int) =~= ascii_lower_seq(t@));
    chars_eq(&lower, "clear") || chars_eq(&lower, "stop") || chars_eq(&lower, "off")
        || chars_eq(&lower, "reset") || chars_eq(&lower, "none") || chars_eq(&lower, "cancel")
}

/// The goal evaluator's verdict.
#[derive(Clone, Debug)]
pub struct GoalEvaluation {
    pub met: bool,
    pub reason: String,
}

/// Why an evaluator reply was refused.
#[derive(Clone, Copy, Debug, PartialEq, Eq, Structural)]
pub enum EvaluationError {
    /// The reply holds no `{ ... }` object.
    MissingJsonObject,
    /// The reason, once trimmed, is empty.
    EmptyReason,
}

/// Whether `i` is the first position of `c` in `s`.
pub open spec fn is_first_of(s: Seq<char>, c: char, i: int) -> bool {
    0 <= i < s.len() && s[i] == c && forall|j: int| 0 <= j < i ==> s[j] != c
}

/// Whether `i` is the last position of `c` in `s`.
pub open spec fn is_last_of(s: Seq<char>, c: char, i: int) -> bool {
    0 <= i < s.len() && s[i] == c && forall|j: int| i < j < s.len() ==> s[j] != c
}

/// Whether the trimmed reply is itself a braced object.
pub open spec fn is_braced(t: Seq<char>) -> bool {
    t.len() > 0 && t[0] == '{' && t.last() == '}'
}

/// Whether the reply cannot be cut: its first `{` lies more than one
/// place after its last `}`.
pub open spec fn json_cut_reversed(text: Seq<char>) -> bool {
    let t = trim_seq(text);
    !is_braced(t) && exists|s: int, e: int| is_first_of(t, '{', s) && is_last_of(t, '}', e) && s > e + 1
}

/// The JSON object inside an evaluator reply: the trimmed reply when it is
/// braced, else the text from its first `{` to its last `}`.
pub open spec fn evaluation_json_text(text: Seq<char>) -> Result<Seq<char>, EvaluationError> {
    let t = trim_seq(text);
    if is_braced(t) {
        Ok(t)
    } else if (exists|s: int| is_first_of(t, '{', s)) && (exists|e: int| is_last_of(t, '}', e)) {
        let s = choose|s: int| is_first_of(t, '{', s);
        let e = choose|e: int| is_last_of(t, '}', e);
        Ok(t.subrange(s, e + 1))
    } else {
        Err(EvaluationError::MissingJsonObject)
    }
}

/// Cuts the JSON object out of an evaluator reply, which may wrap it in a
/// code fence or prose.
pub fn evaluation_json(text: &str) -> (r: Result<String, EvaluationError>)
    requires
        !json_cut_reversed(text@),
    ensures
        match r {
            Ok(j) => evaluation_json_text(text@) == Ok::<Seq<char>, EvaluationError>(j@),
            Err(e) => evaluation_json_text(text@) == Err::<Seq<char>, EvaluationError>(e),
        },
{
    let t = trimmed(text);
    let ghost ts = trim_seq(text@);
    let n = t.len();
    if n > 0 && t[0] == '{' && t[n - 1] == '}' {
        assert(t@.subrange(0, n as int) =~= ts);
        return Ok(string_of_range(&t, 0, n));
    }
    let mut s: usize = 0;
    while s < n && t[s] != '{'
        invariant
            t@ == ts,
            n == ts.len(),
            s <= n,
            forall|j: int| 0 <= j < s ==> ts[j] != '{',
        decreases n - s,
    {
        s += 1;
    }
    if s == n {
        assert(!exists|x: int| is_first_of(ts, '{', x));
        return Err(EvaluationError::MissingJsonObject);
    }
    assert(is_first_of(ts, '{', s as int));
    let mut e: usize = n;
    while e > 0 && t[e - 1] != '}'
        invariant
            t@ == ts,
            n == ts.len(),
            e <= n,
            forall|j: int| e <= j < n ==> ts[j] != '}',
        decreases e,
    {
        e -= 1;
    }
    if e == 0 {
        assert(!exists|x: int| is_last_of(ts, '}', x));
        return Err(EvaluationError::MissingJsonObject);
    }
    assert(is_last_of(ts, '}', e - 1));
    proof {
        let cs = choose|x: int| is_first_of(ts, '{', x);
        let ce = choose|x: int| is_last_of(ts, '}', x);
        assert(cs == s as int);
        assert(ce == e - 1);
        assert(!(s as int > e - 1 + 1));
    }
    Ok(string_of_range(&t, s, e))
}

/// The verdict from the evaluator's fields: the reason is trimmed and must
/// not be empty.
pub fn goal_evaluation(met: bool, reason: &str) -> (r: Result<GoalEvaluation, EvaluationError>)
    ensures
        match r {
            Ok(g) => g.met == met && g.reason@ == trim_seq(reason@) && trim_seq(reason@).len() > 0,
            Err(e) => e == EvaluationError::EmptyReason && trim_seq(reason@).len() == 0,
        },
{
    let t = trimmed(reason);
    if t.len() == 0 {
        return Err(EvaluationError::EmptyReason);
    }
    Ok(GoalEvaluation { met, reason: string_of_range(&t, 0, t.len()) })
}

/// What came of one goal evaluation.
pub enum EvaluationOutcome {
    /// The user interrupted the evaluation, or the goal was cleared while
    /// it ran.
    Cancelled,
    /// The evaluation failed or timed out; the text says why.
    Failed(String),
    /// The evaluator gave its verdict.
    Answered(GoalEvaluation),
}

/// What the session does after a goal evaluation.
pub enum GoalAction {
    /// Stop working on the goal; nothing is shown.
    Stop,
    /// Show `error`, set `status` and stop; the goal stays active.
    Fail { error: String, status: String },
    /// The goal is met: show `notice`, set `status` and stop.
    Achieved { notice: String, status: String },
    /// The goal is not met yet: show `notice` and run `prompt` as the next
    /// turn, after which the goal is evaluated again.
    Continue { notice: String, prompt: String },
}

/// The error shown when an evaluation fails.
pub open spec fn evaluation_failed_text(err: Seq<char>) -> Seq<char> {
    "goal evaluation failed; goal remains active: "@ + err
}

/// The notice shown when the goal is met after `turns` turns and
/// `seconds` seconds.
pub open spec fn achieved_text(turns: nat, seconds: nat, reason: Seq<char>) -> Seq<char> {
    "goal achieved after "@ + decimal(turns) + " turn(s) and "@ + elapsed_text(seconds) + ": "@ + reason
}

/// The notice shown when the goal is not met yet.
pub open spec fn not_met_text(reason: Seq<char>) -> Seq<char> {
    "goal not yet met: "@ + reason
}

/// The prompt of the turn that follows an unmet verdict.
pub open spec fn continuation_prompt(condition: Seq<char>, reason: Seq<char>) -> Seq<char> {
    "Continue working toward this goal:\n\n"@ + condition + "\n\nThe goal evaluator says it is not yet met: "@
        + reason + "\n\nMake concrete progress and verify the completion condition before stopping."@
}

/// Whole seconds between `started_at` and `now` (nanosecond readings).
pub open spec fn elapsed_seconds(started_at: u64, now: u64) -> nat {
    (if now >= started_at { now - started_at } else { 0int }) as nat / 1_000_000_000
}

/// Whether `a` is the action `goal_step` owes for `goal` and `outcome` at
/// `now`, and `next` the goal that stays.
pub open spec fn goal_transition(
    goal: Option<GoalState>,
    outcome: EvaluationOutcome,
    now: u64,
    next: Option<GoalState>,
    a: GoalAction,
) -> bool {
    match goal {
        None => next is None && a is Stop,
        Some(g) => match outcome {
            EvaluationOutcome::Cancelled => next is None && a is Stop,
            EvaluationOutcome::Failed(err) => next == Some(g) && (a matches GoalAction::Fail { error, status }
                && error@ == evaluation_failed_text(err@) && status@ == "goal evaluation failed"@),
            EvaluationOutcome::Answered(ev) => if ev.met {
                next is None && (a matches GoalAction::Achieved { notice, status } && notice@ == achieved_text(
                    (g.turns + 1) as nat,
                    elapsed_seconds(g.started_at, now),
                    ev.reason@,
                ) && status@ == "goal achieved"@)
            } else {
                (next matches Some(n) && n.condition == g.condition && n.turns == g.turns + 1 && n.started_at
                    == g.started_at && (n.last_reason matches Some(r) && r@ == ev.reason@)) && (a matches GoalAction::Continue {
                    notice,
                    prompt,
                } && notice@ == not_met_text(ev.reason@) && prompt@ == continuation_prompt(g.condition@, ev.reason@))
            },
        },
    }
}

/// One step of pursuing a goal: from the active goal (if any) and what its
/// evaluation gave at `now`, the goal that stays and what to do next. A
/// cancelled evaluation clears the goal; a failed one keeps it and stops; a
/// verdict counts a turn and either ends the goal or asks for another turn.
pub fn goal_step(goal: Option<GoalState>, outcome: EvaluationOutcome, now: u64) -> (r: (Option<GoalState>, GoalAction))
    requires
        goal matches Some(g) ==> g.turns < usize::MAX,
    ensures
        goal_transition(goal, outcome, now, r.0, r.1),
{
    let g = match goal {
        None => return (None, GoalAction::Stop),
        Some(g) => g,
    };
    match outcome {
        EvaluationOutcome::Cancelled => (None, GoalAction::Stop),
        EvaluationOutcome::Failed(err) => {
            let mut error = String::new();
            push_str(&mut error, "goal evaluation failed; goal remains active: ");
            push_str(&mut error, err.as_str());
            (Some(g), GoalAction::Fail { error, status: String::from_str("goal evaluation failed") })
        },
        EvaluationOutcome::Answered(ev) => {
            let turns = g.turns + 1;
            if ev.met {
                let seconds = g.elapsed(now) / 1_000_000_000;
                let mut notice = String::new();
                push_str(&mut notice, "goal achieved after ");
                push_str(&mut notice, decimal_string(turns as u64).as_str());
                push_str(&mut notice, " turn(s) and ");
                push_str(&mut notice, format_elapsed(seconds).as_str());
                push_str(&mut notice, ": ");
                push_str(&mut notice, ev.reason.as_str());
                (None, GoalAction::Achieved { notice, status: String::from_str("goal achieved") })
            } else {
                let mut notice = String::new();
                push_str(&mut notice, "goal not yet met: ");
                push_str(&mut notice, ev.reason.as_str());
                let mut prompt = String::new();
                push_str(&mut prompt, "Continue working toward this goal:\n\n");
                push_str(&mut prompt, g.condition.as_str());
                push_str(&mut prompt, "\n\nThe goal evaluator says it is not yet met: ");
                push_str(&mut prompt, ev.reason.as_str());
                push_str(
                    &mut prompt,
                    "\n\nMake concrete progress and verify the completion condition before stopping.",
                );
                let next = GoalState {
                    condition: g.condition,
                    turns,
                    last_reason: Some(ev.reason),
                    started_at: g.started_at,
                };
                (Some(next), GoalAction::Continue { notice, prompt })
            }
        },
    }
}

} // verus!

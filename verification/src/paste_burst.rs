//! Detection of pastes that arrive as a rapid burst of key events.
//!
//! Clock readings are monotonic times in nanoseconds.
use vstd::prelude::*;

verus! {

/// Longest pause between key events of one paste burst.
pub const PASTE_BURST_GAP: u64 = 12_000_000;

/// How long after a burst an Enter still counts as part of the paste.
pub const PASTE_ENTER_SUPPRESSION: u64 = 120_000_000;

/// Characters a burst needs before an Enter joins it.
pub const PASTE_BURST_MIN_CHARS: usize = 2;

#[derive(Clone, Copy, Debug, PartialEq, Eq)]
pub enum PasteBurstEnter {
    Buffered,
    InsertNewline,
    NotPaste,
}

pub struct PasteBurst {
    pub pending_text: String,
    pub last_event_at: Option<u64>,
    pub plain_char_count: usize,
    pub suppress_enter_until: Option<u64>,
}

/// `now - last`, or zero when `last` is later (`saturating_duration_since`).
pub open spec fn since(now: u64, last: u64) -> int {
    if now >= last {
        now - last
    } else {
        0
    }
}

/// `t + d`, or `None` past the clock's range (`checked_add`).
pub open spec fn later(t: u64, d: u64) -> Option<u64> {
    if t + d <= u64::MAX {
        Some((t + d) as u64)
    } else {
        None
    }
}

fn checked_later(t: u64, d: u64) -> (r: Option<u64>)
    ensures
        r == later(t, d),
{
    t.checked_add(d)
}

pub open spec fn within_gap(last: Option<u64>, now: u64) -> bool {
    match last {
        Some(l) => since(now, l) <= PASTE_BURST_GAP,
        None => false,
    }
}

pub open spec fn suppressing(until: Option<u64>, now: u64) -> bool {
    match until {
        Some(d) => now <= d,
        None => false,
    }
}

impl PasteBurst {
    /// A burst with nothing pending.
    pub fn new() -> (b: Self)
        ensures
            b.pending_text@ == Seq::<char>::empty(),
            b.last_event_at is None,
            b.plain_char_count == 0,
            b.suppress_enter_until is None,
    {
        PasteBurst {
            pending_text: String::new(),
            last_event_at: None,
            plain_char_count: 0,
            suppress_enter_until: None,
        }
    }

    pub fn has_pending(&self) -> (b: bool)
        ensures
            b == (self.pending_text@.len() > 0),
    {
        !self.pending_text.as_str().is_empty()
    }

    /// Whether a key at `now` may still join the pending burst.
    pub fn can_continue(&self, now: u64) -> (b: bool)
        ensures
            b == (self.pending_text@.len() == 0 || within_gap(self.last_event_at, now)),
    {
        if !self.has_pending() {
            return true;
        }
        match self.last_event_at {
            Some(last) => now.saturating_sub(last) <= PASTE_BURST_GAP,
            None => false,
        }
    }

    /// Adds a typed character to the burst.
    pub fn push_plain_char(&mut self, ch: char, now: u64)
        ensures
            final(self).pending_text@ == (if old(self).pending_text@.len() == 0 {
                seq![ch]
            } else {
                old(self).pending_text@.push(ch)
            }),
            final(self).last_event_at == Some(now),
            final(self).plain_char_count == (if old(self).pending_text@.len() == 0 {
                1
            } else if old(self).plain_char_count == usize::MAX {
                usize::MAX as int
            } else {
                old(self).plain_char_count + 1
            }),
            final(self).suppress_enter_until == (if final(self).plain_char_count
                >= PASTE_BURST_MIN_CHARS {
                later(now, PASTE_ENTER_SUPPRESSION)
            } else if old(self).pending_text@.len() == 0 {
                None
            } else {
                old(self).suppress_enter_until
            }),
    {
        if !self.has_pending() {
            self.plain_char_count = 0;
            self.suppress_enter_until = None;
        }
        self.pending_text.push(ch);
        self.last_event_at = Some(now);
        self.plain_char_count = self.plain_char_count.saturating_add(1);
        if self.plain_char_count >= PASTE_BURST_MIN_CHARS {
            self.suppress_enter_until = checked_later(now, PASTE_ENTER_SUPPRESSION);
        }
    }

    /// Decides what an Enter at `now` means: part of a paste (buffered as a
    /// line break, or inserted as one when the paste text was already
    /// flushed) or an ordinary Enter.
    pub fn push_enter_if_paste(&mut self, now: u64) -> (r: PasteBurstEnter)
        ensures
            ({
                let follows_burst = within_gap(old(self).last_event_at, now)
                    && old(self).plain_char_count >= PASTE_BURST_MIN_CHARS;
                let follows_text = suppressing(old(self).suppress_enter_until, now);
                if !follows_burst && !follows_text {
                    &&& r == PasteBurstEnter::NotPaste
                    &&& *final(self) == *old(self)
                } else {
                    &&& final(self).suppress_enter_until == later(now, PASTE_ENTER_SUPPRESSION)
                    &&& final(self).plain_char_count == old(self).plain_char_count
                    &&& if old(self).pending_text@.len() > 0 {
                        &&& r == PasteBurstEnter::Buffered
                        &&& final(self).pending_text@ == old(self).pending_text@.push('\n')
                        &&& final(self).last_event_at == Some(now)
                    } else {
                        &&& r == PasteBurstEnter::InsertNewline
                        &&& final(self).pending_text@ == old(self).pending_text@
                        &&& final(self).last_event_at == old(self).last_event_at
                    }
                }
            }),
    {
        let follows_pending_burst = match self.last_event_at {
            Some(last) => now.saturating_sub(last) <= PASTE_BURST_GAP,
            None => false,
        } && self.plain_char_count >= PASTE_BURST_MIN_CHARS;
        let follows_plain_text_burst = self.suppresses_enter_at(now);
        if !follows_pending_burst && !follows_plain_text_burst {
            return PasteBurstEnter::NotPaste;
        }
        self.suppress_enter_until = checked_later(now, PASTE_ENTER_SUPPRESSION);
        if self.has_pending() {
            self.pending_text.push('\n');
            self.last_event_at = Some(now);
            PasteBurstEnter::Buffered
        } else {
            PasteBurstEnter::InsertNewline
        }
    }

    /// Whether the pending burst has waited long enough to be flushed.
    pub fn is_due(&self, now: u64) -> (b: bool)
        ensures
            b == (match self.deadline_spec() {
                Some(d) => now >= d,
                None => false,
            }),
    {
        match self.deadline() {
            Some(deadline) => now >= deadline,
            None => false,
        }
    }

    /// How long the event loop may wait: until the burst is due, but no
    /// longer than `idle_timeout`.
    pub fn poll_timeout(&self, now: u64, idle_timeout: u64) -> (t: u64)
        ensures
            t == (match self.deadline_spec() {
                Some(d) => {
                    let left = if d >= now {
                        d - now
                    } else {
                        0
                    };
                    if left <= idle_timeout {
                        left
                    } else {
                        idle_timeout as int
                    }
                },
                None => idle_timeout as int,
            }),
    {
        let deadline = match self.deadline() {
            Some(d) => d,
            None => return idle_timeout,
        };
        let left = if deadline >= now {
            deadline - now
        } else {
            0
        };
        if left <= idle_timeout {
            left
        } else {
            idle_timeout
        }
    }

    pub open spec fn deadline_spec(&self) -> Option<u64> {
        match self.last_event_at {
            Some(last) => later(last, PASTE_BURST_GAP),
            None => None,
        }
    }

    /// When the pending burst is due: one gap after the last event.
    pub fn deadline(&self) -> (d: Option<u64>)
        ensures
            d == self.deadline_spec(),
    {
        match self.last_event_at {
            Some(last) => checked_later(last, PASTE_BURST_GAP),
            None => None,
        }
    }

    /// Hands out the pending text (if any) and starts a new burst; a
    /// running Enter suppression survives.
    pub fn take_pending(&mut self) -> (r: Option<String>)
        ensures
            r matches Some(t) ==> t@ == old(self).pending_text@ && t@.len() > 0,
            r is None <==> old(self).pending_text@.len() == 0,
            final(self).pending_text@ == Seq::<char>::empty(),
            final(self).last_event_at is None,
            final(self).plain_char_count == 0,
            final(self).suppress_enter_until == old(self).suppress_enter_until,
    {
        if self.pending_text.as_str().is_empty() {
            self.clear_pending_text();
            return None;
        }
        let mut text = String::new();
        std::mem::swap(&mut text, &mut self.pending_text);
        self.clear_pending_text();
        Some(text)
    }

    /// Forgets the burst, the Enter suppression included.
    pub fn clear(&mut self)
        ensures
            final(self).pending_text@ == Seq::<char>::empty(),
            final(self).last_event_at is None,
            final(self).plain_char_count == 0,
            final(self).suppress_enter_until is None,
    {
        self.pending_text = String::new();
        self.last_event_at = None;
        self.plain_char_count = 0;
        self.suppress_enter_until = None;
    }

    pub fn clear_pending_text(&mut self)
        ensures
            final(self).pending_text@ == Seq::<char>::empty(),
            final(self).last_event_at is None,
            final(self).plain_char_count == 0,
            final(self).suppress_enter_until == old(self).suppress_enter_until,
    {
        self.pending_text = String::new();
        self.last_event_at = None;
        self.plain_char_count = 0;
    }

    pub fn suppresses_enter_at(&self, now: u64) -> (b: bool)
        ensures
            b == suppressing(self.suppress_enter_until, now),
    {
        match self.suppress_enter_until {
            Some(deadline) => now <= deadline,
            None => false,
        }
    }
}

/// A burst of one character never swallows the Enter that follows it: the
/// Enter is an ordinary key unless an earlier burst's suppression is still
/// running.
pub proof fn lemma_single_char_enter_is_not_paste(b: PasteBurst, ch: char, now: u64, later_now: u64)
    requires
        b.pending_text@.len() == 0,
        b.suppress_enter_until is None,
    ensures
        ({
            let after = PasteBurst {
                pending_text: b.pending_text,
                last_event_at: Some(now),
                plain_char_count: 1,
                suppress_enter_until: None,
            };
            !(within_gap(after.last_event_at, later_now) && after.plain_char_count
                >= PASTE_BURST_MIN_CHARS) && !suppressing(after.suppress_enter_until, later_now)
        }),
{
}

} // verus!

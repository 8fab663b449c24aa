use rho_tui::paste_burst::{PasteBurst, PasteBurstEnter, PASTE_BURST_GAP};

const START: u64 = 5_000_000_000;
const MILLI: u64 = 1_000_000;

#[test]
fn single_char_enter_is_not_buffered_as_paste() {
    let start = START;
    let mut burst = PasteBurst::new();

    burst.push_plain_char('y', start);

    assert_eq!(
        burst.push_enter_if_paste(start + MILLI),
        PasteBurstEnter::NotPaste
    );
    assert_eq!(burst.take_pending().as_deref(), Some("y"));
}

#[test]
fn enter_after_idle_gap_is_not_part_of_paste() {
    let start = START;
    let mut burst = PasteBurst::new();

    burst.push_plain_char('a', start);

    assert_eq!(
        burst.push_enter_if_paste(start + PASTE_BURST_GAP + MILLI),
        PasteBurstEnter::NotPaste
    );
    assert_eq!(burst.take_pending().as_deref(), Some("a"));
}

#[test]
fn rapid_plain_text_burst_extends_enter_suppression() {
    let start = START;
    let mut burst = PasteBurst::new();

    burst.push_plain_char('a', start);
    burst.push_plain_char('b', start + MILLI);

    assert_eq!(
        burst.push_enter_if_paste(start + 50 * MILLI),
        PasteBurstEnter::Buffered
    );
    assert_eq!(burst.take_pending().as_deref(), Some("ab\n"));
}

#[test]
fn enter_suppression_survives_literal_flush() {
    let start = START;
    let mut burst = PasteBurst::new();

    burst.push_plain_char('a', start);
    burst.push_plain_char('b', start + MILLI);
    assert_eq!(burst.take_pending().as_deref(), Some("ab"));

    assert_eq!(
        burst.push_enter_if_paste(start + 50 * MILLI),
        PasteBurstEnter::InsertNewline
    );
}

#[test]
fn taking_pending_text_empties_the_burst() {
    let mut burst = PasteBurst::new();
    assert!(!burst.has_pending());
    burst.push_plain_char('x', START);
    assert!(burst.has_pending());
    assert_eq!(burst.take_pending().as_deref(), Some("x"));
    assert!(!burst.has_pending());
    assert_eq!(burst.take_pending(), None);
}

use rho_tui::mouse_capture::{
    windows_mouse_input_mode, ENABLE_EXTENDED_FLAGS, ENABLE_MOUSE_INPUT, ENABLE_QUICK_EDIT_MODE, ENABLE_WINDOW_INPUT,
};

/// The console's processed-input flag, which the mouse mode leaves alone.
const ENABLE_PROCESSED_INPUT: u32 = 0x0001;

#[test]
fn enables_mouse_input_and_clears_quick_edit() {
    let current = ENABLE_QUICK_EDIT_MODE | ENABLE_PROCESSED_INPUT;
    let mode = windows_mouse_input_mode(current);

    assert_eq!(
        mode,
        ENABLE_PROCESSED_INPUT | ENABLE_MOUSE_INPUT | ENABLE_WINDOW_INPUT | ENABLE_EXTENDED_FLAGS
    );
}

#[test]
fn is_idempotent_when_already_configured() {
    let configured = ENABLE_MOUSE_INPUT | ENABLE_WINDOW_INPUT | ENABLE_EXTENDED_FLAGS;
    assert_eq!(windows_mouse_input_mode(configured), configured);
}

#[test]
fn mouse_mode_is_idempotent_for_any_start() {
    for current in [0u32, 0x0040, 0x01ff, 0xffff_ffff, 0x1234_5678] {
        let once = windows_mouse_input_mode(current);
        assert_eq!(windows_mouse_input_mode(once), once);
        assert_eq!(once & ENABLE_QUICK_EDIT_MODE, 0);
    }
}

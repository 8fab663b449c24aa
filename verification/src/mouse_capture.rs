//! Console mode bits for mouse reporting on Windows consoles.
use vstd::prelude::*;

verus! {

pub const ENABLE_MOUSE_INPUT: u32 = 0x0010;
pub const ENABLE_WINDOW_INPUT: u32 = 0x0008;
pub const ENABLE_EXTENDED_FLAGS: u32 = 0x0080;
pub const ENABLE_QUICK_EDIT_MODE: u32 = 0x0040;

pub open spec fn mouse_mode(current: u32) -> u32 {
    (current | 0x0010u32 | 0x0008u32 | 0x0080u32) & !0x0040u32
}

/// The console mode that delivers mouse input to the application: mouse,
/// window and extended-flag bits set, Quick Edit cleared.
pub fn windows_mouse_input_mode(current: u32) -> (mode: u32)
    ensures
        mode == mouse_mode(current),
{
    (current | ENABLE_MOUSE_INPUT | ENABLE_WINDOW_INPUT | ENABLE_EXTENDED_FLAGS)
        & !ENABLE_QUICK_EDIT_MODE
}

/// Configuring is idempotent, sets the mouse bits, clears Quick Edit and
/// leaves every other bit as it was.
pub proof fn lemma_mouse_mode(current: u32)
    ensures
        mouse_mode(mouse_mode(current)) == mouse_mode(current),
        mouse_mode(current) & 0x0010u32 == 0x0010u32,
        mouse_mode(current) & 0x0008u32 == 0x0008u32,
        mouse_mode(current) & 0x0080u32 == 0x0080u32,
        mouse_mode(current) & 0x0040u32 == 0,
        mouse_mode(current) & !0x00d8u32 == current & !0x00d8u32,
{
    assert((((current | 0x0010u32 | 0x0008u32 | 0x0080u32) & !0x0040u32) | 0x0010u32 | 0x0008u32
        | 0x0080u32) & !0x0040u32 == (current | 0x0010u32 | 0x0008u32 | 0x0080u32) & !0x0040u32)
        by (bit_vector);
    assert(((current | 0x0010u32 | 0x0008u32 | 0x0080u32) & !0x0040u32) & 0x0010u32 == 0x0010u32)
        by (bit_vector);
    assert(((current | 0x0010u32 | 0x0008u32 | 0x0080u32) & !0x0040u32) & 0x0008u32 == 0x0008u32)
        by (bit_vector);
    assert(((current | 0x0010u32 | 0x0008u32 | 0x0080u32) & !0x0040u32) & 0x0080u32 == 0x0080u32)
        by (bit_vector);
    assert(((current | 0x0010u32 | 0x0008u32 | 0x0080u32) & !0x0040u32) & 0x0040u32 == 0)
        by (bit_vector);
    assert(((current | 0x0010u32 | 0x0008u32 | 0x0080u32) & !0x0040u32) & !0x00d8u32 == current
        & !0x00d8u32) by (bit_vector);
}

} // verus!

//! Usage ids of the HID keyboard page that the pipeline itself refers to.
//!
//! A keycode is the one-byte usage id that a report carries; any `u8` is
//! accepted as one.

use vstd::prelude::*;

verus! {

/// "No event indicated": the sentinel for an empty slot and for a line that
/// produces no key.
pub const NO_EVENT: u8 = 0x00;

/// Keyboard `a` and `A`.
pub const KEY_A: u8 = 0x04;

/// Keyboard `b` and `B`.
pub const KEY_B: u8 = 0x05;

/// Keyboard `c` and `C`.
pub const KEY_C: u8 = 0x06;

} // verus!

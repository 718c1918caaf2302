//! Key values of the keys that the reader's commands use, as the toolkit numbers them
//! (X11 keysyms: printable ASCII keys have their character code).
use vstd::prelude::*;

verus! {

pub const KEY_0: u32 = 0x030;
pub const KEY_9: u32 = 0x039;
pub const KEY_KP_0: u32 = 0xffb0;
pub const KEY_KP_9: u32 = 0xffb9;
pub const KEY_DOLLAR: u32 = 0x024;
pub const KEY_ESCAPE: u32 = 0xff1b;
pub const KEY_TAB: u32 = 0xff09;
pub const KEY_RETURN: u32 = 0xff0d;
pub const KEY_LEFT: u32 = 0xff51;
pub const KEY_UP: u32 = 0xff52;
pub const KEY_RIGHT: u32 = 0xff53;
pub const KEY_DOWN: u32 = 0xff54;
pub const KEY_PLUS: u32 = 0x02b;
pub const KEY_MINUS: u32 = 0x02d;
pub const KEY_EQUAL: u32 = 0x03d;
pub const KEY_BRACKET_LEFT: u32 = 0x05b;
pub const KEY_BRACKET_RIGHT: u32 = 0x05d;
pub const KEY_UPPER_F: u32 = 0x046;
pub const KEY_UPPER_G: u32 = 0x047;
pub const KEY_A: u32 = 0x061;
pub const KEY_B: u32 = 0x062;
pub const KEY_D: u32 = 0x064;
pub const KEY_E: u32 = 0x065;
pub const KEY_F: u32 = 0x066;
pub const KEY_G: u32 = 0x067;
pub const KEY_H: u32 = 0x068;
pub const KEY_J: u32 = 0x06a;
pub const KEY_K: u32 = 0x06b;
pub const KEY_L: u32 = 0x06c;
pub const KEY_O: u32 = 0x06f;
pub const KEY_P: u32 = 0x070;
pub const KEY_S: u32 = 0x073;
pub const KEY_U: u32 = 0x075;
pub const KEY_V: u32 = 0x076;
pub const KEY_Y: u32 = 0x079;

/// The bit of the control key in a modifier mask.
pub const CONTROL_MASK: u32 = 4;

} // verus!

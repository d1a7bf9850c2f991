//! Bit masks and device selectors shared by the whole machine.

use vstd::prelude::*;

verus! {

/// The low 12 bits: every address-like and accumulator-like quantity is
/// masked with this after arithmetic.
pub const MASK_12BIT: u16 = 0b0000_111_111_111_111;

/// The page bits (bits 7..=11) of a 12-bit address.
pub const MASK_CURRENT_PAGE: u16 = 0b0000_111_110_000_000;

/// The opcode-family bits (bits 9..=11) of an instruction word.
pub const MASK_MSDIGIT: u16 = 0b0000_111_000_000_000;

/// Device slot of the keyboard.
pub const KEYBOARD_SELECTOR: u8 = 0o03;

/// Device slot of the teleprinter.
pub const TTY_SELECTOR: u8 = 0o04;

} // verus!

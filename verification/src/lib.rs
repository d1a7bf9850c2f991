//! Emulator for the 8-mode instruction set of a 12-bit minicomputer:
//! a versioned memory store with time travel, an instruction
//! decode/execute engine, a peripheral-device registry, and a machine
//! controller that drives fetch-execute and history navigation.

pub mod assembler;
pub mod consts;
pub mod devices;
pub mod eight_mode;
pub mod emulate;
pub mod memory;

pub use assembler::assemble;
pub use consts::{KEYBOARD_SELECTOR, MASK_12BIT, MASK_CURRENT_PAGE, MASK_MSDIGIT, TTY_SELECTOR};
pub use emulate::PDP12;
pub use memory::Memory;

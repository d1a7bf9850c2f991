//! Instruction-level scenarios: arithmetic carry, increment-and-skip,
//! indirect jumps, operate instructions, and I/O dispatch edge cases.

use pdp12_emulator::devices::{Device, Devices};
use pdp12_emulator::emulate::{step, State};
use pdp12_emulator::Memory;

fn running_at(pc: u16) -> State {
    State {
        pc,
        running: true,
        ..Default::default()
    }
}

/// All-ones accumulator plus a memory value of one carries out: the
/// accumulator wraps to zero and the link is set.
#[test]
fn tad_carry_out() {
    let mut mem = Memory::default();
    mem.write(0o10, 1);
    mem.write(0o200, 0o1010); // TAD 10 (page zero)
    let mut state = running_at(0o200);
    state.acc = 0o7777;
    assert!(!state.link);
    state = step(state, &mut mem, &mut Devices::default());
    assert_eq!(state.acc, 0);
    assert!(state.link);
}

/// Incrementing a cell holding all ones wraps it to zero and skips: the
/// program counter advances by two in total for the instruction.
#[test]
fn isz_wraps_and_skips() {
    let mut mem = Memory::default();
    mem.write(0o10, 0o7777);
    mem.write(0o200, 0o2010); // ISZ 10 (page zero)
    let mut state = running_at(0o200);
    state = step(state, &mut mem, &mut Devices::default());
    assert_eq!(mem.read(0o10), 0);
    assert_eq!(state.pc, 0o202);
}

/// Incrementing any other value does not skip.
#[test]
fn isz_no_skip() {
    let mut mem = Memory::default();
    mem.write(0o10, 5);
    mem.write(0o200, 0o2010); // ISZ 10
    let mut state = running_at(0o200);
    state = step(state, &mut mem, &mut Devices::default());
    assert_eq!(mem.read(0o10), 6);
    assert_eq!(state.pc, 0o201);
}

/// An indirect jump through a pointer cell holding zero lands at zero.
#[test]
fn indirect_jmp_through_zero() {
    let mut mem = Memory::default();
    mem.write(0o350, 0);
    // JMP I 350: indirect flag, current page (of pc 0o200), offset 0o150
    mem.write(0o200, 0o5000 | 0o400 | 0o200 | 0o150);
    let mut state = running_at(0o200);
    state = step(state, &mut mem, &mut Devices::default());
    assert_eq!(state.pc, 0);
}

/// A deposit stores the accumulator and clears it.
#[test]
fn dca_deposits_and_clears() {
    let mut mem = Memory::default();
    mem.write(0o200, 0o3010); // DCA 10
    let mut state = running_at(0o200);
    state.acc = 0o1234;
    state = step(state, &mut mem, &mut Devices::default());
    assert_eq!(mem.read(0o10), 0o1234);
    assert_eq!(state.acc, 0);
}

/// A subroutine jump stores the return address and continues past it.
#[test]
fn jms_stores_return_address() {
    let mut mem = Memory::default();
    mem.write(0o200, 0o4000 | 0o200 | 0o150); // JMS 350, current page
    let mut state = running_at(0o200);
    state = step(state, &mut mem, &mut Devices::default());
    assert_eq!(mem.read(0o350), 0o201);
    assert_eq!(state.pc, 0o351);
}

/// An I/O-transfer instruction whose selector slot is empty leaves
/// accumulator, link, and program counter (beyond the fetch advance)
/// unchanged.
#[test]
fn iot_empty_slot_is_noop() {
    let mut mem = Memory::default();
    mem.write(0o200, 0o6031); // IOT selector 3, but no device installed
    let mut state = running_at(0o200);
    state.acc = 0o1234;
    state.link = true;
    state = step(state, &mut mem, &mut Devices::default());
    assert_eq!(state.acc, 0o1234);
    assert!(state.link);
    assert_eq!(state.pc, 0o201);
}

/// Group 1: complement then increment forms the two's complement.
#[test]
fn group1_cma_iac() {
    let mut mem = Memory::default();
    mem.write(0o200, 0o7041); // CMA + IAC
    let mut state = running_at(0o200);
    state.acc = 1;
    state = step(state, &mut mem, &mut Devices::default());
    assert_eq!(state.acc, 0o7777);
}

/// Group 1: rotate right moves bit 0 into the link and the link into
/// bit 11.
#[test]
fn group1_rotate_right() {
    let mut mem = Memory::default();
    mem.write(0o200, 0o7010); // RAR
    let mut state = running_at(0o200);
    state.acc = 1;
    state.link = true;
    state = step(state, &mut mem, &mut Devices::default());
    assert_eq!(state.acc, 0o4000);
    assert!(state.link);
}

/// Group 1: rotate left is the mirror image.
#[test]
fn group1_rotate_left() {
    let mut mem = Memory::default();
    mem.write(0o200, 0o7004); // RAL
    let mut state = running_at(0o200);
    state.acc = 0o4000;
    state.link = false;
    state = step(state, &mut mem, &mut Devices::default());
    assert_eq!(state.acc, 0);
    assert!(state.link);
}

/// Group 2: skip on minus accumulator fires on a set sign bit.
#[test]
fn group2_sma_skips() {
    let mut mem = Memory::default();
    mem.write(0o200, 0o7500); // SMA
    let mut state = running_at(0o200);
    state.acc = 0o4000;
    state = step(state, &mut mem, &mut Devices::default());
    assert_eq!(state.pc, 0o202);
}

/// Group 2: halt clears the running flag.
#[test]
fn group2_hlt_stops() {
    let mut mem = Memory::default();
    mem.write(0o200, 0o7402); // HLT
    let mut state = running_at(0o200);
    state = step(state, &mut mem, &mut Devices::default());
    assert!(!state.running);
}

/// The program counter wraps to zero after the last address: fetching at
/// the top of memory masks the advance to 12 bits.
#[test]
fn pc_wraps_after_top_of_memory() {
    let mut mem = Memory::default();
    let mut state = running_at(0o7777);
    state = step(state, &mut mem, &mut Devices::default());
    assert_eq!(state.pc, 0);
}

/// Masking: every register and touched cell stays inside 12 bits across
/// an overflowing add and a wrapped increment.
#[test]
fn masking_invariant_examples() {
    let mut mem = Memory::default();
    mem.write(0o10, 0o7777);
    mem.write(0o200, 0o1010); // TAD 10
    mem.write(0o201, 0o2010); // ISZ 10
    let mut state = running_at(0o200);
    state.acc = 0o7777;
    state = step(state, &mut mem, &mut Devices::default());
    state = step(state, &mut mem, &mut Devices::default());
    assert!(state.acc < 4096);
    assert!(state.pc < 4096);
    assert!(mem.read(0o10) < 4096);
}

/// Writes mask both the address and the value to 12 bits.
#[test]
fn memory_masks_address_and_value() {
    let mut mem = Memory::default();
    mem.write(0o10010, 0o17777);
    assert_eq!(mem.read(0o10), 0o7777);
}

/// The keyboard transfer reads the key but clears the pending flag; the
/// key itself is retained by the device.
#[test]
fn keyboard_transfer_clears_ready_keeps_key() {
    let mut kb = pdp12_emulator::devices::Keyboard::new();
    kb.set_key(0o301);
    assert!(kb.ready);
    let state = kb.iot(0o6034, running_at(0o201));
    assert_eq!(state.acc, 0o301);
    assert!(!kb.ready);
    assert_eq!(kb.tti, 0o301);
}

/// The teleprinter transfer loads the print buffer; draining it hands
/// the character out once and marks the printer free.
#[test]
fn tty_transfer_and_drain() {
    let mut tty = pdp12_emulator::devices::Tty::new();
    let mut state = running_at(0o201);
    state.acc = 0o123;
    tty.iot(0o6046, state);
    assert_eq!(tty.get_key(), Some(0o123));
    assert!(tty.ready);
    assert_eq!(tty.get_key(), None);
}

/// Registry slots can be inspected directly.
#[test]
fn registry_slots_hold_devices_by_selector() {
    let devices = Devices::new_with_asr33();
    assert!(matches!(
        devices.get(pdp12_emulator::KEYBOARD_SELECTOR),
        Some(Device::Keyboard(_))
    ));
    assert!(matches!(
        devices.get(pdp12_emulator::TTY_SELECTOR),
        Some(Device::Tty(_))
    ));
    assert!(devices.get(0o10).is_none());
}

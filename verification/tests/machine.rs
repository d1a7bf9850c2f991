//! Controller scenarios: stepping, history round trips, log position
//! stability, tip-only mutation, device registration and typed access,
//! and the golden end-to-end program.

use pdp12_emulator::devices::{Device, DeviceError, DeviceOp, DeviceReply, Keyboard, Tty};
use pdp12_emulator::emulate::{State, PDP12};
use pdp12_emulator::{assemble, Memory, KEYBOARD_SELECTOR, TTY_SELECTOR};

fn machine_with(code: Vec<u16>, pc: u16) -> PDP12 {
    let state = State {
        pc,
        running: true,
        ..Default::default()
    };
    PDP12::new(state, Memory::with_code(code))
}

fn image(words: &[(usize, u16)]) -> Vec<u16> {
    let mut code = vec![0u16; 4096];
    for &(addr, word) in words {
        code[addr] = word;
    }
    code
}

/// Stepping forward n times and back n times returns the register state
/// and the full memory image to their values before the first step, over
/// instructions that write memory.
#[test]
fn round_trip_restores_state_and_memory() {
    // Three deposits in a row; every step writes exactly one cell.
    let code = image(&[(0o200, 0o3010), (0o201, 0o3011), (0o202, 0o3012), (0o203, 0o3013)]);
    let mut machine = machine_with(code, 0o200);
    machine.step(); // reach the first real history entry
    let (state_before, mem_before) = machine.get_state();
    let image_before = mem_before.dump().clone();

    for _ in 0..3 {
        machine.step();
    }
    for _ in 0..3 {
        machine.step_back();
    }

    let (state_after, mem_after) = machine.get_state();
    assert_eq!(state_after, state_before);
    assert_eq!(mem_after.dump(), &image_before);
}

/// A memory position captured at one history entry reconstructs the same
/// image after undo and redo traffic: undoing then redoing a deposit
/// brings the live array back to the captured contents.
#[test]
fn log_position_stable_under_undo_redo() {
    let code = image(&[(0o200, 0o3010), (0o201, 0o3011), (0o202, 0o3012)]);
    let mut machine = machine_with(code, 0o200);
    machine.step();
    machine.step(); // the deposit at 0o201 has happened
    let captured = machine.get_state().1.dump().clone();

    machine.step_back();
    machine.step(); // redo restores the forward memory effect
    assert_eq!(machine.get_state().1.dump(), &captured);

    machine.step_back();
    machine.step_back();
    machine.step();
    machine.step();
    assert_eq!(machine.get_state().1.dump(), &captured);
}

/// After one step back, mutation fails and changes nothing; after
/// stepping forward to the tip again, the same mutation succeeds.
#[test]
fn mutation_only_at_the_tip() {
    let code = image(&[(0o200, 0o3010), (0o201, 0o3011), (0o202, 0o3012)]);
    let mut machine = machine_with(code, 0o200);
    machine.step();
    machine.step();
    machine.step_back();

    let before = machine.get_state().0;
    let result = machine.change_state(|mut state, mut memory, devices| {
        state.lsw = 0o123;
        memory.write(0o20, 0o55);
        (state, memory, devices)
    });
    assert_eq!(result, Err(()));
    assert_eq!(machine.get_state().0, before);
    assert_eq!(machine.get_state().1.read(0o20), 0);

    machine.step();
    let result = machine.change_state(|mut state, mut memory, devices| {
        state.lsw = 0o123;
        memory.write(0o20, 0o55);
        (state, memory, devices)
    });
    assert_eq!(result, Ok(()));
    assert_eq!(machine.get_state().0.lsw, 0o123);
    assert_eq!(machine.get_state().1.read(0o20), 0o55);
}

/// Stepping back at the first real entry or the seed is a no-op.
#[test]
fn step_back_stops_at_first_entry() {
    let code = image(&[(0o200, 0o3010), (0o201, 0o3011)]);
    let mut machine = machine_with(code, 0o200);
    machine.step();
    let at_first = machine.get_state().0;
    machine.step_back();
    assert_eq!(machine.get_state().0, at_first);
}

/// Pushing one key to the keyboard and executing its transfer
/// instruction reads the key into the accumulator; a second transfer
/// without a new key retains the value with the pending flag cleared.
#[test]
fn device_round_trip() {
    let code = image(&[(0o200, 0o6034), (0o201, 0o6034)]); // KRS twice
    let mut machine = PDP12::default();
    let _ = machine.change_state(|mut state, mut memory, devices| {
        for (addr, word) in [(0o200u16, code[0o200]), (0o201, code[0o201])] {
            memory.write(addr, word);
        }
        state.pc = 0o200;
        state.running = true;
        (state, memory, devices)
    });
    machine
        .operate_device(KEYBOARD_SELECTOR, DeviceOp::SetKey(0o277))
        .unwrap();
    machine.step();
    assert_eq!(machine.get_state().0.acc, 0o277);
    machine.step();
    assert_eq!(machine.get_state().0.acc, 0o277);
}

/// The keyboard skip-test only fires while a key is pending.
#[test]
fn keyboard_skip_needs_pending_key() {
    let code = image(&[(0o200, 0o6031), (0o201, 0o6031)]); // KSF twice
    let mut machine = PDP12::default();
    let _ = machine.change_state(|mut state, mut memory, devices| {
        memory.write(0o200, 0o6031);
        memory.write(0o201, 0o6031);
        state.pc = 0o200;
        state.running = true;
        (state, memory, devices)
    });
    machine.step();
    assert_eq!(machine.get_state().0.pc, 0o201); // no key: no skip
    machine
        .operate_device(KEYBOARD_SELECTOR, DeviceOp::SetKey(1))
        .unwrap();
    machine.step();
    assert_eq!(machine.get_state().0.pc, 0o203); // key pending: skip
}

/// A vacant slot and a device of the wrong kind are distinct errors, and
/// a rejected operation changes nothing.
#[test]
fn typed_device_access_errors() {
    let mut machine = PDP12::default();
    assert_eq!(
        machine.operate_device(0o10, DeviceOp::SetKey(1)),
        Err(DeviceError::NoDevice)
    );
    assert_eq!(
        machine.operate_device(TTY_SELECTOR, DeviceOp::SetKey(1)),
        Err(DeviceError::WrongKind)
    );
    assert_eq!(
        machine.operate_device(KEYBOARD_SELECTOR, DeviceOp::GetKey),
        Err(DeviceError::WrongKind)
    );
    assert_eq!(
        machine.operate_device(TTY_SELECTOR, DeviceOp::GetKey),
        Ok(DeviceReply::Key(None))
    );
}

/// Registering a device installs it in the slot its selector names,
/// replacing any prior occupant.
#[test]
fn register_device_replaces_slot() {
    let state = State {
        running: true,
        ..Default::default()
    };
    let mut machine = PDP12::new(state, Memory::default());
    assert_eq!(
        machine.operate_device(KEYBOARD_SELECTOR, DeviceOp::SetKey(1)),
        Err(DeviceError::NoDevice)
    );
    machine.register_device(Device::Keyboard(Keyboard::new()));
    machine.register_device(Device::Tty(Tty::new()));
    assert_eq!(
        machine.operate_device(KEYBOARD_SELECTOR, DeviceOp::SetKey(1)),
        Ok(DeviceReply::Done)
    );
    machine.register_device(Device::Keyboard(Keyboard::new()));
    assert_eq!(
        machine.operate_device(TTY_SELECTOR, DeviceOp::GetKey),
        Ok(DeviceReply::Key(None))
    );
}

/// The golden regression program: a subroutine computing AND and TAD over
/// two data words, an indirect return, a deposit, and a halt.
#[test]
fn end_to_end_program() {
    let code = assemble(
        ".address 0
.data 5252
.data 6314
.address 200
JMS 350
DCA 2
HLT
.address 350
.data 0000
TAD 0
AND 1
JMP I 350",
    );
    let mut machine = machine_with(code, 0o200);
    for _ in 0..64 {
        if !machine.get_state().0.running {
            break;
        }
        machine.step();
    }
    let (state, memory) = machine.get_state();
    assert!(!state.running);
    assert_eq!(state.acc, 0);
    assert_eq!(state.pc, 0o203);
    assert_eq!(memory.read(2), 0o4210);
    assert_eq!(memory.read(0o350), 0o201);
}

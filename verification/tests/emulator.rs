//! The original console scenarios: assembling and running a program, and
//! driving the teleprinter and keyboard through I/O-transfer
//! instructions.

use pdp12_emulator::devices::{DeviceOp, DeviceReply, Devices};
use pdp12_emulator::emulate::{step, State};
use pdp12_emulator::{assemble, Memory, KEYBOARD_SELECTOR, TTY_SELECTOR};

#[test]
fn can_assemble() {
    let code = assemble(
        ".address 0
.data 5252
.data 6314
.address 200
JMS 350
DCA 2
HLT
.address 350
.data 0000
TAD 0
AND 1
JMP I 350",
    );

    let mut mem = Memory::with_code(code);
    let mut state = State {
        pc: 0o200,
        ..Default::default()
    };
    let mut devices = Devices::default();
    state.running = true;

    loop {
        state = step(state, &mut mem, &mut devices);
        if !state.running {
            break;
        }
    }
}

#[test]
fn can_print() {
    let mut mem = Memory::default();
    let mut state = State {
        pc: 0o200,
        ..Default::default()
    };
    let mut devices = Devices::new_with_asr33();

    state.rsw = 0o301;
    state.running = true;
    mem.write(0o200, 0o7604); // LAS, load AC with switch register
    mem.write(0o201, 0o6046); // LPC, load print buffer with AC and clear flag

    state = step(state, &mut mem, &mut devices);
    assert!(state.acc == 0o301);

    state = step(state, &mut mem, &mut devices);
    let reply = devices.operate(TTY_SELECTOR, DeviceOp::GetKey);
    assert!(reply == Ok(DeviceReply::Key(Some(0o301))));
}

#[test]
fn can_type() {
    let mut mem = Memory::default();
    let mut state = State {
        pc: 0o200,
        ..Default::default()
    };
    let mut devices = Devices::new_with_asr33();

    devices
        .operate(KEYBOARD_SELECTOR, DeviceOp::SetKey(0o301))
        .unwrap();

    state.running = true;
    mem.write(0o200, 0o6036); // LPC, load print buffer with AC and clear flag

    state = step(state, &mut mem, &mut devices);
    assert_eq!(state.acc, 0o301);
}

//! Peripheral devices and the 64-slot registry the execute engine
//! dispatches I/O-transfer instructions to.
//!
//! The engine only needs the generic device capability (a selector and an
//! `iot` handler); hosts additionally need typed access to one concrete
//! device (feed the keyboard a key, drain the teleprinter).  The closed
//! set of device kinds is a tagged variant, and typed access is rejected
//! with a distinct wrong-kind error rather than a silent no-op.

use vstd::prelude::*;

use crate::consts::{KEYBOARD_SELECTOR, MASK_12BIT, TTY_SELECTOR};
use crate::emulate::State;
use crate::memory::lemma_mask12;

verus! {

/// The keyboard: a host feeds it one key at a time; the machine reads the
/// key with a transfer instruction.
#[derive(Clone, Copy, Debug, PartialEq, Eq, Structural)]
pub struct Keyboard {
    pub tti: u8,
    pub ready: bool,
}

/// The teleprinter: the machine loads its print buffer with a transfer
/// instruction; a host drains the buffer between steps.
#[derive(Clone, Copy, Debug, PartialEq, Eq)]
pub struct Tty {
    pub tto: Option<u8>,
    pub ready: bool,
}

/// One installed peripheral: the closed set of concrete device kinds.
#[derive(Clone, Copy, Debug, PartialEq, Eq)]
pub enum Device {
    Keyboard(Keyboard),
    Tty(Tty),
}

/// The keyboard after handling `instr` in register state `state`: bit 0
/// skips when a key is pending, bit 1 clears the accumulator and the
/// pending flag, bit 2 reads the key into the accumulator.  The bits are
/// applied in that order.
pub open spec fn spec_keyboard_iot(kb: Keyboard, instr: u16, state: State) -> (Keyboard, State) {
    let s1 = if instr & 0b001 > 0 && kb.ready {
        State { pc: (state.pc + 1) as u16 & MASK_12BIT, ..state }
    } else {
        state
    };
    let (k2, s2) = if instr & 0b010 > 0 {
        (Keyboard { ready: false, ..kb }, State { acc: 0, ..s1 })
    } else {
        (kb, s1)
    };
    if instr & 0b100 > 0 {
        (Keyboard { ready: false, ..k2 }, State { acc: k2.tti as u16, ..s2 })
    } else {
        (k2, s2)
    }
}

/// The teleprinter after handling `instr` in register state `state`: bit 0
/// skips when the printed character has been drained, bit 1 clears that
/// flag, bit 2 loads the print buffer from the accumulator.  The bits are
/// applied in that order.
pub open spec fn spec_tty_iot(tty: Tty, instr: u16, state: State) -> (Tty, State) {
    let s1 = if instr & 0b001 > 0 && tty.ready {
        State { pc: (state.pc + 1) as u16 & MASK_12BIT, ..state }
    } else {
        state
    };
    let t2 = if instr & 0b010 > 0 {
        Tty { ready: false, ..tty }
    } else {
        tty
    };
    if instr & 0b100 > 0 {
        (Tty { tto: Some((state.acc as u8)), ..t2 }, s1)
    } else {
        (t2, s1)
    }
}

/// What any installed device does with an I/O-transfer instruction.  Only
/// the low three bits of the instruction word reach the device.
pub open spec fn spec_device_iot(device: Device, instr: u16, state: State) -> (Device, State) {
    match device {
        Device::Keyboard(kb) => {
            let (k2, s2) = spec_keyboard_iot(kb, instr & 0b111, state);
            (Device::Keyboard(k2), s2)
        },
        Device::Tty(tty) => {
            let (t2, s2) = spec_tty_iot(tty, instr & 0b111, state);
            (Device::Tty(t2), s2)
        },
    }
}

/// Handling an I/O-transfer instruction keeps the device's kind (and so
/// its selector) and leaves the registers well formed.
pub proof fn lemma_device_iot_wf(device: Device, instr: u16, state: State)
    requires
        state.wf(),
    ensures
        spec_selector(spec_device_iot(device, instr, state).0) == spec_selector(device),
        spec_device_iot(device, instr, state).1.wf(),
{
    crate::memory::lemma_mask12((state.pc + 1) as u16);
}

/// The slot a device answers to.
pub open spec fn spec_selector(device: Device) -> u8 {
    match device {
        Device::Keyboard(_) => KEYBOARD_SELECTOR,
        Device::Tty(_) => TTY_SELECTOR,
    }
}

impl Keyboard {
    /// A keyboard with no key pending.
    pub fn new() -> (kb: Keyboard)
        ensures
            kb == (Keyboard { tti: 0, ready: false }),
    {
        Keyboard { tti: 0, ready: false }
    }

    /// Feeds one key; a skip-test I/O instruction will now see it pending.
    pub fn set_key(&mut self, key: u8)
        ensures
            *final(self) == (Keyboard { tti: key, ready: true }),
    {
        self.tti = key;
        self.ready = true;
    }

    /// The slot the keyboard answers to.
    pub fn get_selector(&self) -> (selector: u8)
        ensures
            selector == KEYBOARD_SELECTOR,
    {
        KEYBOARD_SELECTOR
    }

    /// Handles an I/O-transfer instruction addressed to the keyboard.
    pub fn iot(&mut self, instr: u16, state: State) -> (new_state: State)
        requires
            state.wf(),
        ensures
            (*final(self), new_state) == spec_keyboard_iot(*old(self), instr & 0b111, state),
            new_state.wf(),
    {
        let instr = instr & 0b0000_000_000_000_111;
        let mut state = state;
        if instr & 0b001 > 0 {
            // KSF
            if self.ready {
                proof {
                    lemma_mask12((state.pc + 1) as u16);
                }
                state.pc = (state.pc + 1) & MASK_12BIT;
            }
        }
        if instr & 0b010 > 0 {
            // KCC
            state.acc = 0;
            self.ready = false;
        }
        if instr & 0b100 > 0 {
            // KRS
            state.acc = self.tti as u16;
            self.ready = false;
        }
        state
    }
}

impl Default for Keyboard {
    /// Same as [`Keyboard::new`].
    fn default() -> (kb: Keyboard)
        ensures
            kb == (Keyboard { tti: 0, ready: false }),
    {
        Keyboard::new()
    }
}

impl Tty {
    /// A teleprinter with an empty print buffer.
    pub fn new() -> (tty: Tty)
        ensures
            tty == (Tty { tto: None, ready: false }),
    {
        Tty { tto: None, ready: false }
    }

    /// Drains the print buffer, leaving the drained flag set so that a
    /// skip-test I/O instruction sees the printer free.
    pub fn get_key(&mut self) -> (key: Option<u8>)
        ensures
            key == old(self).tto,
            *final(self) == (Tty { tto: None, ready: true }),
    {
        self.ready = true;
        self.tto.take()
    }

    /// The slot the teleprinter answers to.
    pub fn get_selector(&self) -> (selector: u8)
        ensures
            selector == TTY_SELECTOR,
    {
        TTY_SELECTOR
    }

    /// Handles an I/O-transfer instruction addressed to the teleprinter.
    pub fn iot(&mut self, instr: u16, state: State) -> (new_state: State)
        requires
            state.wf(),
        ensures
            (*final(self), new_state) == spec_tty_iot(*old(self), instr & 0b111, state),
            new_state.wf(),
    {
        let instr = instr & 0b0000_000_000_000_111;
        let mut state = state;
        if instr & 0b001 > 0 {
            // TSF
            if self.ready {
                proof {
                    lemma_mask12((state.pc + 1) as u16);
                }
                state.pc = (state.pc + 1) & MASK_12BIT;
            }
        }
        if instr & 0b010 > 0 {
            // TCF
            self.ready = false;
        }
        if instr & 0b100 > 0 {
            // TPC
            self.tto = Some(state.acc as u8);
        }
        state
    }
}

impl Default for Tty {
    /// Same as [`Tty::new`].
    fn default() -> (tty: Tty)
        ensures
            tty == (Tty { tto: None, ready: false }),
    {
        Tty::new()
    }
}

impl Device {
    /// The slot this device answers to.
    pub fn get_selector(&self) -> (selector: u8)
        ensures
            selector == spec_selector(*self),
    {
        match self {
            Device::Keyboard(kb) => kb.get_selector(),
            Device::Tty(tty) => tty.get_selector(),
        }
    }

    /// Handles an I/O-transfer instruction addressed to this device.
    pub fn iot(&mut self, instr: u16, state: State) -> (new_state: State)
        requires
            state.wf(),
        ensures
            (*final(self), new_state) == spec_device_iot(*old(self), instr, state),
            new_state.wf(),
    {
        match self {
            Device::Keyboard(kb) => kb.iot(instr, state),
            Device::Tty(tty) => tty.iot(instr, state),
        }
    }
}

/// What a host asks of one installed device between steps.
#[derive(Clone, Copy, Debug, PartialEq, Eq)]
pub enum DeviceOp {
    /// Feed the keyboard one key.
    SetKey(u8),
    /// Drain the teleprinter's print buffer.
    GetKey,
}

/// The answer to a [`DeviceOp`].
#[derive(Clone, Copy, Debug, PartialEq, Eq)]
pub enum DeviceReply {
    /// The key was fed.
    Done,
    /// What the print buffer held, if anything.
    Key(Option<u8>),
}

/// Why a [`DeviceOp`] was rejected; the rejected operation has no effect.
#[derive(Clone, Copy, Debug, PartialEq, Eq)]
pub enum DeviceError {
    /// The selected slot is empty.
    NoDevice,
    /// The selected slot holds a device of another kind.
    WrongKind,
}

/// The registry slots after a host operation, when it succeeds.
pub open spec fn spec_operate(
    slots: Seq<Option<Device>>,
    selector: u8,
    op: DeviceOp,
) -> Seq<Option<Device>> {
    match (slots[selector as int], op) {
        (Some(Device::Keyboard(kb)), DeviceOp::SetKey(key)) => slots.update(
            selector as int,
            Some(Device::Keyboard(Keyboard { tti: key, ready: true })),
        ),
        (Some(Device::Tty(tty)), DeviceOp::GetKey) => slots.update(
            selector as int,
            Some(Device::Tty(Tty { tto: None, ready: true })),
        ),
        _ => slots,
    }
}

/// The reply a successful host operation yields.
pub open spec fn spec_operate_reply(
    slots: Seq<Option<Device>>,
    selector: u8,
    op: DeviceOp,
) -> Option<DeviceReply> {
    match (slots[selector as int], op) {
        (Some(Device::Keyboard(kb)), DeviceOp::SetKey(key)) => Some(DeviceReply::Done),
        (Some(Device::Tty(tty)), DeviceOp::GetKey) => Some(DeviceReply::Key(tty.tto)),
        _ => None,
    }
}

/// The fixed-capacity mapping from 6-bit selector to optional installed
/// device; the registry exclusively owns every installed device.
pub struct Devices {
    slots: Vec<Option<Device>>,
}

impl View for Devices {
    type V = Seq<Option<Device>>;

    closed spec fn view(&self) -> Seq<Option<Device>> {
        self.slots@
    }
}

impl Devices {
    /// Exactly 64 slots, and an installed device sits in the slot its own
    /// selector names.
    pub open spec fn wf(&self) -> bool {
        &&& self@.len() == 64
        &&& forall|i: int|
            0 <= i < 64 && (#[trigger] self@[i]) is Some ==> spec_selector(self@[i]->0) == i
    }

    /// An empty registry: all 64 slots vacant.
    pub fn empty() -> (devices: Devices)
        ensures
            devices.wf(),
            devices@ == Seq::new(64, |i: int| None::<Device>),
    {
        let slots: Vec<Option<Device>> = vec![None; 64];
        proof {
            assert(slots@ =~= Seq::new(64, |i: int| None::<Device>));
        }
        Devices { slots }
    }

    /// A registry with the console terminal installed: keyboard and
    /// teleprinter in their conventional slots.
    pub fn new_with_asr33() -> (devices: Devices)
        ensures
            devices.wf(),
            devices@ == Seq::new(64, |i: int| None::<Device>)
                .update(KEYBOARD_SELECTOR as int, Some(Device::Keyboard(Keyboard { tti: 0, ready: false })))
                .update(TTY_SELECTOR as int, Some(Device::Tty(Tty { tto: None, ready: false }))),
    {
        let mut this = Devices::empty();
        this.install(Device::Keyboard(Keyboard::new()));
        this.install(Device::Tty(Tty::new()));
        this
    }

    /// Installs `device` in the slot its selector names, replacing any
    /// prior occupant.
    pub fn install(&mut self, device: Device)
        requires
            old(self).wf(),
        ensures
            final(self).wf(),
            final(self)@ == old(self)@.update(spec_selector(device) as int, Some(device)),
    {
        let selector = device.get_selector();
        assert(selector < 64) by {
            assert(spec_selector(device) == KEYBOARD_SELECTOR || spec_selector(device)
                == TTY_SELECTOR);
        };
        self.slots[selector as usize] = Some(device);
    }

    /// Read access to one slot.
    pub fn get(&self, selector: u8) -> (slot: &Option<Device>)
        requires
            self.wf(),
            selector < 64,
        ensures
            *slot == self@[selector as int],
    {
        &self.slots[selector as usize]
    }

    /// Dispatches an I/O-transfer instruction to the slot `selector`
    /// names.  An empty slot leaves the state unchanged.
    pub fn dispatch(&mut self, selector: u8, instr: u16, state: State) -> (new_state: State)
        requires
            old(self).wf(),
            selector < 64,
            state.wf(),
        ensures
            final(self).wf(),
            match old(self)@[selector as int] {
                None => {
                    &&& new_state == state
                    &&& *final(self) == *old(self)
                },
                Some(device) => {
                    &&& (final(self)@, new_state) == ({
                        let (d2, s2) = spec_device_iot(device, instr, state);
                        (old(self)@.update(selector as int, Some(d2)), s2)
                    })
                },
            },
            new_state.wf(),
    {
        let slot = self.slots[selector as usize];
        match slot {
            None => state,
            Some(device) => {
                let mut device = device;
                let new_state = device.iot(instr, state);
                proof {
                    assert(spec_device_iot(
                        old(self)@[selector as int]->0,
                        instr,
                        state,
                    ).0 == device);
                }
                self.slots[selector as usize] = Some(device);
                new_state
            },
        }
    }

    /// Typed host access to one installed device: feeds the keyboard or
    /// drains the teleprinter.  A vacant slot and a device of the wrong
    /// kind are rejected with distinct errors, and a rejected operation
    /// changes nothing.
    pub fn operate(&mut self, selector: u8, op: DeviceOp) -> (reply: Result<DeviceReply, DeviceError>)
        requires
            old(self).wf(),
            selector < 64,
        ensures
            final(self).wf(),
            match reply {
                Ok(r) => {
                    &&& Some(r) == spec_operate_reply(old(self)@, selector, op)
                    &&& final(self)@ == spec_operate(old(self)@, selector, op)
                },
                Err(DeviceError::NoDevice) => {
                    &&& old(self)@[selector as int] is None
                    &&& *final(self) == *old(self)
                },
                Err(DeviceError::WrongKind) => {
                    &&& old(self)@[selector as int] is Some
                    &&& spec_operate_reply(old(self)@, selector, op) is None
                    &&& *final(self) == *old(self)
                },
            },
            reply is Ok <==> spec_operate_reply(old(self)@, selector, op) is Some,
    {
        let slot = self.slots[selector as usize];
        match (slot, op) {
            (None, _) => Err(DeviceError::NoDevice),
            (Some(Device::Keyboard(kb)), DeviceOp::SetKey(key)) => {
                let mut kb = kb;
                kb.set_key(key);
                self.slots[selector as usize] = Some(Device::Keyboard(kb));
                Ok(DeviceReply::Done)
            },
            (Some(Device::Tty(tty)), DeviceOp::GetKey) => {
                let mut tty = tty;
                let key = tty.get_key();
                self.slots[selector as usize] = Some(Device::Tty(tty));
                Ok(DeviceReply::Key(key))
            },
            (Some(_), _) => Err(DeviceError::WrongKind),
        }
    }
}

impl Default for Devices {
    /// Same as [`Devices::empty`].
    fn default() -> (devices: Devices)
        ensures
            devices.wf(),
            devices@ == Seq::new(64, |i: int| None::<Device>),
    {
        Devices::empty()
    }
}

} // verus!

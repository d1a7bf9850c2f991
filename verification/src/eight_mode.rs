//! The decode/execute engine for the 8-mode instruction set: the opcode
//! family sits in bits 9..=11 of the 12-bit instruction word, and every
//! one of the 4096 encodings is total — execution never fails.

use vstd::prelude::*;

use crate::consts::{MASK_12BIT, MASK_MSDIGIT};
use crate::devices::{spec_device_iot, Device, Devices};
use crate::emulate::State;
use crate::memory::{lemma_mask12, spec_decode_addr, decode_addr, Memory, MemoryChange};

verus! {

/// Everything one executed instruction does: the new register state, the
/// single memory cell it writes (address and value), if any, and the
/// device slots afterwards.  No instruction writes more than one cell.
pub ghost struct ExecEffect {
    pub state: State,
    pub write: Option<(u16, u16)>,
    pub devs: Seq<Option<Device>>,
}

/// AND: accumulator intersected with the operand word.
pub open spec fn spec_and(op_addr: u16, state: State, cells: Seq<u16>) -> State {
    State { acc: state.acc & cells[op_addr as int], ..state }
}

/// TAD: 13-bit add of (link:accumulator) and the operand word, split at
/// bit 12 into the new accumulator and link.
pub open spec fn spec_tad(op_addr: u16, state: State, cells: Seq<u16>) -> State {
    let lhs = state.acc | (if state.link {
        0b0001_000_000_000_000u16
    } else {
        0u16
    });
    let res = (lhs + cells[op_addr as int]) as u16;
    State { acc: res & MASK_12BIT, link: res & 0b0001_000_000_000_000 > 0, ..state }
}

/// DCA: deposit the accumulator and clear it.
pub open spec fn spec_dca(op_addr: u16, state: State) -> (State, Option<(u16, u16)>) {
    (State { acc: 0, ..state }, Some((op_addr, state.acc)))
}

/// JMP: jump to the operand address.
pub open spec fn spec_jmp(op_addr: u16, state: State) -> State {
    State { pc: op_addr, ..state }
}

/// ISZ: increment the operand cell (masked); skip the next instruction if
/// the incremented value wrapped to zero.
pub open spec fn spec_isz(op_addr: u16, state: State, cells: Seq<u16>) -> (
    State,
    Option<(u16, u16)>,
) {
    let newval = (cells[op_addr as int] + 1) as u16 & MASK_12BIT;
    let new_state = if newval == 0 {
        State { pc: (state.pc + 1) as u16 & MASK_12BIT, ..state }
    } else {
        state
    };
    (new_state, Some((op_addr, newval)))
}

/// JMS: store the return address in the operand cell and continue just
/// past it.
pub open spec fn spec_jms(op_addr: u16, state: State) -> (State, Option<(u16, u16)>) {
    (State { pc: (op_addr + 1) as u16 & MASK_12BIT, ..state }, Some((op_addr, state.pc)))
}

/// One rotate-right: the link enters bit 11, bit 0 leaves into the link.
pub open spec fn spec_ror(state: State) -> State {
    State {
        acc: (state.acc >> 1) | (if state.link {
            0b0000_100_000_000_000u16
        } else {
            0u16
        }),
        link: state.acc & 1 == 1,
        ..state
    }
}

/// One rotate-left: the link enters bit 0, bit 11 leaves into the link.
pub open spec fn spec_rol(state: State) -> State {
    State {
        acc: ((state.acc << 1) & MASK_12BIT) | (if state.link {
            1u16
        } else {
            0u16
        }),
        link: state.acc & 0b0000_100_000_000_000 > 0,
        ..state
    }
}

/// Group 1 operate instruction, bits applied in this fixed order: clear
/// accumulator, clear link, complement accumulator, complement link,
/// increment accumulator, rotate right (twice with the double bit), rotate
/// left (twice with the double bit).  A word asking for both rotations is
/// resolved right first, then left.
pub open spec fn spec_group1(instr: u16, state: State) -> State {
    let s1 = if instr & 0b0000_000_010_000_000 > 0 {
        State { acc: 0, ..state }
    } else {
        state
    };
    let s2 = if instr & 0b0000_000_001_000_000 > 0 {
        State { link: false, ..s1 }
    } else {
        s1
    };
    let s3 = if instr & 0b0000_000_000_100_000 > 0 {
        State { acc: !s2.acc & MASK_12BIT, ..s2 }
    } else {
        s2
    };
    let s4 = if instr & 0b0000_000_000_010_000 > 0 {
        State { link: !s3.link, ..s3 }
    } else {
        s3
    };
    let s5 = if instr & 0b0000_000_000_000_001 > 0 {
        State { acc: (s4.acc + 1) as u16 & MASK_12BIT, ..s4 }
    } else {
        s4
    };
    let s6 = if instr & 0b0000_000_000_001_000 > 0 {
        if instr & 0b0000_000_000_000_010 > 0 {
            spec_ror(spec_ror(s5))
        } else {
            spec_ror(s5)
        }
    } else {
        s5
    };
    if instr & 0b0000_000_000_000_100 > 0 {
        if instr & 0b0000_000_000_000_010 > 0 {
            spec_rol(spec_rol(s6))
        } else {
            spec_rol(s6)
        }
    } else {
        s6
    }
}

/// Group 2 operate instruction: the skip predicate is the OR of the
/// selected conditions over the pre-modification accumulator and link —
/// sign bit set, accumulator zero, link set — inverted when the invert bit
/// is set; afterwards the word may clear the accumulator, OR the right
/// switches in, and halt; finally a true predicate advances the program
/// counter by one.
pub open spec fn spec_group2(instr: u16, state: State) -> State {
    let skip0 = (instr & 0b0000_000_001_000_000 > 0 && state.acc & 0b0000_100_000_000_000 > 0)
        || (instr & 0b0000_000_000_100_000 > 0 && state.acc == 0)
        || (instr & 0b0000_000_000_010_000 > 0 && state.link);
    let skip = if instr & 0b0000_000_000_001_000 > 0 {
        !skip0
    } else {
        skip0
    };
    let s1 = if instr & 0b0000_000_010_000_000 > 0 {
        State { acc: 0, ..state }
    } else {
        state
    };
    let s2 = if instr & 0b0000_000_000_000_100 > 0 {
        State { acc: s1.acc | s1.rsw, ..s1 }
    } else {
        s1
    };
    let s3 = if instr & 0b0000_000_000_000_010 > 0 {
        State { running: false, ..s2 }
    } else {
        s2
    };
    if skip {
        State { pc: (s3.pc + 1) as u16 & MASK_12BIT, ..s3 }
    } else {
        s3
    }
}

/// IOT: bits 3..=8 select a device slot; an empty slot makes the
/// instruction a no-op.
pub open spec fn spec_iot(instr: u16, state: State, devs: Seq<Option<Device>>) -> (
    State,
    Seq<Option<Device>>,
) {
    let selector = (instr >> 3) & 0b0000_000_000_111_111;
    match devs[selector as int] {
        None => (state, devs),
        Some(device) => {
            let (d2, s2) = spec_device_iot(device, instr, state);
            (s2, devs.update(selector as int, Some(d2)))
        },
    }
}

/// The semantics of one instruction word over register state, the memory
/// image, and the device slots.  Total over all 4096 encodings.
pub open spec fn spec_exec(instr: u16, state: State, cells: Seq<u16>, devs: Seq<Option<Device>>)
    -> ExecEffect {
    let op_addr = spec_decode_addr(instr, state.pc, cells);
    let msdigit = instr & MASK_MSDIGIT;
    if msdigit == 0b0000_000_000_000_000 {
        ExecEffect { state: spec_and(op_addr, state, cells), write: None, devs }
    } else if msdigit == 0b0000_001_000_000_000 {
        ExecEffect { state: spec_tad(op_addr, state, cells), write: None, devs }
    } else if msdigit == 0b0000_011_000_000_000 {
        let (s2, w) = spec_dca(op_addr, state);
        ExecEffect { state: s2, write: w, devs }
    } else if msdigit == 0b0000_101_000_000_000 {
        ExecEffect { state: spec_jmp(op_addr, state), write: None, devs }
    } else if msdigit == 0b0000_010_000_000_000 {
        let (s2, w) = spec_isz(op_addr, state, cells);
        ExecEffect { state: s2, write: w, devs }
    } else if msdigit == 0b0000_100_000_000_000 {
        let (s2, w) = spec_jms(op_addr, state);
        ExecEffect { state: s2, write: w, devs }
    } else if msdigit == 0b0000_111_000_000_000 {
        let s2 = if instr & 0b0000_000_100_000_000 == 0 {
            spec_group1(instr, state)
        } else {
            spec_group2(instr, state)
        };
        ExecEffect { state: s2, write: None, devs }
    } else {
        let (s2, d2) = spec_iot(instr, state, devs);
        ExecEffect { state: s2, write: None, devs: d2 }
    }
}

/// The single cell an instruction writes stays in range, and the state it
/// leaves is well formed.
pub open spec fn exec_effect_wf(e: ExecEffect) -> bool {
    &&& e.state.wf()
    &&& match e.write {
        None => true,
        Some((a, v)) => a < 4096 && v < 4096,
    }
}

/// Rotating a well-formed state leaves it well formed.
proof fn lemma_rotate_wf(state: State)
    requires
        state.wf(),
    ensures
        spec_ror(state).wf(),
        spec_rol(state).wf(),
{
    let a = state.acc;
    assert((a >> 1) | 0b0000_100_000_000_000u16 < 4096 && (a >> 1) | 0u16 < 4096) by (bit_vector)
        requires
            a < 4096,
    ;
    assert(((a << 1) & 0b0000_111_111_111_111u16) | 0b1u16 < 4096 && ((a << 1)
        & 0b0000_111_111_111_111u16) | 0u16 < 4096) by (bit_vector);
}

/// Group 1 and group 2 operate instructions leave a well-formed state
/// well formed.
proof fn lemma_operate_wf(instr: u16, state: State)
    requires
        state.wf(),
    ensures
        spec_group1(instr, state).wf(),
        spec_group2(instr, state).wf(),
{
    let s2 = if instr & 0b0000_000_010_000_000 > 0 {
        State { acc: 0, ..state }
    } else {
        state
    };
    let s3 = if instr & 0b0000_000_001_000_000 > 0 {
        State { link: false, ..s2 }
    } else {
        s2
    };
    lemma_mask12(!s3.acc);
    let s4 = if instr & 0b0000_000_000_100_000 > 0 {
        State { acc: !s3.acc & MASK_12BIT, ..s3 }
    } else {
        s3
    };
    let s5 = if instr & 0b0000_000_000_010_000 > 0 {
        State { link: !s4.link, ..s4 }
    } else {
        s4
    };
    lemma_mask12((s5.acc + 1) as u16);
    let s6 = if instr & 0b0000_000_000_000_001 > 0 {
        State { acc: (s5.acc + 1) as u16 & MASK_12BIT, ..s5 }
    } else {
        s5
    };
    lemma_rotate_wf(s6);
    lemma_rotate_wf(spec_ror(s6));
    lemma_rotate_wf(spec_ror(spec_ror(s6)));
    let s7 = if instr & 0b0000_000_000_001_000 > 0 {
        if instr & 0b0000_000_000_000_010 > 0 {
            spec_ror(spec_ror(s6))
        } else {
            spec_ror(s6)
        }
    } else {
        s6
    };
    lemma_rotate_wf(s7);
    lemma_rotate_wf(spec_rol(s7));

    // Group 2: the only registers touched are the accumulator (cleared or
    // ORed with the switches) and the program counter (masked advance).
    let g1 = if instr & 0b0000_000_010_000_000 > 0 {
        State { acc: 0, ..state }
    } else {
        state
    };
    let a = g1.acc;
    let r = g1.rsw;
    assert(a | r < 4096) by (bit_vector)
        requires
            a < 4096,
            r < 4096,
    ;
    let g2 = if instr & 0b0000_000_000_000_100 > 0 {
        State { acc: g1.acc | g1.rsw, ..g1 }
    } else {
        g1
    };
    lemma_mask12((g2.pc + 1) as u16);
}

/// Executing any instruction in a well-formed machine yields a
/// well-formed register state, a single write inside the 12-bit address
/// space, and device slots still keyed by their own selectors.
pub proof fn lemma_spec_exec_wf(
    instr: u16,
    state: State,
    cells: Seq<u16>,
    devs: Seq<Option<Device>>,
)
    requires
        state.wf(),
        cells.len() == 4096,
        forall|i: int| 0 <= i < 4096 ==> #[trigger] cells[i] < 4096,
        devs.len() == 64,
        forall|i: int|
            0 <= i < 64 && (#[trigger] devs[i]) is Some ==> crate::devices::spec_selector(
                devs[i]->0,
            ) == i,
    ensures
        ({
            let e = spec_exec(instr, state, cells, devs);
            &&& exec_effect_wf(e)
            &&& e.devs.len() == 64
            &&& (forall|i: int|
                0 <= i < 64 && (#[trigger] e.devs[i]) is Some ==> crate::devices::spec_selector(
                    e.devs[i]->0,
                ) == i)
        }),
{
    let op_addr = spec_decode_addr(instr, state.pc, cells);
    crate::memory::lemma_get_addr_range(instr, state.pc);
    lemma_mask12(crate::memory::spec_get_addr(instr, state.pc));
    assert(op_addr < 4096);
    let a0 = state.acc;
    let c0 = cells[op_addr as int];
    assert(a0 & c0 < 4096) by (bit_vector)
        requires
            a0 < 4096,
    ;
    let lhs = a0 | (if state.link {
        0b0001_000_000_000_000u16
    } else {
        0u16
    });
    assert(lhs <= 0b0001_111_111_111_111) by (bit_vector)
        requires
            a0 < 4096,
            lhs == a0 | 0b0001_000_000_000_000u16 || lhs == a0 | 0u16,
    ;
    lemma_mask12((lhs + c0) as u16);
    lemma_mask12((c0 + 1) as u16);
    lemma_mask12((state.pc + 1) as u16);
    lemma_mask12((op_addr + 1) as u16);
    lemma_operate_wf(instr, state);
    let selector = (instr >> 3) & 0b0000_000_000_111_111;
    assert(selector < 64) by (bit_vector)
        requires
            selector == (instr >> 3) & 0b0000_000_000_111_111,
    ;
    match devs[selector as int] {
        None => {},
        Some(device) => {
            crate::devices::lemma_device_iot_wf(device, instr, state);
        },
    }
}

/// What the memory store looks like after performing the (at most one)
/// write of an [`ExecEffect`] through [`Memory::write`].
pub open spec fn mem_after_write(
    mem: Memory,
    write: Option<(u16, u16)>,
    post: Memory,
) -> bool {
    match write {
        None => post == mem,
        Some((a, v)) => {
            &&& post.cells() == mem.cells().update(a as int, v)
            &&& post.log() == mem.log().push(
                (MemoryChange { addr: a, was: mem.cells()[a as int], now: v }),
            )
            &&& post.initial() == mem.initial()
        },
    }
}

/// Executes one already-fetched instruction word.  Pure in its inputs but
/// for the logged memory write and the device side effect; the effect is
/// exactly [`spec_exec`] of the inputs.
pub fn exec(instr: u16, state: State, memory: &mut Memory, devices: &mut Devices) -> (new_state: State)
    requires
        state.wf(),
        old(memory).wf(),
        old(devices).wf(),
    ensures
        final(memory).wf(),
        final(devices).wf(),
        new_state.wf(),
        ({
            let e = spec_exec(instr, state, old(memory).cells(), old(devices)@);
            &&& new_state == e.state
            &&& final(devices)@ == e.devs
            &&& mem_after_write(*old(memory), e.write, *final(memory))
        }),
{
    let op_addr = decode_addr(instr, state.pc, memory);
    let msdigit = instr & MASK_MSDIGIT;
    if msdigit == 0b0000_000_000_000_000 {
        and(op_addr, state, memory)
    } else if msdigit == 0b0000_001_000_000_000 {
        tad(op_addr, state, memory)
    } else if msdigit == 0b0000_011_000_000_000 {
        dca(op_addr, state, memory)
    } else if msdigit == 0b0000_101_000_000_000 {
        jmp(op_addr, state)
    } else if msdigit == 0b0000_010_000_000_000 {
        isz(op_addr, state, memory)
    } else if msdigit == 0b0000_100_000_000_000 {
        jms(op_addr, state, memory)
    } else if msdigit == 0b0000_111_000_000_000 {
        op(instr, state)
    } else {
        assert(msdigit == 0b0000_110_000_000_000) by (bit_vector)
            requires
                msdigit == instr & 0b0000_111_000_000_000,
                msdigit != 0b0000_000_000_000_000,
                msdigit != 0b0000_001_000_000_000,
                msdigit != 0b0000_011_000_000_000,
                msdigit != 0b0000_101_000_000_000,
                msdigit != 0b0000_010_000_000_000,
                msdigit != 0b0000_100_000_000_000,
                msdigit != 0b0000_111_000_000_000,
        ;
        iot(instr, state, devices)
    }
}

/// AND the operand word into the accumulator.
pub fn and(op_addr: u16, state: State, memory: &Memory) -> (new_state: State)
    requires
        state.wf(),
        memory.wf(),
        op_addr < 4096,
    ensures
        new_state == spec_and(op_addr, state, memory.cells()),
        new_state.wf(),
{
    let operand = memory.read(op_addr);
    proof {
        lemma_mask12(op_addr);
        let a = state.acc;
        assert(a & operand < 4096) by (bit_vector)
            requires
                a < 4096,
        ;
    }
    State { acc: state.acc & operand, ..state }
}

/// 13-bit add of (link:accumulator) and the operand word.
pub fn tad(op_addr: u16, state: State, memory: &Memory) -> (new_state: State)
    requires
        state.wf(),
        memory.wf(),
        op_addr < 4096,
    ensures
        new_state == spec_tad(op_addr, state, memory.cells()),
        new_state.wf(),
{
    proof {
        lemma_mask12(op_addr);
    }
    let lhs = state.acc | (if state.link {
        0b0001_000_000_000_000
    } else {
        0
    });
    proof {
        let a = state.acc;
        assert(lhs <= 0b0001_111_111_111_111) by (bit_vector)
            requires
                a < 4096,
                lhs == a | 0b0001_000_000_000_000u16 || lhs == a | 0u16,
        ;
    }
    let operand = memory.read(op_addr);
    let res = lhs + operand;
    proof {
        lemma_mask12(res);
    }
    State { acc: res & MASK_12BIT, link: res & 0b0001_000_000_000_000 > 0, ..state }
}

/// Deposit the accumulator in the operand cell and clear it.
pub fn dca(op_addr: u16, state: State, memory: &mut Memory) -> (new_state: State)
    requires
        state.wf(),
        old(memory).wf(),
        op_addr < 4096,
    ensures
        final(memory).wf(),
        new_state == spec_dca(op_addr, state).0,
        mem_after_write(*old(memory), spec_dca(op_addr, state).1, *final(memory)),
        new_state.wf(),
{
    proof {
        lemma_mask12(op_addr);
        lemma_mask12(state.acc);
    }
    memory.write(op_addr, state.acc);
    State { acc: 0, ..state }
}

/// Jump to the operand address.
pub fn jmp(op_addr: u16, state: State) -> (new_state: State)
    requires
        state.wf(),
        op_addr < 4096,
    ensures
        new_state == spec_jmp(op_addr, state),
        new_state.wf(),
{
    State { pc: op_addr, ..state }
}

/// Increment the operand cell; skip when it wraps to zero.
pub fn isz(op_addr: u16, state: State, memory: &mut Memory) -> (new_state: State)
    requires
        state.wf(),
        old(memory).wf(),
        op_addr < 4096,
    ensures
        final(memory).wf(),
        new_state == spec_isz(op_addr, state, old(memory).cells()).0,
        mem_after_write(*old(memory), spec_isz(op_addr, state, old(memory).cells()).1, *final(memory)),
        new_state.wf(),
{
    proof {
        lemma_mask12(op_addr);
    }
    let incremented = memory.read(op_addr) + 1;
    proof {
        lemma_mask12(incremented);
    }
    let newval = incremented & MASK_12BIT;
    proof {
        lemma_mask12(newval);
    }
    memory.write(op_addr, newval);
    if newval == 0 {
        proof {
            lemma_mask12((state.pc + 1) as u16);
        }
        State { pc: (state.pc + 1) & MASK_12BIT, ..state }
    } else {
        State { ..state }
    }
}

/// Store the return address in the operand cell and continue past it.
pub fn jms(op_addr: u16, state: State, memory: &mut Memory) -> (new_state: State)
    requires
        state.wf(),
        old(memory).wf(),
        op_addr < 4096,
    ensures
        final(memory).wf(),
        new_state == spec_jms(op_addr, state).0,
        mem_after_write(*old(memory), spec_jms(op_addr, state).1, *final(memory)),
        new_state.wf(),
{
    proof {
        lemma_mask12(op_addr);
        lemma_mask12(state.pc);
        lemma_mask12((op_addr + 1) as u16);
    }
    memory.write(op_addr, state.pc);
    State { pc: (op_addr + 1) & MASK_12BIT, ..state }
}

/// Operate instruction: bit 8 splits group 1 from group 2.
pub fn op(instr: u16, state: State) -> (new_state: State)
    requires
        state.wf(),
    ensures
        new_state == (if instr & 0b0000_000_100_000_000 == 0 {
            spec_group1(instr, state)
        } else {
            spec_group2(instr, state)
        }),
        new_state.wf(),
{
    if instr & 0b0000_000_100_000_000 == 0 {
        group1_op(instr, state)
    } else {
        group2_op(instr, state)
    }
}

/// Group 1 operate: clear, complement, increment, and rotate micro
/// operations, in the fixed resolution order of [`spec_group1`].
pub fn group1_op(instr: u16, state: State) -> (new_state: State)
    requires
        state.wf(),
    ensures
        new_state == spec_group1(instr, state),
        new_state.wf(),
{
    let mut state = state;
    if instr & 0b0000_000_010_000_000 > 0 {
        state.acc = 0;
    }
    if instr & 0b0000_000_001_000_000 > 0 {
        state.link = false;
    }
    if instr & 0b0000_000_000_100_000 > 0 {
        proof {
            lemma_mask12(!state.acc);
        }
        state.acc = !state.acc & MASK_12BIT;
    }
    if instr & 0b0000_000_000_010_000 > 0 {
        state.link = !state.link;
    }
    if instr & 0b0000_000_000_000_001 > 0 {
        proof {
            lemma_mask12((state.acc + 1) as u16);
        }
        state.acc = (state.acc + 1) & MASK_12BIT;
    }
    if instr & 0b0000_000_000_001_000 > 0 {
        ror(&mut state);
        if instr & 0b0000_000_000_000_010 > 0 {
            ror(&mut state);
        }
    }
    // The source convention leaves a rotate-right and a rotate-left in the
    // same word undefined; this engine fixes the order right then left.
    if instr & 0b0000_000_000_000_100 > 0 {
        rol(&mut state);
        if instr & 0b0000_000_000_000_010 > 0 {
            rol(&mut state);
        }
    }
    state
}

fn ror(state: &mut State)
    requires
        old(state).wf(),
    ensures
        *final(state) == spec_ror(*old(state)),
        final(state).wf(),
{
    let has_one = state.acc & 1 == 1;
    proof {
        let a = old(state).acc;
        assert((a >> 1) | 0b0000_100_000_000_000u16 < 4096 && (a >> 1) | 0u16 < 4096)
            by (bit_vector)
            requires
                a < 4096,
        ;
    }
    state.acc = (state.acc >> 1) | if state.link {
        0b0000_100_000_000_000
    } else {
        0b0000_000_000_000_000
    };
    state.link = has_one;
}

fn rol(state: &mut State)
    requires
        old(state).wf(),
    ensures
        *final(state) == spec_rol(*old(state)),
        final(state).wf(),
{
    let has_one = state.acc & 0b0000_100_000_000_000 > 0;
    proof {
        let a = old(state).acc;
        assert(((a << 1) & 0b0000_111_111_111_111u16) | 0b1u16 < 4096 && ((a << 1)
            & 0b0000_111_111_111_111u16) | 0u16 < 4096) by (bit_vector);
    }
    state.acc = ((state.acc << 1) & MASK_12BIT) | if state.link {
        0b0000_000_000_000_001
    } else {
        0b0000_000_000_000_000
    };
    state.link = has_one;
}

/// Group 2 operate: skip test over the pre-modification registers, then
/// clear, switch OR, halt, and the skip itself.
pub fn group2_op(instr: u16, state: State) -> (new_state: State)
    requires
        state.wf(),
    ensures
        new_state == spec_group2(instr, state),
        new_state.wf(),
{
    let mut state = state;

    let mut skip = false;
    if instr & 0b0000_000_001_000_000 > 0 {
        skip = skip || state.acc & 0b0000_100_000_000_000 > 0;
    }
    if instr & 0b0000_000_000_100_000 > 0 {
        skip = skip || state.acc == 0;
    }
    if instr & 0b0000_000_000_010_000 > 0 {
        skip = skip || state.link;
    }
    if instr & 0b0000_000_000_001_000 > 0 {
        skip = !skip;
    }
    if instr & 0b0000_000_010_000_000 > 0 {
        // CLA
        state.acc = 0;
    }
    if instr & 0b0000_000_000_000_100 > 0 {
        // OSR
        proof {
            let a = state.acc;
            let r = state.rsw;
            assert(a | r < 4096) by (bit_vector)
                requires
                    a < 4096,
                    r < 4096,
            ;
        }
        state.acc = state.acc | state.rsw;
    }
    if instr & 0b0000_000_000_000_010 > 0 {
        // HLT
        state.running = false;
    }
    if skip {
        proof {
            lemma_mask12((state.pc + 1) as u16);
        }
        state.pc = (state.pc + 1) & MASK_12BIT;
    }

    state
}

/// IOT: dispatch to the device slot bits 3..=8 select; an empty slot
/// leaves everything unchanged.
pub fn iot(instr: u16, state: State, devices: &mut Devices) -> (new_state: State)
    requires
        state.wf(),
        old(devices).wf(),
    ensures
        final(devices).wf(),
        (new_state, final(devices)@) == spec_iot(instr, state, old(devices)@),
        new_state.wf(),
{
    let selector = (instr >> 3) & 0b0000_000_000_111_111;
    proof {
        assert((instr >> 3) & 0b0000_000_000_111_111u16 < 64) by (bit_vector);
    }
    devices.dispatch(selector as u8, instr, state)
}

} // verus!

//! The versioned memory store: a 4096-word array plus an append-only log of
//! change records, which makes every past log position a stable handle for
//! time travel.

use vstd::prelude::*;

use crate::consts::{MASK_12BIT, MASK_CURRENT_PAGE, MASK_MSDIGIT};

verus! {

/// One record of the change log: the cell touched, the value it held
/// before, and the value it holds after.
#[derive(Clone, Copy, Debug, PartialEq, Eq, Structural)]
pub struct MemoryChange {
    pub addr: u16,
    pub was: u16,
    pub now: u16,
}

/// The array contents reached by folding the first `p` records of `log`
/// onto the initial image `init`.  A log position is exactly such a `p`.
pub open spec fn cells_at(init: Seq<u16>, log: Seq<MemoryChange>, p: int) -> Seq<u16>
    decreases p,
{
    if p <= 0 {
        init
    } else {
        cells_at(init, log, p - 1).update(log[p - 1].addr as int, log[p - 1].now)
    }
}

/// A single change record stays inside the 12-bit machine word.
pub open spec fn change_wf(r: MemoryChange) -> bool {
    r.addr < 4096 && r.was < 4096 && r.now < 4096
}

/// Memory log stability: the contents reconstructed for a position depend
/// only on the records up to that position.  Since every operation of
/// [`Memory`] only appends records, a position captured at any point keeps
/// reconstructing the same contents, however much undo and redo traffic
/// follows.
pub proof fn lemma_position_stable(
    init: Seq<u16>,
    log1: Seq<MemoryChange>,
    log2: Seq<MemoryChange>,
    p: int,
)
    requires
        0 <= p <= log1.len(),
        p <= log2.len(),
        forall|i: int| 0 <= i < p ==> log1[i] == log2[i],
    ensures
        cells_at(init, log1, p) == cells_at(init, log2, p),
    decreases p,
{
    if p > 0 {
        lemma_position_stable(init, log1, log2, p - 1);
    }
}

/// Masking a word to 12 bits lands in the address space, and is the
/// identity on words already there.
pub proof fn lemma_mask12(x: u16)
    ensures
        x & MASK_12BIT < 4096,
        x < 4096 ==> x & MASK_12BIT == x,
{
    assert(x & 0b0000_111_111_111_111 < 4096 && (x < 4096 ==> x & 0b0000_111_111_111_111 == x))
        by (bit_vector);
}

/// The 4096-word store together with its append-only change log.  The live
/// array is always the fold of the whole log onto the initial image.
pub struct Memory {
    current: Vec<u16>,
    operations: Vec<MemoryChange>,
    init: Ghost<Seq<u16>>,
}

impl Memory {
    /// The live array contents.
    pub closed spec fn cells(&self) -> Seq<u16> {
        self.current@
    }

    /// The change log, oldest record first.
    pub closed spec fn log(&self) -> Seq<MemoryChange> {
        self.operations@
    }

    /// The image the store was created with; records are folded onto it.
    pub closed spec fn initial(&self) -> Seq<u16> {
        self.init@
    }

    /// Every cell is a 12-bit word, every record is in range, and the live
    /// array is the fold of the whole log onto the initial image.
    pub open spec fn wf(&self) -> bool {
        &&& self.cells().len() == 4096
        &&& self.initial().len() == 4096
        &&& (forall|i: int| 0 <= i < 4096 ==> #[trigger] self.cells()[i] < 4096)
        &&& (forall|i: int| 0 <= i < 4096 ==> #[trigger] self.initial()[i] < 4096)
        &&& (forall|i: int| 0 <= i < self.log().len() ==> change_wf(#[trigger] self.log()[i]))
        &&& self.cells() == cells_at(self.initial(), self.log(), self.log().len() as int)
    }

    /// Takes a pre-filled 4096-word program image; the change log starts
    /// empty, so position 0 names exactly this image.
    pub fn with_code(code: Vec<u16>) -> (mem: Memory)
        requires
            code@.len() == 4096,
            forall|i: int| 0 <= i < 4096 ==> #[trigger] code@[i] < 4096,
        ensures
            mem.wf(),
            mem.cells() == code@,
            mem.log() == Seq::<MemoryChange>::empty(),
            mem.initial() == code@,
    {
        let ghost image = code@;
        let mem = Memory { current: code, operations: Vec::new(), init: Ghost(image) };
        proof {
            assert(mem.log() =~= Seq::<MemoryChange>::empty());
        }
        mem
    }

    /// The current log position: the number of records so far.
    pub fn generation(&self) -> (position: usize)
        ensures
            position == self.log().len(),
    {
        self.operations.len()
    }

    /// Reads the cell at `addr`, masked to 12 bits.  Total: every address
    /// reaches a cell.
    pub fn read(&self, addr: u16) -> (value: u16)
        requires
            self.wf(),
        ensures
            value == self.cells()[(addr & MASK_12BIT) as int],
            value < 4096,
    {
        proof {
            lemma_mask12(addr);
        }
        self.current[(addr & MASK_12BIT) as usize]
    }

    /// Writes `value` to the cell at `addr`, both masked to 12 bits, and
    /// appends the record of the change.  Always succeeds.
    pub fn write(&mut self, addr: u16, value: u16)
        requires
            old(self).wf(),
        ensures
            final(self).wf(),
            final(self).initial() == old(self).initial(),
            final(self).log() == old(self).log().push(
                (MemoryChange {
                    addr: addr & MASK_12BIT,
                    was: old(self).cells()[(addr & MASK_12BIT) as int],
                    now: value & MASK_12BIT,
                }),
            ),
            final(self).cells() == old(self).cells().update(
                (addr & MASK_12BIT) as int,
                value & MASK_12BIT,
            ),
    {
        proof {
            lemma_mask12(addr);
            lemma_mask12(value);
        }
        let a = addr & MASK_12BIT;
        let v = value & MASK_12BIT;
        let was = self.current[a as usize];
        self.operations.push(MemoryChange { addr: a, was, now: v });
        self.current[a as usize] = v;
        proof {
            let pre = *old(self);
            lemma_position_stable(
                pre.initial(),
                pre.log(),
                self.log(),
                pre.log().len() as int,
            );
            assert(self.cells() =~= cells_at(
                self.initial(),
                self.log(),
                self.log().len() as int,
            ));
        }
    }

    /// Re-applies the forward value of the record just below `generation`,
    /// as a brand-new record; the historical record itself is untouched.
    pub(crate) fn apply(&mut self, generation: usize)
        requires
            old(self).wf(),
            1 <= generation <= old(self).log().len(),
        ensures
            final(self).wf(),
            final(self).initial() == old(self).initial(),
            final(self).log() == old(self).log().push(
                (MemoryChange {
                    addr: old(self).log()[generation - 1].addr,
                    was: old(self).cells()[old(self).log()[generation - 1].addr as int],
                    now: old(self).log()[generation - 1].now,
                }),
            ),
            final(self).cells() == old(self).cells().update(
                old(self).log()[generation - 1].addr as int,
                old(self).log()[generation - 1].now,
            ),
    {
        let op = self.operations[generation - 1];
        proof {
            lemma_mask12(op.addr);
            lemma_mask12(op.now);
        }
        self.write(op.addr, op.now);
    }

    /// Symmetric to [`Memory::apply`]: re-applies the backward value as a
    /// brand-new record.
    pub(crate) fn unapply(&mut self, generation: usize)
        requires
            old(self).wf(),
            1 <= generation <= old(self).log().len(),
        ensures
            final(self).wf(),
            final(self).initial() == old(self).initial(),
            final(self).log() == old(self).log().push(
                (MemoryChange {
                    addr: old(self).log()[generation - 1].addr,
                    was: old(self).cells()[old(self).log()[generation - 1].addr as int],
                    now: old(self).log()[generation - 1].was,
                }),
            ),
            final(self).cells() == old(self).cells().update(
                old(self).log()[generation - 1].addr as int,
                old(self).log()[generation - 1].was,
            ),
    {
        let op = self.operations[generation - 1];
        proof {
            lemma_mask12(op.addr);
            lemma_mask12(op.was);
        }
        self.write(op.addr, op.was);
    }

    /// Read access to the full 4096-word image, for a front panel or
    /// debugger to render.
    pub fn dump(&self) -> (image: &Vec<u16>)
        ensures
            image@ == self.cells(),
    {
        &self.current
    }
}

impl Default for Memory {
    /// An all-zero store with an empty change log.
    fn default() -> (mem: Memory)
        ensures
            mem.wf(),
            mem.cells() == Seq::new(4096, |i: int| 0u16),
            mem.log() == Seq::<MemoryChange>::empty(),
            mem.initial() == Seq::new(4096, |i: int| 0u16),
    {
        let zeros: Vec<u16> = vec![0u16; 4096];
        proof {
            assert(zeros@ =~= Seq::new(4096, |i: int| 0u16));
        }
        Memory::with_code(zeros)
    }
}

/// The direct address named by a memory-reference instruction: bits 0..=6
/// give the in-page offset, bit 7 selects page zero or the instruction's
/// own page.
pub open spec fn spec_get_addr(instr: u16, pc: u16) -> u16 {
    (if instr & 0b0000_000_010_000_000 == 0 {
        0u16
    } else {
        pc & MASK_CURRENT_PAGE
    }) | (instr & 0b0000_000_001_111_111)
}

/// A direct address always lies in the 12-bit address space.
pub proof fn lemma_get_addr_range(instr: u16, pc: u16)
    ensures
        spec_get_addr(instr, pc) < 4096,
{
    assert((if instr & 0b0000_000_010_000_000 == 0 {
        0u16
    } else {
        pc & 0b0000_111_110_000_000
    }) | (instr & 0b0000_000_001_111_111) < 4096) by (bit_vector);
}

fn get_addr(instr: u16, pc: u16) -> (addr: u16)
    ensures
        addr == spec_get_addr(instr, pc),
        addr < 4096,
{
    proof {
        lemma_get_addr_range(instr, pc);
    }
    let page_address_bits = instr & 0b0000_000_001_111_111;
    let page = if instr & 0b0000_000_010_000_000 == 0 {
        // Page 0
        0
    } else {
        // Current page
        pc & MASK_CURRENT_PAGE
    };
    page | page_address_bits
}

/// The operand address of `instr` executed at `pc` over the array `cells`:
/// the direct address, or, with the indirect flag set, the pointer word
/// read from the direct address (one level of indirection only).
/// Instruction families 6 and 7 take no operand address.
pub open spec fn spec_decode_addr(instr: u16, pc: u16, cells: Seq<u16>) -> u16 {
    if (instr & MASK_MSDIGIT) >> 9 >= 6 {
        0u16
    } else if instr & 0b0000_000_100_000_000 == 0 {
        spec_get_addr(instr, pc)
    } else {
        cells[(spec_get_addr(instr, pc) & MASK_12BIT) as int]
    }
}

/// Resolves the operand address of `instr` at `pc`, reading one pointer
/// word on indirect addressing.
pub fn decode_addr(instr: u16, pc: u16, memory: &mut Memory) -> (addr: u16)
    requires
        old(memory).wf(),
    ensures
        *final(memory) == *old(memory),
        addr == spec_decode_addr(instr, pc, old(memory).cells()),
        addr < 4096,
{
    if (instr & MASK_MSDIGIT) >> 9 >= 6 {
        // No operand address in IOT or any group 1 or group 2 operations
        return 0;
    }
    if instr & 0b0000_000_100_000_000 == 0 {
        // Direct addressing
        get_addr(instr, pc)
    } else {
        // Indirect addressing
        let pointer_addr = get_addr(instr, pc);
        memory.read(pointer_addr)
    }
}

} // verus!

//! The machine controller: register state, fetch, and the history of
//! executed steps with undo and redo over the versioned memory store.

use vstd::prelude::*;

use crate::consts::MASK_12BIT;
use crate::devices::{Device, DeviceError, DeviceOp, DeviceReply, Devices, spec_operate,
    spec_operate_reply, spec_selector};
use crate::eight_mode::spec_exec;
use crate::memory::{cells_at, change_wf, lemma_mask12, Memory, MemoryChange};

verus! {

/// The full register file, replaced wholesale each step so that history
/// snapshots are cheap copies.
#[derive(Debug, Clone, Copy, PartialEq, Eq, Structural)]
pub struct State {
    /// Accumulator: the lower 12 bits form the machine's accumulator.
    pub acc: u16,
    /// Link flag: the carry bit conceptually above bit 11.
    pub link: bool,
    /// Program counter.
    pub pc: u16,
    /// Most recently fetched instruction word.
    pub mri: u16,
    /// Memory address register, for front-panel inspection.
    pub mra: u16,
    /// Memory buffer register, for front-panel inspection.
    pub mrb: u16,
    /// Left switch register, operator input.
    pub lsw: u16,
    /// Right switch register, operator input.
    pub rsw: u16,
    /// Whether the machine is running; cleared by a halt instruction.
    pub running: bool,
}

impl State {
    /// Every address-like and accumulator-like register is masked to 12
    /// bits.
    pub open spec fn wf(&self) -> bool {
        &&& self.acc < 4096
        &&& self.pc < 4096
        &&& self.mri < 4096
        &&& self.mra < 4096
        &&& self.mrb < 4096
        &&& self.lsw < 4096
        &&& self.rsw < 4096
    }
}

impl Default for State {
    /// All registers zero, link clear, not running.
    fn default() -> (state: State)
        ensures
            state == (State {
                acc: 0,
                link: false,
                pc: 0,
                mri: 0,
                mra: 0,
                mrb: 0,
                lsw: 0,
                rsw: 0,
                running: false,
            }),
            state.wf(),
    {
        State {
            acc: 0,
            link: false,
            pc: 0,
            mri: 0,
            mra: 0,
            mrb: 0,
            lsw: 0,
            rsw: 0,
            running: false,
        }
    }
}

/// Fetching at `state.pc`: the instruction word read there, and the state
/// with the program counter advanced (with 12-bit wraparound) and the
/// instruction register loaded.
pub open spec fn spec_fetch(state: State, cells: Seq<u16>) -> (u16, State) {
    let instr = cells[state.pc as int];
    (instr, State { pc: (state.pc + 1) as u16 & MASK_12BIT, mri: instr, ..state })
}

/// Reads memory at the program counter, stores the word in the
/// instruction register, and advances the counter by one with 12-bit
/// wraparound.
pub fn fetch(state: State, memory: &mut Memory) -> (r: (u16, State))
    requires
        state.wf(),
        old(memory).wf(),
    ensures
        *final(memory) == *old(memory),
        r == spec_fetch(state, old(memory).cells()),
        r.0 < 4096,
        r.1.wf(),
{
    let instr = memory.read(state.pc);
    proof {
        lemma_mask12(state.pc);
        lemma_mask12((state.pc + 1) as u16);
    }
    (
        instr,
        State {
            pc: (state.pc + 1) & MASK_12BIT,  // When 13th bit is set (wrapped around) clear back to 0
            mri: instr,
            ..state
        },
    )
}

/// One whole instruction: fetch at the program counter, then execute.
pub fn step(state: State, memory: &mut Memory, devices: &mut Devices) -> (new_state: State)
    requires
        state.wf(),
        old(memory).wf(),
        old(devices).wf(),
    ensures
        final(memory).wf(),
        final(devices).wf(),
        new_state.wf(),
        ({
            let (instr, fetched) = spec_fetch(state, old(memory).cells());
            let e = spec_exec(instr, fetched, old(memory).cells(), old(devices)@);
            &&& new_state == e.state
            &&& final(devices)@ == e.devs
            &&& crate::eight_mode::mem_after_write(*old(memory), e.write, *final(memory))
        }),
{
    let (instr, state) = fetch(state, memory);
    crate::eight_mode::exec(instr, state, memory, devices)
}

/// The controller's whole state as mathematical values: the memory store
/// (live array, change log, initial image), the history of register-state
/// snapshots with the log position each captured, the cursor into that
/// history, and the device slots.
#[verifier::ext_equal]
pub ghost struct MachineView {
    pub cells: Seq<u16>,
    pub log: Seq<MemoryChange>,
    pub init: Seq<u16>,
    pub hist: Seq<(State, int)>,
    pub cur: int,
    pub devs: Seq<Option<Device>>,
}

impl MachineView {
    /// The memory store is well formed, the history holds at least the
    /// seed entry, the cursor is a valid index, every snapshot is well
    /// formed, every captured position lies inside the log, and the 64
    /// device slots hold devices under their own selectors.
    pub open spec fn wf(self) -> bool {
        &&& self.cells.len() == 4096
        &&& self.init.len() == 4096
        &&& (forall|i: int| 0 <= i < 4096 ==> #[trigger] self.cells[i] < 4096)
        &&& (forall|i: int| 0 <= i < 4096 ==> #[trigger] self.init[i] < 4096)
        &&& (forall|i: int| 0 <= i < self.log.len() ==> change_wf(#[trigger] self.log[i]))
        &&& self.cells == cells_at(self.init, self.log, self.log.len() as int)
        &&& self.hist.len() >= 1
        &&& 0 <= self.cur < self.hist.len()
        &&& (forall|i: int|
            0 <= i < self.hist.len() ==> (#[trigger] self.hist[i]).0.wf() && 0 <= self.hist[i].1
                <= self.log.len())
        &&& self.devs.len() == 64
        &&& (forall|i: int|
            0 <= i < 64 && (#[trigger] self.devs[i]) is Some ==> spec_selector(self.devs[i]->0)
                == i)
    }

    /// At the timeline's tip: no undone future entry is available.
    pub open spec fn at_tip(self) -> bool {
        self.cur == self.hist.len() - 1
    }
}

/// What [`PDP12::step`] does to the machine.  At the tip it fetches and
/// executes one instruction against the live store and appends the new
/// snapshot with the log position reached; in the undone past it advances
/// the cursor and re-applies the forward memory effect as a brand-new
/// record, without re-executing the instruction.
pub open spec fn view_step(m: MachineView) -> MachineView {
    if m.at_tip() {
        let (instr, fetched) = spec_fetch(m.hist[m.cur].0, m.cells);
        let e = spec_exec(instr, fetched, m.cells, m.devs);
        let (cells2, log2) = spec_apply_write(m.cells, m.log, e.write);
        MachineView {
            cells: cells2,
            log: log2,
            hist: m.hist.push((e.state, log2.len() as int)),
            cur: m.cur + 1,
            devs: e.devs,
            ..m
        }
    } else {
        let p = m.hist[m.cur + 1].1;
        let rec = m.log[p - 1];
        MachineView {
            cells: m.cells.update(rec.addr as int, rec.now),
            log: m.log.push(
                (MemoryChange { addr: rec.addr, was: m.cells[rec.addr as int], now: rec.now }),
            ),
            cur: m.cur + 1,
            ..m
        }
    }
}

/// The store after the (at most one) logged write of an executed
/// instruction.
pub open spec fn spec_apply_write(
    cells: Seq<u16>,
    log: Seq<MemoryChange>,
    write: Option<(u16, u16)>,
) -> (Seq<u16>, Seq<MemoryChange>) {
    match write {
        None => (cells, log),
        Some((a, v)) => (
            cells.update(a as int, v),
            log.push((MemoryChange { addr: a, was: cells[a as int], now: v })),
        ),
    }
}

/// What [`PDP12::step_back`] does to the machine: while an earlier real
/// step exists, re-apply the backward value of the record captured at the
/// cursor's entry as a brand-new record and retreat the cursor; otherwise
/// nothing.
pub open spec fn view_back(m: MachineView) -> MachineView {
    if m.cur > 1 {
        let p = m.hist[m.cur].1;
        let rec = m.log[p - 1];
        MachineView {
            cells: m.cells.update(rec.addr as int, rec.was),
            log: m.log.push(
                (MemoryChange { addr: rec.addr, was: m.cells[rec.addr as int], now: rec.was }),
            ),
            cur: m.cur - 1,
            ..m
        }
    } else {
        m
    }
}

/// The instruction the tip snapshot would fetch writes exactly one memory
/// cell (a deposit, an increment, or a subroutine store).
pub open spec fn tip_writes(m: MachineView) -> bool {
    let (instr, fetched) = spec_fetch(m.hist[m.cur].0, m.cells);
    spec_exec(instr, fetched, m.cells, m.devs).write is Some
}

/// Each of the next `n` steps, taken from the tip on, fetches an
/// instruction that writes exactly one memory cell.
pub open spec fn writes_chain(m: MachineView, n: nat) -> bool
    decreases n,
{
    n == 0 || (tip_writes(m) && writes_chain(view_step(m), (n - 1) as nat))
}

/// `n` steps forward.
pub open spec fn iter_step(m: MachineView, n: nat) -> MachineView
    decreases n,
{
    if n == 0 {
        m
    } else {
        iter_step(view_step(m), (n - 1) as nat)
    }
}

/// `n` steps backward.
pub open spec fn iter_back(m: MachineView, n: nat) -> MachineView
    decreases n,
{
    if n == 0 {
        m
    } else {
        iter_back(view_back(m), (n - 1) as nat)
    }
}

/// Folding one more record onto the same prefix updates the fold of the
/// prefix.
proof fn lemma_cells_at_snoc(init: Seq<u16>, log: Seq<MemoryChange>, r: MemoryChange)
    ensures
        cells_at(init, log.push(r), log.len() as int + 1) == cells_at(init, log, log.len() as int).update(
            r.addr as int,
            r.now,
        ),
{
    crate::memory::lemma_position_stable(init, log, log.push(r), log.len() as int);
}

/// A step taken at the tip stays at the tip, pushes one history entry,
/// and preserves well-formedness; with a one-write instruction it appends
/// exactly one record whose backward value is the overwritten cell.
proof fn lemma_view_step_tip(m: MachineView)
    requires
        m.wf(),
        m.at_tip(),
    ensures
        view_step(m).wf(),
        view_step(m).at_tip(),
        view_step(m).cur == m.cur + 1,
        view_step(m).init == m.init,
        view_step(m).hist.take(m.cur + 1) == m.hist.take(m.cur + 1),
        view_step(m).hist.len() == m.hist.len() + 1,
        view_step(m).log.len() >= m.log.len(),
        view_step(m).log.take(m.log.len() as int) == m.log,
        tip_writes(m) ==> ({
            let (instr, fetched) = spec_fetch(m.hist[m.cur].0, m.cells);
            let (a, v) = spec_exec(instr, fetched, m.cells, m.devs).write->0;
            &&& view_step(m).log.len() == m.log.len() + 1
            &&& view_step(m).log[m.log.len() as int] == (MemoryChange {
                addr: a,
                was: m.cells[a as int],
                now: v,
            })
            &&& view_step(m).cells == m.cells.update(a as int, v)
            &&& view_step(m).hist[m.cur + 1].1 == m.log.len() + 1
            &&& a < 4096
        }),
    {
    let st0 = m.hist[m.cur].0;
    assert(st0.wf());
    let (instr, fetched) = spec_fetch(st0, m.cells);
    lemma_mask12((st0.pc + 1) as u16);
    assert(fetched.wf());
    let e = spec_exec(instr, fetched, m.cells, m.devs);
    crate::eight_mode::lemma_spec_exec_wf(instr, fetched, m.cells, m.devs);
    let ms = view_step(m);
    match e.write {
        None => {
            assert(ms.hist.take(m.cur + 1) =~= m.hist.take(m.cur + 1));
            assert(ms.log.take(m.log.len() as int) =~= m.log);
        },
        Some((a, v)) => {
            let r = MemoryChange { addr: a, was: m.cells[a as int], now: v };
            lemma_cells_at_snoc(m.init, m.log, r);
            assert(ms.hist.take(m.cur + 1) =~= m.hist.take(m.cur + 1));
            assert(ms.log.take(m.log.len() as int) =~= m.log);
        },
    }
}

/// A step backward preserves well-formedness.
proof fn lemma_view_back_wf(m: MachineView)
    requires
        m.wf(),
        m.cur > 1 ==> m.hist[m.cur].1 >= 1,
    ensures
        view_back(m).wf(),
{
    if m.cur > 1 {
        let p = m.hist[m.cur].1;
        let rec = m.log[p - 1];
        let r = MemoryChange { addr: rec.addr, was: m.cells[rec.addr as int], now: rec.was };
        lemma_cells_at_snoc(m.init, m.log, r);
    }
}

/// Masking invariant: stepping forward (execute or redo) and stepping
/// backward both preserve well-formedness, so in every reachable machine
/// state the accumulator, the program counter, and every memory cell lie
/// in `[0, 4095]`.  The constructors establish `wf`, and every controller
/// operation both requires and re-ensures it.
pub proof fn lemma_masking_invariant(m: MachineView)
    requires
        m.wf(),
        !m.at_tip() ==> m.hist[m.cur + 1].1 >= 1,
        m.cur > 1 ==> m.hist[m.cur].1 >= 1,
    ensures
        view_step(m).wf(),
        view_back(m).wf(),
{
    if m.at_tip() {
        lemma_view_step_tip(m);
    } else {
        let p = m.hist[m.cur + 1].1;
        let rec = m.log[p - 1];
        let r = MemoryChange { addr: rec.addr, was: m.cells[rec.addr as int], now: rec.now };
        lemma_cells_at_snoc(m.init, m.log, r);
    }
    lemma_view_back_wf(m);
}

/// Iterating backward commutes with one leading step backward.
proof fn lemma_iter_back_commute(m: MachineView, n: nat)
    ensures
        iter_back(view_back(m), n) == view_back(iter_back(m, n)),
    decreases n,
{
    if n > 0 {
        lemma_iter_back_commute(view_back(m), (n - 1) as nat);
    }
}

/// Round trip: from the timeline's tip, with at least one earlier real
/// step behind the cursor, stepping forward `n` times and then backward
/// `n` times returns the cursor, the register-state snapshot it points
/// at, and the full memory image to their values before the first step —
/// provided each of the `n` instructions stepped over writes exactly one
/// memory cell.  The log itself only grows: its old records survive
/// unchanged.
pub proof fn lemma_round_trip(m: MachineView, n: nat)
    requires
        m.wf(),
        m.at_tip(),
        m.cur >= 1,
        writes_chain(m, n),
    ensures
        ({
            let m2 = iter_back(iter_step(m, n), n);
            &&& m2.wf()
            &&& m2.cur == m.cur
            &&& m2.hist.take(m.cur + 1) == m.hist.take(m.cur + 1)
            &&& m2.hist[m2.cur] == m.hist[m.cur]
            &&& m2.cells == m.cells
            &&& m2.log.len() >= m.log.len()
            &&& m2.log.take(m.log.len() as int) == m.log
        }),
    decreases n,
{
    if n > 0 {
        let ms = view_step(m);
        lemma_view_step_tip(m);
        lemma_round_trip(ms, (n - 1) as nat);
        let x = iter_step(ms, (n - 1) as nat);
        let y = iter_back(x, (n - 1) as nat);
        lemma_iter_back_commute(x, (n - 1) as nat);
        assert(iter_back(iter_step(m, n), n) == view_back(y));

        let (instr, fetched) = spec_fetch(m.hist[m.cur].0, m.cells);
        let (a, v) = spec_exec(instr, fetched, m.cells, m.devs).write->0;
        let r = MemoryChange { addr: a, was: m.cells[a as int], now: v };
        // The entry the final backward step reads is the one the first
        // forward step pushed, and the record it reverts is the one that
        // step appended.
        assert(y.hist[y.cur] == ms.hist[m.cur + 1]);
        assert(y.hist[y.cur].1 == m.log.len() + 1);
        assert(y.log[m.log.len() as int] == ms.log[m.log.len() as int]);
        assert(ms.log[m.log.len() as int] == r);
        lemma_view_back_wf(y);
        let m2 = view_back(y);
        assert(m2.cells =~= m.cells);
        assert(m2.hist.take(m.cur + 1) =~= m.hist.take(m.cur + 1));
        assert(m2.hist[m.cur] == ms.hist.take(m.cur + 2)[m.cur]);
        assert(m2.log.take(m.log.len() as int) =~= m.log);
    }
}

/// The machine controller: it exclusively owns the memory store, the
/// history of snapshots, and the device registry, and drives
/// fetch-execute, undo, redo, and externally triggered mutation.
pub struct PDP12 {
    pub memory: Memory,
    generations: Vec<(State, usize)>,
    generation: usize,
    pub devices: Devices,
}

impl View for PDP12 {
    type V = MachineView;

    closed spec fn view(&self) -> MachineView {
        MachineView {
            cells: self.memory.cells(),
            log: self.memory.log(),
            init: self.memory.initial(),
            hist: Seq::new(
                self.generations@.len(),
                |i: int| (self.generations@[i].0, self.generations@[i].1 as int),
            ),
            cur: self.generation as int,
            devs: self.devices@,
        }
    }
}

impl PDP12 {
    /// The controller's state is well formed; established by the
    /// constructors and preserved by every operation.
    pub open spec fn wf(&self) -> bool {
        self@.wf()
    }

    /// The memory store as a value, for contracts over the mutation
    /// closure of [`PDP12::change_state`]; its views are the `cells`,
    /// `log` and `init` of the machine's own view.
    pub closed spec fn spec_memory(&self) -> Memory {
        self.memory
    }

    /// The device registry as a value, for the same contracts; its view
    /// is the `devs` of the machine's own view.
    pub closed spec fn spec_devices(&self) -> Devices {
        self.devices
    }

    /// A machine over the given seed state and program image, with an
    /// empty device registry; the history holds the seed entry at
    /// position 0.
    pub fn new(state: State, memory: Memory) -> (machine: PDP12)
        requires
            state.wf(),
            memory.wf(),
        ensures
            machine.wf(),
            machine@.cells == memory.cells(),
            machine@.log == memory.log(),
            machine@.init == memory.initial(),
            machine@.hist == seq![(state, 0int)],
            machine@.cur == 0,
            machine@.devs == Seq::new(64, |i: int| None::<Device>),
    {
        let machine = PDP12 {
            memory,
            generations: vec![(state, 0)],
            generation: 0,
            devices: Devices::empty(),
        };
        proof {
            assert(machine@.hist =~= seq![(state, 0int)]);
        }
        machine
    }

    /// Installs a device in the slot its selector names, replacing any
    /// prior occupant.
    pub fn register_device(&mut self, device: Device)
        requires
            old(self).wf(),
        ensures
            final(self).wf(),
            final(self)@ == (MachineView {
                devs: old(self)@.devs.update(spec_selector(device) as int, Some(device)),
                ..old(self)@
            }),
    {
        self.devices.install(device);
        proof {
            assert(self@ =~= (MachineView {
                devs: old(self)@.devs.update(spec_selector(device) as int, Some(device)),
                ..old(self)@
            }));
        }
    }

    /// Typed host access to one installed device between steps: feeds the
    /// keyboard or drains the teleprinter.  A vacant slot and a device of
    /// the wrong kind are rejected with distinct errors; a rejected
    /// operation changes nothing.
    pub fn operate_device(&mut self, selector: u8, op: DeviceOp) -> (reply: Result<
        DeviceReply,
        DeviceError,
    >)
        requires
            old(self).wf(),
            selector < 64,
        ensures
            final(self).wf(),
            match reply {
                Ok(r) => {
                    &&& Some(r) == spec_operate_reply(old(self)@.devs, selector, op)
                    &&& final(self)@ == (MachineView {
                        devs: spec_operate(old(self)@.devs, selector, op),
                        ..old(self)@
                    })
                },
                Err(DeviceError::NoDevice) => {
                    &&& old(self)@.devs[selector as int] is None
                    &&& *final(self) == *old(self)
                },
                Err(DeviceError::WrongKind) => {
                    &&& old(self)@.devs[selector as int] is Some
                    &&& spec_operate_reply(old(self)@.devs, selector, op) is None
                    &&& *final(self) == *old(self)
                },
            },
            reply is Ok <==> spec_operate_reply(old(self)@.devs, selector, op) is Some,
    {
        let reply = self.devices.operate(selector, op);
        proof {
            if reply is Ok {
                assert(self@ =~= (MachineView {
                    devs: spec_operate(old(self)@.devs, selector, op),
                    ..old(self)@
                }));
            }
        }
        reply
    }

    /// The snapshot the cursor points at, and read access to the memory
    /// store; valid in any cursor position.
    pub fn get_state(&self) -> (r: (State, &Memory))
        requires
            self.wf(),
        ensures
            r.0 == self@.hist[self@.cur].0,
            *r.1 == self.spec_memory(),
            (*r.1).cells() == self@.cells,
            (*r.1).log() == self@.log,
            (*r.1).initial() == self@.init,
            (*r.1).wf(),
            r.0.wf(),
    {
        proof {
            assert(self@.hist[self@.cur].0.wf());
        }
        (self.generations[self.generation].0, &self.memory)
    }

    /// Applies an externally supplied mutation to the current register
    /// state, memory store, and devices, and appends the outcome as a new
    /// history entry — but only at the timeline's tip: in the undone past
    /// the call fails and changes nothing, so redo entries are never
    /// silently invalidated.
    ///
    /// The mutation must leave the pieces well formed and may only append
    /// to the change log.
    pub fn change_state<F: FnOnce(State, Memory, Devices) -> (State, Memory, Devices)>(
        &mut self,
        f: F,
    ) -> (r: Result<(), ()>)
        requires
            old(self).wf(),
            old(self)@.at_tip() ==> call_requires(
                f,
                (old(self)@.hist[old(self)@.cur].0, old(self).spec_memory(), old(self).spec_devices()),
            ),
            forall|s2: State, m2: Memory, d2: Devices|
                call_ensures(
                    f,
                    (old(self)@.hist[old(self)@.cur].0, old(self).spec_memory(), old(self).spec_devices()),
                    (s2, m2, d2),
                ) ==> s2.wf() && m2.wf() && d2.wf() && m2.initial() == old(self)@.init
                    && m2.log().len() >= old(self)@.log.len() && m2.log().take(
                    old(self)@.log.len() as int,
                ) == old(self)@.log,
        ensures
            final(self).wf(),
            r is Err <==> !old(self)@.at_tip(),
            r is Err ==> *final(self) == *old(self),
            r is Ok ==> ({
                &&& call_ensures(
                    f,
                    (old(self)@.hist[old(self)@.cur].0, old(self).spec_memory(), old(self).spec_devices()),
                    (final(self)@.hist.last().0, final(self).spec_memory(), final(self).spec_devices()),
                )
                &&& final(self)@.hist == old(self)@.hist.push(
                    (final(self)@.hist.last().0, final(self)@.log.len() as int),
                )
                &&& final(self)@.cur == old(self)@.hist.len()
                &&& final(self)@.cells == final(self).spec_memory().cells()
                &&& final(self)@.log == final(self).spec_memory().log()
                &&& final(self)@.init == old(self)@.init
                &&& final(self)@.devs == final(self).spec_devices()@
            }),
    {
        if self.generation != self.generations.len() - 1 {
            return Err(());
        }
        let state = self.generations[self.generations.len() - 1].0;
        let mut mem = Memory::default();
        core::mem::swap(&mut mem, &mut self.memory);
        let mut devs = Devices::empty();
        core::mem::swap(&mut devs, &mut self.devices);
        let (newstate, newmem, newdevs) = f(state, mem, devs);
        self.memory = newmem;
        self.devices = newdevs;
        let position = self.memory.generation();
        self.generations.push((newstate, position));
        self.generation = self.generations.len() - 1;
        proof {
            assert(self@.hist =~= old(self)@.hist.push(
                (self@.hist.last().0, self.memory.log().len() as int),
            ));
        }
        Ok(())
    }

    /// One step forward.  At the timeline's tip this fetches and executes
    /// one instruction and appends the new snapshot; in the undone past it
    /// advances the cursor and re-applies the recorded forward memory
    /// effect instead of re-executing.
    pub fn step(&mut self)
        requires
            old(self).wf(),
            !old(self)@.at_tip() ==> old(self)@.hist[old(self)@.cur + 1].1 >= 1,
        ensures
            final(self).wf(),
            final(self)@ == view_step(old(self)@),
    {
        if self.generation == self.generations.len() - 1 {
            let state = self.generations[self.generations.len() - 1].0;
            proof {
                assert(state == self@.hist[self@.cur].0);
            }
            let newstate = step(state, &mut self.memory, &mut self.devices);
            let position = self.memory.generation();
            self.generations.push((newstate, position));
            self.generation = self.generations.len() - 1;
            proof {
                assert(self@ =~= view_step(old(self)@));
            }
        } else {
            self.generation = self.generation + 1;
            let position = self.generations[self.generation].1;
            self.memory.apply(position);
            proof {
                assert(self@ =~= view_step(old(self)@));
            }
        }
    }

    /// One step backward, while the cursor's entry has a prior real step:
    /// re-applies the backward value of the record captured at the
    /// cursor's entry and retreats the cursor.  At the seed or the first
    /// real step this is a no-op.
    pub fn step_back(&mut self)
        requires
            old(self).wf(),
            old(self)@.cur > 1 ==> old(self)@.hist[old(self)@.cur].1 >= 1,
        ensures
            final(self).wf(),
            final(self)@ == view_back(old(self)@),
    {
        if self.generation > 1 {
            let position = self.generations[self.generation].1;
            self.memory.unapply(position);
            self.generation = self.generation - 1;
            proof {
                assert(self@ =~= view_back(old(self)@));
            }
        }
    }
}

impl Default for PDP12 {
    /// A zeroed machine over a zeroed store, with the console keyboard
    /// and teleprinter installed.
    fn default() -> (machine: PDP12)
        ensures
            machine.wf(),
            machine@.cells == Seq::new(4096, |i: int| 0u16),
            machine@.log == Seq::<MemoryChange>::empty(),
            machine@.hist.len() == 1,
            machine@.hist[0].0 == (State {
                acc: 0,
                link: false,
                pc: 0,
                mri: 0,
                mra: 0,
                mrb: 0,
                lsw: 0,
                rsw: 0,
                running: false,
            }),
            machine@.hist[0].1 == 0,
            machine@.cur == 0,
            machine@.devs == Seq::new(64, |i: int| None::<Device>)
                .update(
                crate::consts::KEYBOARD_SELECTOR as int,
                Some(Device::Keyboard((crate::devices::Keyboard { tti: 0, ready: false }))),
            )
                .update(
                crate::consts::TTY_SELECTOR as int,
                Some(Device::Tty((crate::devices::Tty { tto: None, ready: false }))),
            ),
    {
        let mut this = PDP12::new(State::default(), Memory::default());
        this.register_device(Device::Keyboard(crate::devices::Keyboard::new()));
        this.register_device(Device::Tty(crate::devices::Tty::new()));
        this
    }
}

} // verus!

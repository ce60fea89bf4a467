//! The register file of rings and the machine that runs a program on it.

use crate::build::{Program, ProgramView};
use crate::error::{RingsError, RingsErrorView};
use crate::instruction::{Emit, Outcome};
use crate::io::RingsIo;
use crate::MaybeLocalized;
use vstd::prelude::*;

verus! {

/// The position of a ring in the register file, in order of creation.
pub type RingId = u8;

/// The status a halted program leaves behind.
pub type ExitCode = u8;

/// The most rings a machine can hold.
pub const MAX_RINGS: usize = 255;

/// Why an instruction could not be carried out.
#[derive(Clone, Copy, Debug, PartialEq, Eq, Structural)]
pub enum RuntimeError {
    /// No ring with this id has been created.
    InvalidRing(RingId),
    /// A ring needs at least one cell.
    ZeroRingSize,
    /// An arithmetic result, carried here, does not fit in a byte.
    InvalidValue(i32),
    /// The divisor was zero.
    DivideByZero,
    /// The input capability had no byte to give.
    InputFailure,
}

/// What a ring is to a contract: its cells in storage order, and the storage
/// index that logical index 0 names.
pub struct RingView {
    pub offset: nat,
    pub cells: Seq<u8>,
}

impl RingView {
    /// Between 1 and 255 cells, and an offset that names one of them.
    pub open spec fn wf(self) -> bool {
        1 <= self.cells.len() <= 255 && self.offset < self.cells.len()
    }

    /// A fresh ring of `capacity` cells, all zero.
    pub open spec fn zeroed(capacity: nat) -> RingView {
        RingView { offset: 0, cells: Seq::new(capacity, |i: int| 0u8) }
    }

    pub open spec fn capacity(self) -> int {
        self.cells.len() as int
    }

    /// The storage index of the cell at logical index `index`.
    pub open spec fn absolute(self, index: int) -> int {
        (self.offset + self.capacity() - (index % self.capacity())) % self.capacity()
    }

    /// The cell at logical index `index`.
    pub open spec fn read(self, index: int) -> u8 {
        self.cells[self.absolute(index)]
    }

    /// The ring with the cell at logical index `index` set to `value`.
    pub open spec fn write(self, index: int, value: u8) -> RingView {
        RingView { offset: self.offset, cells: self.cells.update(self.absolute(index), value) }
    }

    /// The cell that logical index 0 names.
    pub open spec fn current(self) -> u8 {
        self.read(0)
    }

    /// The ring with its current cell set to `value`.
    pub open spec fn put(self, value: u8) -> RingView {
        self.write(0, value)
    }

    /// The ring turned by `by`: the offset grows by `by`, modulo the capacity.
    /// The cells stay as they are.
    pub open spec fn rotate(self, by: int) -> RingView {
        RingView { offset: ((self.offset + by) % self.capacity()) as nat, cells: self.cells }
    }
}

/// Two numbers that differ by a multiple of `m` leave the same remainder.
proof fn lemma_congruent(x: int, y: int, k: int, m: int)
    requires
        m > 0,
        x == y + m * k,
    ensures
        x % m == y % m,
{
    vstd::arithmetic::div_mod::lemma_mod_multiples_vanish(k, y, m);
}

impl RingView {
    /// Every logical index names a cell of the ring: the index is taken
    /// modulo the ring's own capacity.
    pub proof fn lemma_absolute_in_range(self, index: int)
        requires
            self.wf(),
        ensures
            0 <= self.absolute(index) < self.capacity(),
    {
    }

    /// Turning and writing leave the capacity as it is, and it is never
    /// zero.
    pub proof fn lemma_capacity_is_fixed(self, by: int, index: int, value: u8)
        requires
            self.wf(),
            by >= 0,
        ensures
            self.rotate(by).wf(),
            self.rotate(by).capacity() == self.capacity(),
            self.write(index, value).wf(),
            self.write(index, value).capacity() == self.capacity(),
            self.capacity() >= 1,
    {
    }

    /// Turning a ring changes no cell: it only changes which cell an index
    /// names. After a turn by `by`, the index `index` names the cell that
    /// lies `by` cells further on in storage, which is the cell that
    /// `index - by` named before.
    pub proof fn lemma_rotate_reindexes(self, by: int, index: int)
        requires
            self.wf(),
            by >= 0,
        ensures
            self.rotate(by).cells == self.cells,
            self.rotate(by).absolute(index) == (self.absolute(index) + by) % self.capacity(),
            self.rotate(by).read(index) == self.read(index - by),
    {
        let c = self.capacity();
        let o = self.offset as int;
        let turned = (o + by) % c;
        let r = index % c;
        let a = self.absolute(index);
        let q1 = (o + by) / c;
        let q2 = (o + c - r) / c;
        vstd::arithmetic::div_mod::lemma_fundamental_div_mod(o + by, c);
        vstd::arithmetic::div_mod::lemma_fundamental_div_mod(o + c - r, c);
        assert(c * (q2 - q1) == c * q2 - c * q1) by (nonlinear_arith);
        lemma_congruent(turned + c - r, a + by, q2 - q1, c);
        let r2 = (index - by) % c;
        let q3 = (index - by) / c;
        let q4 = index / c;
        vstd::arithmetic::div_mod::lemma_fundamental_div_mod(index - by, c);
        vstd::arithmetic::div_mod::lemma_fundamental_div_mod(index, c);
        assert(c * (q3 - q4 + q1) == c * q3 - c * q4 + c * q1) by (nonlinear_arith);
        lemma_congruent(o + c - r2, turned + c - r, q3 - q4 + q1, c);
    }

    /// After a turn by `by`, reading at `index` gives what reading at
    /// `index + by` (modulo the capacity) gave before exactly when twice
    /// `by` is a multiple of the capacity: only then do the two indices
    /// name the same cell.
    pub proof fn lemma_rotate_reads_ahead(self, by: int, index: int)
        requires
            self.wf(),
            by >= 0,
        ensures
            (2 * by) % self.capacity() == 0 <==> self.rotate(by).absolute(index) == self.absolute(
                (index + by) % self.capacity(),
            ),
            (2 * by) % self.capacity() == 0 ==> self.rotate(by).read(index) == self.read(
                (index + by) % self.capacity(),
            ),
    {
        let c = self.capacity();
        let o = self.offset as int;
        let turned = (o + by) % c;
        let r = index % c;
        let j = (index + by) % c;
        let q1 = (o + by) / c;
        let q4 = index / c;
        let q5 = (index + by) / c;
        vstd::arithmetic::div_mod::lemma_fundamental_div_mod(o + by, c);
        vstd::arithmetic::div_mod::lemma_fundamental_div_mod(index, c);
        vstd::arithmetic::div_mod::lemma_fundamental_div_mod(index + by, c);
        vstd::arithmetic::div_mod::lemma_small_mod(j as nat, c as nat);
        let x = turned + c - r;
        let y = o + c - j;
        assert(c * (q4 - q1 - q5) == c * q4 - c * q1 - c * q5) by (nonlinear_arith);
        lemma_congruent(x - y, 2 * by, q4 - q1 - q5, c);
        vstd::arithmetic::div_mod::lemma_mod_equivalence(x, y, c);
    }
}

/// A circular array of bytes with a fixed capacity and a rotation offset.
#[derive(Clone, Debug, PartialEq, Eq)]
pub struct Ring {
    rotation_offset: u8,
    values: Vec<u8>,
}

impl View for Ring {
    type V = RingView;

    closed spec fn view(&self) -> RingView {
        RingView { offset: self.rotation_offset as nat, cells: self.values@ }
    }
}

impl Ring {
    /// The capacity is between 1 and 255 and the offset is below it.
    pub open spec fn wf(&self) -> bool {
        self@.wf()
    }

    /// A ring of `capacity` zeroed cells. A ring cannot be empty.
    pub fn new(capacity: u8) -> (r: Result<Self, RuntimeError>)
        ensures
            capacity == 0 ==> r == Err::<Self, RuntimeError>(RuntimeError::ZeroRingSize),
            capacity != 0 ==> r is Ok && r->Ok_0.wf() && r->Ok_0@ == RingView::zeroed(
                capacity as nat,
            ),
    {
        if capacity == 0 {
            return Err(RuntimeError::ZeroRingSize);
        }
        let ring = Self { rotation_offset: 0, values: vec![0u8; capacity as usize] };
        assert(ring@.cells =~= RingView::zeroed(capacity as nat).cells);
        Ok(ring)
    }

    /// The storage index that the logical index `relative` names.
    pub fn get_absolute_index(&self, relative: u8) -> (r: u8)
        requires
            self.wf(),
        ensures
            r as int == self@.absolute(relative as int),
            0 <= r < self@.capacity(),
    {
        let len: u16 = self.values.len() as u16;
        ((self.rotation_offset as u16 + len - (relative as u16 % len)) % len) as u8
    }

    /// Turns the ring by `by`. No cell changes.
    pub fn rotate(&mut self, by: u8)
        requires
            old(self).wf(),
        ensures
            final(self)@ == old(self)@.rotate(by as int),
            final(self).wf(),
    {
        let len: u16 = self.values.len() as u16;
        self.rotation_offset = ((self.rotation_offset as u16 + by as u16) % len) as u8;
    }

    /// The number of cells.
    pub fn len(&self) -> (r: u8)
        requires
            self.wf(),
        ensures
            r as int == self@.capacity(),
            r >= 1,
    {
        self.values.len() as u8
    }

    /// The cell at logical index `index`.
    pub fn index(&self, index: u8) -> (r: &u8)
        requires
            self.wf(),
        ensures
            *r == self@.read(index as int),
    {
        let absolute = self.get_absolute_index(index) as usize;
        &self.values[absolute]
    }

    /// The cell at logical index `index`, to be written through.
    pub fn index_mut(&mut self, index: u8) -> (r: &mut u8)
        requires
            old(self).wf(),
        ensures
            *r == old(self)@.read(index as int),
            final(self)@ == old(self)@.write(index as int, *final(r)),
            final(self).wf(),
    {
        let absolute = self.get_absolute_index(index) as usize;
        &mut self.values[absolute]
    }

    /// The current cell.
    pub fn current(&self) -> (r: &u8)
        requires
            self.wf(),
        ensures
            *r == self@.current(),
    {
        self.index(0)
    }

    /// The current cell, to be written through.
    pub fn current_mut(&mut self) -> (r: &mut u8)
        requires
            old(self).wf(),
        ensures
            *r == old(self)@.current(),
            final(self)@ == old(self)@.put(*final(r)),
            final(self).wf(),
    {
        self.index_mut(0)
    }
}

/// The rings of a register file as contracts see them.
pub open spec fn ring_views(rings: Seq<Ring>) -> Seq<RingView> {
    rings.map_values(|r: Ring| r@)
}

/// The state of a running program: the rings created so far, the index of
/// the next instruction, and the exit code once the program has halted.
#[derive(Debug, PartialEq, Eq)]
pub struct RingsVM {
    pub rings: Vec<Ring>,
    pub pc: usize,
    pub exit_code: Option<ExitCode>,
}

/// A machine as contracts see it.
pub struct VmView {
    pub rings: Seq<RingView>,
    pub pc: usize,
    pub exit_code: Option<ExitCode>,
}

impl View for RingsVM {
    type V = VmView;

    open spec fn view(&self) -> VmView {
        VmView { rings: ring_views(self.rings@), pc: self.pc, exit_code: self.exit_code }
    }
}

impl RingsVM {
    /// At most 255 rings, each of them well formed.
    pub open spec fn wf(&self) -> bool {
        &&& self.rings.len() <= MAX_RINGS
        &&& forall|i: int| 0 <= i < self.rings.len() ==> (#[trigger] self.rings[i]).wf()
    }

    /// The rings as contracts see them.
    pub open spec fn ring_views(&self) -> Seq<RingView> {
        ring_views(self.rings@)
    }

    /// A machine with no rings, about to run the first instruction.
    pub fn new() -> (r: Self)
        ensures
            r.wf(),
            r.rings@.len() == 0,
            r.pc == 0,
            r.exit_code is None,
    {
        Self { rings: Vec::new(), pc: 0, exit_code: None }
    }

    /// Takes up how an instruction said to go on: a jump sets the program
    /// counter, a halt sets the exit code, a failure is handed back.
    pub fn settle(&mut self, outcome: Outcome) -> (r: Result<(), RuntimeError>)
        ensures
            final(self).rings == old(self).rings,
            final(self).pc == match outcome {
                Outcome::Jump(target) => target,
                _ => old(self).pc,
            },
            final(self).exit_code == match outcome {
                Outcome::Halt(code) => Some(code),
                _ => old(self).exit_code,
            },
            r == match outcome {
                Outcome::Fail(error) => Err::<(), RuntimeError>(error),
                _ => Ok(()),
            },
    {
        match outcome {
            Outcome::Continue => Ok(()),
            Outcome::Jump(target) => {
                self.pc = target;
                Ok(())
            },
            Outcome::Halt(code) => {
                self.exit_code = Some(code);
                Ok(())
            },
            Outcome::Fail(error) => Err(error),
        }
    }

    /// The ring with id `index`, to be changed in place.
    pub fn get_ring(&mut self, index: RingId) -> (r: Result<&mut Ring, RuntimeError>)
        ensures
            match r {
                Ok(ring) => {
                    &&& (index as int) < old(self).rings.len()
                    &&& *ring == old(self).rings[index as int]
                    &&& final(self).rings@ == old(self).rings@.update(index as int, *final(ring))
                    &&& final(self).pc == old(self).pc
                    &&& final(self).exit_code == old(self).exit_code
                },
                Err(e) => {
                    &&& (index as int) >= old(self).rings.len()
                    &&& e == RuntimeError::InvalidRing(index)
                    &&& *final(self) == *old(self)
                },
            },
    {
        if (index as usize) < self.rings.len() {
            Ok(&mut self.rings[index as usize])
        } else {
            Err(RuntimeError::InvalidRing(index))
        }
    }

    /// The current cell of the ring with id `index`.
    pub fn read_current(&self, index: RingId) -> (r: Result<u8, RuntimeError>)
        requires
            self.wf(),
        ensures
            r == if (index as int) < self.rings.len() {
                Ok::<u8, RuntimeError>(self.ring_views()[index as int].current())
            } else {
                Err(RuntimeError::InvalidRing(index))
            },
    {
        if (index as usize) < self.rings.len() {
            Ok(*self.rings[index as usize].current())
        } else {
            Err(RuntimeError::InvalidRing(index))
        }
    }

    /// Sets the current cell of the ring with id `index`.
    pub fn write_current(&mut self, index: RingId, value: u8) -> (r: Result<(), RuntimeError>)
        requires
            old(self).wf(),
        ensures
            final(self).wf(),
            final(self).pc == old(self).pc,
            final(self).exit_code == old(self).exit_code,
            (index as int) < old(self).rings.len() ==> r is Ok && final(self).ring_views()
                == old(self).ring_views().update(
                index as int,
                old(self).ring_views()[index as int].put(value),
            ),
            (index as int) >= old(self).rings.len() ==> r == Err::<(), RuntimeError>(
                RuntimeError::InvalidRing(index),
            ) && *final(self) == *old(self),
    {
        match self.get_ring(index) {
            Ok(ring) => {
                *ring.current_mut() = value;
                proof {
                    assert(final(self).ring_views() =~= old(self).ring_views().update(
                        index as int,
                        old(self).ring_views()[index as int].put(value),
                    ));
                }
                Ok(())
            },
            Err(e) => Err(e),
        }
    }
}

/// How a run stands: `Ok(None)` while the program is running, `Ok(Some(code))`
/// once it has ended, and the error of the instruction that failed, at the
/// position of its statement if the program keeps positions.
pub type RunView = MaybeLocalized<Result<Option<ExitCode>, RingsErrorView>>;

/// The view of how a run stands.
pub open spec fn run_view(r: MaybeLocalized<Result<Option<ExitCode>, RingsError>>) -> RunView {
    r.with(
        match r.value() {
            Ok(code) => Ok::<Option<ExitCode>, RingsErrorView>(code),
            Err(e) => Err(e@),
        },
    )
}

/// What one cycle of the machine gives: the machine after it, how the run
/// stands, and the byte that was sent out, if any.
pub struct Turn {
    pub vm: VmView,
    pub result: RunView,
    pub emit: Emit,
}

/// The machine keeps running.
pub open spec fn running(result: RunView) -> bool {
    result == MaybeLocalized::General(Ok::<Option<ExitCode>, RingsErrorView>(None))
}

/// One cycle of the machine `vm` on `program`, where `input` is what the
/// input capability gives if it is asked.
///
/// A machine that has halted stays as it is. A program counter past the end
/// of the program ends the run with exit code 0. Else the instruction at the
/// program counter is fetched, the counter moves on by one, and the
/// instruction is carried out: a jump sets the counter, a halt sets the exit
/// code and ends the run, a failure ends it with the error.
pub open spec fn turn(program: ProgramView, vm: VmView, input: Option<u8>) -> Turn {
    if vm.exit_code is Some {
        Turn { vm, result: MaybeLocalized::General(Ok(vm.exit_code)), emit: Emit::Nothing }
    } else {
        match program.get(vm.pc as int) {
            None => Turn {
                vm,
                result: MaybeLocalized::General(Ok(Some(0u8))),
                emit: Emit::Nothing,
            },
            Some(located) => {
                let fetched = VmView { pc: (vm.pc + 1) as usize, ..vm };
                let done = located.value().run_on(fetched, input);
                Turn {
                    vm: done.0,
                    result: match done.1 {
                        Err(e) => located.with(
                            Err::<Option<ExitCode>, RingsErrorView>(RingsErrorView::Runtime(e)),
                        ),
                        Ok(()) => MaybeLocalized::General(Ok(done.0.exit_code)),
                    },
                    emit: located.value().effect(fetched.rings, input).emit,
                }
            },
        }
    }
}

/// The next cycle asks the input capability for a byte.
pub open spec fn awaits_input(program: ProgramView, vm: VmView) -> bool {
    vm.exit_code is None && match program.get(vm.pc as int) {
        Some(located) => located.value().reads_input(),
        None => false,
    }
}

/// One cycle with the input `input` leads from `before` to `after` and
/// leaves the run at `result`.
pub open spec fn turned(
    program: ProgramView,
    before: VmView,
    input: Option<u8>,
    after: VmView,
    result: RunView,
) -> bool {
    turn(program, before, input).vm == after && turn(program, before, input).result == result
}

/// As many cycles as `inputs` has elements, or fewer if the run ends before
/// that: cycle `k` is given `inputs[k]`. The emitted byte is that of the
/// last cycle.
pub open spec fn run(program: ProgramView, vm: VmView, inputs: Seq<Option<u8>>) -> Turn
    decreases inputs.len(),
{
    if inputs.len() == 0 {
        Turn { vm, result: MaybeLocalized::General(Ok(None)), emit: Emit::Nothing }
    } else {
        let before = run(program, vm, inputs.drop_last());
        if running(before.result) {
            turn(program, before.vm, inputs.last())
        } else {
            before
        }
    }
}

/// A run of at most `max_steps` cycles with the inputs `inputs` leads from
/// `before` to `after` and stands at `result`; it is still running only if
/// all the cycles were used.
pub open spec fn ran(
    program: ProgramView,
    before: VmView,
    inputs: Seq<Option<u8>>,
    max_steps: nat,
    after: VmView,
    result: RunView,
) -> bool {
    &&& inputs.len() <= max_steps
    &&& run(program, before, inputs).vm == after
    &&& run(program, before, inputs).result == result
    &&& running(result) ==> inputs.len() == max_steps
}

impl RingsVM {
    /// One cycle of the machine, given what the input capability returned:
    /// how the run stands after it, and the byte to send out, if any.
    pub fn advance(&mut self, program: &Program, input: Option<u8>) -> (r: (
        MaybeLocalized<Result<Option<ExitCode>, RingsError>>,
        Emit,
    ))
        requires
            old(self).wf(),
        ensures
            final(self).wf(),
            final(self)@ == turn(program@, old(self)@, input).vm,
            run_view(r.0) == turn(program@, old(self)@, input).result,
            r.1 == turn(program@, old(self)@, input).emit,
    {
        if self.exit_code.is_some() {
            return (MaybeLocalized::General(Ok(self.exit_code)), Emit::Nothing);
        }
        let instr = match program.get(self.pc) {
            None => {
                return (MaybeLocalized::General(Ok(Some(0))), Emit::Nothing);
            },
            Some(instr) => instr,
        };
        proof {
            program.lemma_len_fits();
        }
        self.pc += 1;
        let (outcome, emit) = instr.value_of().apply(self, input);
        match self.settle(outcome) {
            Err(e) => (instr.transform(Err(RingsError::Runtime(e))), emit),
            Ok(()) => (MaybeLocalized::General(Ok(self.exit_code)), emit),
        }
    }

    /// One cycle of the machine with `io` as its capability. Whatever `io`
    /// returns, the cycle is the one that `turn` describes for that value;
    /// `io` is asked for input only by `INP`.
    pub fn step<I: RingsIo>(&mut self, program: &Program, io: &mut I) -> (r: MaybeLocalized<
        Result<Option<ExitCode>, RingsError>,
    >)
        requires
            old(self).wf(),
        ensures
            final(self).wf(),
            exists|input: Option<u8>|
                turned(program@, old(self)@, input, final(self)@, run_view(r)),
            !awaits_input(program@, old(self)@) ==> turned(
                program@,
                old(self)@,
                None,
                final(self)@,
                run_view(r),
            ),
    {
        if self.exit_code.is_some() {
            let r = MaybeLocalized::General(Ok(self.exit_code));
            assert(turned(program@, old(self)@, None, self@, run_view(r)));
            return r;
        }
        let instr = match program.get(self.pc) {
            None => {
                let r = MaybeLocalized::General(Ok(Some(0)));
                assert(turned(program@, old(self)@, None, self@, run_view(r)));
                return r;
            },
            Some(instr) => instr,
        };
        proof {
            program.lemma_len_fits();
        }
        self.pc += 1;
        let ghost fetched = self@;
        let instruction = instr.value_of();
        let done = instruction.execute(self, io);
        let r = match done {
            Err(e) => instr.transform(Err(RingsError::Runtime(e))),
            Ok(()) => MaybeLocalized::General(Ok(self.exit_code)),
        };
        proof {
            let input = choose|input: Option<u8>|
                (self@, done) == #[trigger] instruction.run_on(fetched, input);
            assert(turned(program@, old(self)@, input, self@, run_view(r)));
        }
        r
    }

    /// Runs the machine on `program` for at most `max_steps` cycles, from
    /// where it stands. The result is `Ok(Some(code))` once the program has
    /// ended, `Ok(None)` if it is still running when the cycles are used up,
    /// and the error of the instruction that failed.
    ///
    /// Whatever `io` returned, the run is the one that `run` describes for
    /// those values. After a failure the program counter stands one past the
    /// instruction that failed.
    pub fn resume<I: RingsIo>(&mut self, program: &Program, io: &mut I, max_steps: usize) -> (r:
        MaybeLocalized<Result<Option<ExitCode>, RingsError>>)
        requires
            old(self).wf(),
        ensures
            final(self).wf(),
            exists|inputs: Seq<Option<u8>>|
                ran(program@, old(self)@, inputs, max_steps as nat, final(self)@, run_view(r)),
    {
        let mut taken: usize = 0;
        let ghost mut inputs: Seq<Option<u8>> = Seq::empty();
        while taken < max_steps
            invariant
                self.wf(),
                taken <= max_steps,
                inputs.len() == taken,
                run(program@, old(self)@, inputs).vm == self@,
                running(run(program@, old(self)@, inputs).result),
            decreases max_steps - taken,
        {
            let ghost before = self@;
            let r = self.step(program, io);
            proof {
                let input = choose|input: Option<u8>|
                    turned(program@, before, input, self@, run_view(r));
                assert(inputs.push(input).drop_last() =~= inputs);
                inputs = inputs.push(input);
            }
            taken += 1;
            let go_on = match &r {
                MaybeLocalized::General(Ok(None)) => true,
                _ => false,
            };
            if !go_on {
                proof {
                    assert(ran(program@, old(self)@, inputs, max_steps as nat, self@, run_view(r)));
                }
                return r;
            }
        }
        let r = MaybeLocalized::General(Ok(None));
        proof {
            assert(ran(program@, old(self)@, inputs, max_steps as nat, self@, run_view(r)));
        }
        r
    }

    /// Runs `program` on a fresh machine for at most `max_steps` cycles.
    /// The result is `Ok(Some(code))` once the program has ended (0 if it
    /// ran past its last instruction), `Ok(None)` if it is still running
    /// when the cycles are used up, and the error of the instruction that
    /// failed, at the position of its statement if the program keeps
    /// positions.
    pub fn execute<I: RingsIo>(program: &Program, io: &mut I, max_steps: usize) -> (r:
        MaybeLocalized<Result<Option<ExitCode>, RingsError>>)
        ensures
            exists|inputs: Seq<Option<u8>>, last: VmView|
                ran(
                    program@,
                    VmView { rings: Seq::empty(), pc: 0, exit_code: None },
                    inputs,
                    max_steps as nat,
                    last,
                    run_view(r),
                ),
    {
        let mut vm = Self::new();
        assert(vm@.rings =~= Seq::empty());
        let r = vm.resume(program, io, max_steps);
        proof {
            let inputs = choose|inputs: Seq<Option<u8>>|
                ran(
                    program@,
                    VmView { rings: Seq::empty(), pc: 0, exit_code: None },
                    inputs,
                    max_steps as nat,
                    vm@,
                    run_view(r),
                );
            assert(ran(
                program@,
                VmView { rings: Seq::empty(), pc: 0, exit_code: None },
                inputs,
                max_steps as nat,
                vm@,
                run_view(r),
            ));
        }
        r
    }
}

/// A run on input that is known beforehand, as contracts see it: the
/// machine and the result as in [`Turn`], how many bytes of the input were
/// asked for, and the bytes sent to output and to error output, in order.
pub struct Play {
    pub vm: VmView,
    pub result: RunView,
    pub consumed: nat,
    pub output: Seq<u8>,
    pub errors: Seq<u8>,
}

/// The bytes that a cycle adds to the output.
pub open spec fn to_output(emit: Emit) -> Seq<u8> {
    match emit {
        Emit::Output(value) => seq![value],
        _ => Seq::empty(),
    }
}

/// The bytes that a cycle adds to the error output.
pub open spec fn to_errors(emit: Emit) -> Seq<u8> {
    match emit {
        Emit::Error(value) => seq![value],
        _ => Seq::empty(),
    }
}

/// At most `steps` cycles of the machine `vm` on `program`, where every
/// `INP` takes the next byte of `input`, and fails once `input` is used up.
pub open spec fn play(program: ProgramView, vm: VmView, input: Seq<u8>, steps: nat) -> Play
    decreases steps,
{
    if steps == 0 {
        Play {
            vm,
            result: MaybeLocalized::General(Ok(None)),
            consumed: 0,
            output: Seq::empty(),
            errors: Seq::empty(),
        }
    } else {
        let before = play(program, vm, input, (steps - 1) as nat);
        if !running(before.result) {
            before
        } else {
            let asks = awaits_input(program, before.vm);
            let given = if asks && before.consumed < input.len() {
                Some(input[before.consumed as int])
            } else {
                None
            };
            let cycle = turn(program, before.vm, given);
            Play {
                vm: cycle.vm,
                result: cycle.result,
                consumed: if asks {
                    before.consumed + 1
                } else {
                    before.consumed
                },
                output: before.output + to_output(cycle.emit),
                errors: before.errors + to_errors(cycle.emit),
            }
        }
    }
}

/// A run that has ended stays as it is, however many cycles it is given.
pub proof fn lemma_play_stays_ended(
    program: ProgramView,
    vm: VmView,
    input: Seq<u8>,
    ended: nat,
    steps: nat,
)
    requires
        ended <= steps,
        !running(play(program, vm, input, ended).result),
    ensures
        play(program, vm, input, steps) == play(program, vm, input, ended),
    decreases steps,
{
    if steps > ended {
        lemma_play_stays_ended(program, vm, input, ended, (steps - 1) as nat);
    }
}

/// What a run on known input gave: how the run stands, how many bytes of
/// the input were asked for, and the bytes sent out.
#[derive(Debug, PartialEq, Eq)]
pub struct Playback {
    pub result: MaybeLocalized<Result<Option<ExitCode>, RingsError>>,
    pub consumed: usize,
    pub output: Vec<u8>,
    pub errors: Vec<u8>,
}

impl RingsVM {
    /// Whether the next cycle asks the input capability for a byte.
    pub fn awaits_input(&self, program: &Program) -> (r: bool)
        ensures
            r == awaits_input(program@, self@),
    {
        if self.exit_code.is_some() {
            return false;
        }
        match program.get(self.pc) {
            Some(instr) => instr.value_of().needs_input(),
            None => false,
        }
    }

    /// Runs the machine on `program` for at most `max_steps` cycles, from
    /// where it stands, with `input` as all the input there is: every `INP`
    /// takes the next byte of it and fails once it is used up. The bytes
    /// that the program sends out are gathered in order.
    pub fn play(&mut self, program: &Program, input: &Vec<u8>, max_steps: usize) -> (r: Playback)
        requires
            old(self).wf(),
        ensures
            final(self).wf(),
            final(self)@ == play(program@, old(self)@, input@, max_steps as nat).vm,
            run_view(r.result) == play(program@, old(self)@, input@, max_steps as nat).result,
            r.consumed == play(program@, old(self)@, input@, max_steps as nat).consumed,
            r.output@ == play(program@, old(self)@, input@, max_steps as nat).output,
            r.errors@ == play(program@, old(self)@, input@, max_steps as nat).errors,
    {
        let mut taken: usize = 0;
        let mut consumed: usize = 0;
        let mut output: Vec<u8> = Vec::new();
        let mut errors: Vec<u8> = Vec::new();
        while taken < max_steps
            invariant
                self.wf(),
                taken <= max_steps,
                consumed <= taken,
                play(program@, old(self)@, input@, taken as nat) == (Play {
                    vm: self@,
                    result: MaybeLocalized::General(Ok(None)),
                    consumed: consumed as nat,
                    output: output@,
                    errors: errors@,
                }),
            decreases max_steps - taken,
        {
            let asks = self.awaits_input(program);
            let given = if asks && consumed < input.len() {
                Some(input[consumed])
            } else {
                None
            };
            if asks {
                consumed += 1;
            }
            let ghost sent = (output@, errors@);
            let (result, emit) = self.advance(program, given);
            match emit {
                Emit::Nothing => {},
                Emit::Output(value) => output.push(value),
                Emit::Error(value) => errors.push(value),
            }
            proof {
                assert(output@ =~= sent.0 + to_output(emit));
                assert(errors@ =~= sent.1 + to_errors(emit));
            }
            taken += 1;
            let go_on = match &result {
                MaybeLocalized::General(Ok(None)) => true,
                _ => false,
            };
            if !go_on {
                proof {
                    lemma_play_stays_ended(
                        program@,
                        old(self)@,
                        input@,
                        taken as nat,
                        max_steps as nat,
                    );
                }
                return Playback { result, consumed, output, errors };
            }
        }
        Playback { result: MaybeLocalized::General(Ok(None)), consumed, output, errors }
    }
}

/// A cycle that does not ask for input is the same whatever the input
/// capability would have given.
pub proof fn lemma_turn_ignores_input(
    program: ProgramView,
    vm: VmView,
    first: Option<u8>,
    second: Option<u8>,
)
    requires
        !awaits_input(program, vm),
    ensures
        turn(program, vm, first) == turn(program, vm, second),
{
    if vm.exit_code is None {
        match program.get(vm.pc as int) {
            Some(located) => {
                let fetched = VmView { pc: (vm.pc + 1) as usize, ..vm };
                located.value().lemma_effect_ignores_input(fetched.rings, first, second);
            },
            None => {},
        }
    }
}

/// No instruction of the program asks for input.
pub open spec fn never_reads(program: ProgramView) -> bool {
    forall|i: int| 0 <= i < program.len() ==> !(#[trigger] program.instruction(i)).reads_input()
}

/// A program without `INP` runs the same way whatever the input capability
/// would give: its run depends on the number of cycles alone.
pub proof fn lemma_run_without_input(
    program: ProgramView,
    vm: VmView,
    first: Seq<Option<u8>>,
    second: Seq<Option<u8>>,
)
    requires
        never_reads(program),
        first.len() == second.len(),
    ensures
        run(program, vm, first) == run(program, vm, second),
    decreases first.len(),
{
    if first.len() > 0 {
        lemma_run_without_input(program, vm, first.drop_last(), second.drop_last());
        let before = run(program, vm, first.drop_last());
        if running(before.result) {
            if before.vm.exit_code is None && program.get(before.vm.pc as int) is Some {
                assert(program.get(before.vm.pc as int)->Some_0.value() == program.instruction(
                    before.vm.pc as int,
                ));
            }
            lemma_turn_ignores_input(program, before.vm, first.last(), second.last());
        }
    }
}

/// The exit code is set once and by `HLT` alone: a machine that has halted
/// stays exactly as it is, and a cycle sets the exit code only if the
/// instruction it carried out is a `HLT`, to the code that the `HLT` names.
pub proof fn lemma_exit_code_is_set_by_halt_alone(
    program: ProgramView,
    vm: VmView,
    input: Option<u8>,
)
    ensures
        vm.exit_code is Some ==> turn(program, vm, input).vm == vm,
        vm.exit_code is None && turn(program, vm, input).vm.exit_code is Some ==> program.get(
            vm.pc as int,
        ) is Some && program.get(vm.pc as int)->Some_0.value() == crate::instruction::Instruction::HLT(
            turn(program, vm, input).vm.exit_code->Some_0,
        ),
{
}

/// A run that has ended stays where it is: more cycles change neither the
/// machine nor the result.
pub proof fn lemma_run_stays_ended(program: ProgramView, vm: VmView, inputs: Seq<Option<u8>>)
    requires
        inputs.len() > 0,
        !running(run(program, vm, inputs.drop_last()).result),
    ensures
        run(program, vm, inputs) == run(program, vm, inputs.drop_last()),
{
}

} // verus!

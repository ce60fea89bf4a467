//! The sixteen instructions: their mnemonics, their operands, and what each
//! does to the rings.

use crate::io::RingsIo;
use crate::vm::{Ring, RingId, RingView, RingsVM, RuntimeError, VmView, MAX_RINGS};
use vstd::prelude::*;

verus! {

/// An instruction's position in a program.
pub type Label = usize;

/// A byte written in the source.
pub type Literal = u8;

/// Why a mnemonic or an instruction is not acceptable.
#[derive(Clone, Copy, Debug, PartialEq, Eq)]
pub enum InstructionError {
    /// These three characters name no instruction.
    InvalidInstructionPrimitive((char, char, char)),
    /// A ring needs at least one cell.
    ZeroRingLength,
}

/// The sixteen mnemonics.
#[derive(Clone, Copy, Debug, PartialEq, Eq, Structural)]
pub enum InstructionPrimitive {
    MKR,
    PUT,
    ROT,
    SWP,
    INP,
    OUT,
    ERR,
    ADD,
    SUB,
    MUL,
    DIV,
    JMP,
    JEQ,
    JGT,
    JLT,
    HLT,
}

/// The upper-case form of an ASCII lower-case letter; any other character
/// as it is.
pub open spec fn ascii_upper(c: char) -> char {
    if 'a' <= c && c <= 'z' {
        ((c as u8) - 32) as char
    } else {
        c
    }
}

/// The upper-case form of an ASCII lower-case letter; any other character
/// as it is.
pub fn to_ascii_upper(c: char) -> (r: char)
    ensures
        r == ascii_upper(c),
{
    if 'a' <= c && c <= 'z' {
        ((c as u8) - 32) as char
    } else {
        c
    }
}

impl InstructionPrimitive {
    /// How many arguments the mnemonic takes in the source.
    pub open spec fn num_args(self) -> u8 {
        match self {
            Self::MKR | Self::INP | Self::OUT | Self::ERR | Self::JMP | Self::HLT => 1,
            Self::PUT | Self::ROT | Self::SWP => 2,
            Self::ADD | Self::SUB | Self::MUL | Self::DIV | Self::JEQ | Self::JGT | Self::JLT => 3,
        }
    }

    /// The mnemonic that three upper-case letters spell, if any.
    pub open spec fn from_upper(a: char, b: char, c: char) -> Option<Self> {
        if (a, b, c) == ('M', 'K', 'R') {
            Some(Self::MKR)
        } else if (a, b, c) == ('P', 'U', 'T') {
            Some(Self::PUT)
        } else if (a, b, c) == ('R', 'O', 'T') {
            Some(Self::ROT)
        } else if (a, b, c) == ('S', 'W', 'P') {
            Some(Self::SWP)
        } else if (a, b, c) == ('I', 'N', 'P') {
            Some(Self::INP)
        } else if (a, b, c) == ('O', 'U', 'T') {
            Some(Self::OUT)
        } else if (a, b, c) == ('E', 'R', 'R') {
            Some(Self::ERR)
        } else if (a, b, c) == ('A', 'D', 'D') {
            Some(Self::ADD)
        } else if (a, b, c) == ('S', 'U', 'B') {
            Some(Self::SUB)
        } else if (a, b, c) == ('M', 'U', 'L') {
            Some(Self::MUL)
        } else if (a, b, c) == ('D', 'I', 'V') {
            Some(Self::DIV)
        } else if (a, b, c) == ('J', 'M', 'P') {
            Some(Self::JMP)
        } else if (a, b, c) == ('J', 'E', 'Q') {
            Some(Self::JEQ)
        } else if (a, b, c) == ('J', 'G', 'T') {
            Some(Self::JGT)
        } else if (a, b, c) == ('J', 'L', 'T') {
            Some(Self::JLT)
        } else if (a, b, c) == ('H', 'L', 'T') {
            Some(Self::HLT)
        } else {
            None
        }
    }

    /// The mnemonic that three characters spell, whatever their case.
    pub open spec fn parse(value: (char, char, char)) -> Option<Self> {
        Self::from_upper(ascii_upper(value.0), ascii_upper(value.1), ascii_upper(value.2))
    }

    /// How many arguments the mnemonic takes in the source.
    pub fn get_num_args(&self) -> (r: u8)
        ensures
            r == self.num_args(),
            1 <= r <= 3,
    {
        match self {
            Self::MKR => 1,
            Self::PUT => 2,
            Self::ROT => 2,
            Self::SWP => 2,
            Self::INP => 1,
            Self::OUT => 1,
            Self::ERR => 1,
            Self::ADD => 3,
            Self::SUB => 3,
            Self::MUL => 3,
            Self::DIV => 3,
            Self::JMP => 1,
            Self::JEQ => 3,
            Self::JGT => 3,
            Self::JLT => 3,
            Self::HLT => 1,
        }
    }
}

impl TryFrom<(char, char, char)> for InstructionPrimitive {
    type Error = InstructionError;

    /// Reads three characters as a mnemonic, whatever their case.
    fn try_from(value: (char, char, char)) -> (r: Result<Self, InstructionError>) {
        let a = to_ascii_upper(value.0);
        let b = to_ascii_upper(value.1);
        let c = to_ascii_upper(value.2);
        if a == 'M' && b == 'K' && c == 'R' {
            Ok(Self::MKR)
        } else if a == 'P' && b == 'U' && c == 'T' {
            Ok(Self::PUT)
        } else if a == 'R' && b == 'O' && c == 'T' {
            Ok(Self::ROT)
        } else if a == 'S' && b == 'W' && c == 'P' {
            Ok(Self::SWP)
        } else if a == 'I' && b == 'N' && c == 'P' {
            Ok(Self::INP)
        } else if a == 'O' && b == 'U' && c == 'T' {
            Ok(Self::OUT)
        } else if a == 'E' && b == 'R' && c == 'R' {
            Ok(Self::ERR)
        } else if a == 'A' && b == 'D' && c == 'D' {
            Ok(Self::ADD)
        } else if a == 'S' && b == 'U' && c == 'B' {
            Ok(Self::SUB)
        } else if a == 'M' && b == 'U' && c == 'L' {
            Ok(Self::MUL)
        } else if a == 'D' && b == 'I' && c == 'V' {
            Ok(Self::DIV)
        } else if a == 'J' && b == 'M' && c == 'P' {
            Ok(Self::JMP)
        } else if a == 'J' && b == 'E' && c == 'Q' {
            Ok(Self::JEQ)
        } else if a == 'J' && b == 'G' && c == 'T' {
            Ok(Self::JGT)
        } else if a == 'J' && b == 'L' && c == 'T' {
            Ok(Self::JLT)
        } else if a == 'H' && b == 'L' && c == 'T' {
            Ok(Self::HLT)
        } else {
            Err(InstructionError::InvalidInstructionPrimitive(value))
        }
    }
}

impl vstd::std_specs::convert::TryFromSpecImpl<(char, char, char)> for InstructionPrimitive {
    open spec fn obeys_try_from_spec() -> bool {
        true
    }

    open spec fn try_from_spec(value: (char, char, char)) -> Result<Self, InstructionError> {
        match Self::parse(value) {
            Some(p) => Ok(p),
            None => Err(InstructionError::InvalidInstructionPrimitive(value)),
        }
    }
}

/// A fully resolved instruction: every operand is a byte, a ring id or the
/// index of the instruction to jump to.
#[derive(Clone, Copy, Debug, PartialEq, Eq, Structural)]
pub enum Instruction {
    MKR(Literal),
    PUT(RingId, Literal),
    ROT(RingId, Literal),
    SWP(RingId, RingId),
    INP(RingId),
    OUT(RingId),
    ERR(RingId),
    ADD(RingId, RingId, RingId),
    SUB(RingId, RingId, RingId),
    MUL(RingId, RingId, RingId),
    DIV(RingId, RingId, RingId),
    JMP(Label),
    JEQ(RingId, RingId, Label),
    JGT(RingId, RingId, Label),
    JLT(RingId, RingId, Label),
    HLT(Literal),
}

/// How the machine goes on after an instruction.
#[derive(Clone, Copy, Debug, PartialEq, Eq, Structural)]
pub enum Outcome {
    /// With the next instruction.
    Continue,
    /// With the instruction at this index.
    Jump(Label),
    /// Not at all: the program ends with this exit code.
    Halt(Literal),
    /// Not at all: the instruction failed.
    Fail(RuntimeError),
}

/// The byte an instruction sends out, if any, and where to.
#[derive(Clone, Copy, Debug, PartialEq, Eq, Structural)]
pub enum Emit {
    Nothing,
    /// To the output capability.
    Output(u8),
    /// To the error-output capability.
    Error(u8),
}

/// Everything an instruction does: the rings it leaves, how the machine goes
/// on, and what is sent out.
pub struct Effect {
    pub rings: Seq<RingView>,
    pub outcome: Outcome,
    pub emit: Emit,
}

/// The four arithmetic instructions.
pub enum Arith {
    Add,
    Sub,
    Mul,
    Div,
}

impl Arith {
    /// Carries the operation out on two bytes.
    pub fn compute(&self, x: u8, y: u8) -> (r: Result<u8, RuntimeError>)
        ensures
            r == self.eval(x, y),
    {
        let exact: i32 = match self {
            Arith::Add => x as i32 + y as i32,
            Arith::Sub => x as i32 - y as i32,
            Arith::Mul => {
                assert(0 <= (x as int) * (y as int) <= 255 * 255) by (nonlinear_arith)
                    requires
                        0 <= x as int <= 255,
                        0 <= y as int <= 255,
                ;
                x as i32 * y as i32
            },
            Arith::Div => {
                if y == 0 {
                    return Err(RuntimeError::DivideByZero);
                }
                x as i32 / y as i32
            },
        };
        if 0 <= exact && exact <= 255 {
            Ok(exact as u8)
        } else {
            Err(RuntimeError::InvalidValue(exact))
        }
    }

    /// The exact result over the integers; the divisor is not zero.
    pub open spec fn exact(self, x: int, y: int) -> int {
        match self {
            Arith::Add => x + y,
            Arith::Sub => x - y,
            Arith::Mul => x * y,
            Arith::Div => x / y,
        }
    }

    /// The result as a byte. Division by zero fails, and so does a result
    /// outside 0..=255: nothing wraps around.
    pub open spec fn eval(self, x: u8, y: u8) -> Result<u8, RuntimeError> {
        if self is Div && y == 0 {
            Err(RuntimeError::DivideByZero)
        } else if 0 <= self.exact(x as int, y as int) <= 255 {
            Ok(self.exact(x as int, y as int) as u8)
        } else {
            Err(RuntimeError::InvalidValue(self.exact(x as int, y as int) as i32))
        }
    }
}

/// The three conditions a jump can depend on.
pub enum Relation {
    Equal,
    Greater,
    Less,
}

impl Relation {
    /// Tests the relation on two bytes.
    pub fn test(&self, x: u8, y: u8) -> (r: bool)
        ensures
            r == self.holds(x, y),
    {
        match self {
            Relation::Equal => x == y,
            Relation::Greater => x > y,
            Relation::Less => x < y,
        }
    }

    pub open spec fn holds(self, x: u8, y: u8) -> bool {
        match self {
            Relation::Equal => x == y,
            Relation::Greater => x > y,
            Relation::Less => x < y,
        }
    }
}

/// A ring with this id exists.
pub open spec fn has_ring(rings: Seq<RingView>, id: RingId) -> bool {
    (id as int) < rings.len()
}

/// The rings with the current cell of ring `id` set to `value`.
pub open spec fn put_current(rings: Seq<RingView>, id: RingId, value: u8) -> Seq<RingView> {
    rings.update(id as int, rings[id as int].put(value))
}

/// The instruction changed nothing and failed with `error`.
pub open spec fn failed(rings: Seq<RingView>, error: RuntimeError) -> Effect {
    Effect { rings, outcome: Outcome::Fail(error), emit: Emit::Nothing }
}

/// The instruction left `rings` and the machine goes on with the next one.
pub open spec fn went_on(rings: Seq<RingView>) -> Effect {
    Effect { rings, outcome: Outcome::Continue, emit: Emit::Nothing }
}

/// Ring `c` receives the result of `op` on the current cells of rings `a`
/// and `b`. The ids are checked in the order a, b, c; the result is checked
/// before `c` is.
pub open spec fn arith_effect(op: Arith, rings: Seq<RingView>, a: RingId, b: RingId, c: RingId)
    -> Effect {
    if !has_ring(rings, a) {
        failed(rings, RuntimeError::InvalidRing(a))
    } else if !has_ring(rings, b) {
        failed(rings, RuntimeError::InvalidRing(b))
    } else {
        match op.eval(rings[a as int].current(), rings[b as int].current()) {
            Err(e) => failed(rings, e),
            Ok(v) => if !has_ring(rings, c) {
                failed(rings, RuntimeError::InvalidRing(c))
            } else {
                went_on(put_current(rings, c, v))
            },
        }
    }
}

/// A jump to `target` if `relation` holds between the current cells of rings
/// `a` and `b`.
pub open spec fn jump_effect(
    relation: Relation,
    rings: Seq<RingView>,
    a: RingId,
    b: RingId,
    target: Label,
) -> Effect {
    if !has_ring(rings, a) {
        failed(rings, RuntimeError::InvalidRing(a))
    } else if !has_ring(rings, b) {
        failed(rings, RuntimeError::InvalidRing(b))
    } else if relation.holds(rings[a as int].current(), rings[b as int].current()) {
        Effect { rings, outcome: Outcome::Jump(target), emit: Emit::Nothing }
    } else {
        went_on(rings)
    }
}

impl Instruction {
    /// The mnemonic of the instruction.
    pub open spec fn primitive(self) -> InstructionPrimitive {
        match self {
            Self::MKR(..) => InstructionPrimitive::MKR,
            Self::PUT(..) => InstructionPrimitive::PUT,
            Self::ROT(..) => InstructionPrimitive::ROT,
            Self::SWP(..) => InstructionPrimitive::SWP,
            Self::INP(..) => InstructionPrimitive::INP,
            Self::OUT(..) => InstructionPrimitive::OUT,
            Self::ERR(..) => InstructionPrimitive::ERR,
            Self::ADD(..) => InstructionPrimitive::ADD,
            Self::SUB(..) => InstructionPrimitive::SUB,
            Self::MUL(..) => InstructionPrimitive::MUL,
            Self::DIV(..) => InstructionPrimitive::DIV,
            Self::JMP(..) => InstructionPrimitive::JMP,
            Self::JEQ(..) => InstructionPrimitive::JEQ,
            Self::JGT(..) => InstructionPrimitive::JGT,
            Self::JLT(..) => InstructionPrimitive::JLT,
            Self::HLT(..) => InstructionPrimitive::HLT,
        }
    }

    /// Every instruction is acceptable but `MKR 0`.
    pub open spec fn valid(self) -> bool {
        self != Self::MKR(0)
    }

    /// Where the instruction may jump to, if it is a jump.
    pub open spec fn jump_target(self) -> Option<Label> {
        match self {
            Self::JMP(target) => Some(target),
            Self::JEQ(_, _, target) => Some(target),
            Self::JGT(_, _, target) => Some(target),
            Self::JLT(_, _, target) => Some(target),
            _ => None,
        }
    }

    /// The instruction asks the input capability for a byte.
    pub open spec fn reads_input(self) -> bool {
        self is INP
    }

    /// What the instruction does to `rings`. `input` is what the input
    /// capability gave, `None` if it had nothing; only `INP` looks at it, and
    /// it does so before it looks for its ring.
    ///
    /// `MKR` puts a new ring behind the others; once there are 255 rings it
    /// leaves them as they are. Every other instruction that names a ring
    /// fails if no ring has that id.
    pub open spec fn effect(self, rings: Seq<RingView>, input: Option<u8>) -> Effect {
        match self {
            Self::MKR(capacity) => if capacity == 0 {
                failed(rings, RuntimeError::ZeroRingSize)
            } else if rings.len() >= 255 {
                went_on(rings)
            } else {
                went_on(rings.push(RingView::zeroed(capacity as nat)))
            },
            Self::PUT(ring, value) => if !has_ring(rings, ring) {
                failed(rings, RuntimeError::InvalidRing(ring))
            } else {
                went_on(put_current(rings, ring, value))
            },
            Self::ROT(ring, by) => if !has_ring(rings, ring) {
                failed(rings, RuntimeError::InvalidRing(ring))
            } else {
                went_on(rings.update(ring as int, rings[ring as int].rotate(by as int)))
            },
            Self::SWP(a, b) => if !has_ring(rings, a) {
                failed(rings, RuntimeError::InvalidRing(a))
            } else if !has_ring(rings, b) {
                failed(rings, RuntimeError::InvalidRing(b))
            } else {
                went_on(
                    put_current(
                        put_current(rings, b, rings[a as int].current()),
                        a,
                        rings[b as int].current(),
                    ),
                )
            },
            Self::INP(ring) => match input {
                None => failed(rings, RuntimeError::InputFailure),
                Some(value) => if !has_ring(rings, ring) {
                    failed(rings, RuntimeError::InvalidRing(ring))
                } else {
                    went_on(put_current(rings, ring, value))
                },
            },
            Self::OUT(ring) => if !has_ring(rings, ring) {
                failed(rings, RuntimeError::InvalidRing(ring))
            } else {
                Effect {
                    rings,
                    outcome: Outcome::Continue,
                    emit: Emit::Output(rings[ring as int].current()),
                }
            },
            Self::ERR(ring) => if !has_ring(rings, ring) {
                failed(rings, RuntimeError::InvalidRing(ring))
            } else {
                Effect {
                    rings,
                    outcome: Outcome::Continue,
                    emit: Emit::Error(rings[ring as int].current()),
                }
            },
            Self::ADD(a, b, c) => arith_effect(Arith::Add, rings, a, b, c),
            Self::SUB(a, b, c) => arith_effect(Arith::Sub, rings, a, b, c),
            Self::MUL(a, b, c) => arith_effect(Arith::Mul, rings, a, b, c),
            Self::DIV(a, b, c) => arith_effect(Arith::Div, rings, a, b, c),
            Self::JMP(target) => Effect {
                rings,
                outcome: Outcome::Jump(target),
                emit: Emit::Nothing,
            },
            Self::JEQ(a, b, target) => jump_effect(Relation::Equal, rings, a, b, target),
            Self::JGT(a, b, target) => jump_effect(Relation::Greater, rings, a, b, target),
            Self::JLT(a, b, target) => jump_effect(Relation::Less, rings, a, b, target),
            Self::HLT(code) => Effect { rings, outcome: Outcome::Halt(code), emit: Emit::Nothing },
        }
    }

    /// What the instruction does to a whole machine: the rings change as
    /// `effect` says, a jump sets the program counter, a halt sets the exit
    /// code, and a failure is handed back.
    pub open spec fn run_on(self, vm: VmView, input: Option<u8>) -> (VmView, Result<
        (),
        RuntimeError,
    >) {
        let e = self.effect(vm.rings, input);
        match e.outcome {
            Outcome::Continue => (VmView { rings: e.rings, ..vm }, Ok(())),
            Outcome::Jump(target) => (VmView { rings: e.rings, pc: target, ..vm }, Ok(())),
            Outcome::Halt(code) => (
                VmView { rings: e.rings, exit_code: Some(code), ..vm },
                Ok(()),
            ),
            Outcome::Fail(error) => (VmView { rings: e.rings, ..vm }, Err(error)),
        }
    }

    /// Rejects `MKR 0`: a ring cannot be empty.
    pub fn validate(&self) -> (r: Result<(), InstructionError>)
        ensures
            r == if self.valid() {
                Ok::<(), InstructionError>(())
            } else {
                Err(InstructionError::ZeroRingLength)
            },
    {
        match self {
            Self::MKR(0) => Err(InstructionError::ZeroRingLength),
            _ => Ok(()),
        }
    }
}

/// Carries out an arithmetic instruction on the rings of `vm`.
fn apply_arith(op: Arith, vm: &mut RingsVM, a: RingId, b: RingId, c: RingId) -> (r: Outcome)
    requires
        old(vm).wf(),
    ensures
        final(vm).wf(),
        final(vm).pc == old(vm).pc,
        final(vm).exit_code == old(vm).exit_code,
        final(vm).ring_views() == arith_effect(op, old(vm).ring_views(), a, b, c).rings,
        r == arith_effect(op, old(vm).ring_views(), a, b, c).outcome,
        arith_effect(op, old(vm).ring_views(), a, b, c).emit == Emit::Nothing,
{
    let x = match vm.read_current(a) {
        Ok(x) => x,
        Err(e) => {
            return Outcome::Fail(e);
        },
    };
    let y = match vm.read_current(b) {
        Ok(y) => y,
        Err(e) => {
            return Outcome::Fail(e);
        },
    };
    let value = match op.compute(x, y) {
        Ok(v) => v,
        Err(e) => {
            return Outcome::Fail(e);
        },
    };
    match vm.write_current(c, value) {
        Ok(()) => Outcome::Continue,
        Err(e) => Outcome::Fail(e),
    }
}

/// Decides a conditional jump on the rings of `vm`.
fn apply_jump(relation: Relation, vm: &RingsVM, a: RingId, b: RingId, target: Label) -> (r:
    Outcome)
    requires
        vm.wf(),
    ensures
        r == jump_effect(relation, vm.ring_views(), a, b, target).outcome,
        jump_effect(relation, vm.ring_views(), a, b, target).rings == vm.ring_views(),
        jump_effect(relation, vm.ring_views(), a, b, target).emit == Emit::Nothing,
{
    let x = match vm.read_current(a) {
        Ok(x) => x,
        Err(e) => {
            return Outcome::Fail(e);
        },
    };
    let y = match vm.read_current(b) {
        Ok(y) => y,
        Err(e) => {
            return Outcome::Fail(e);
        },
    };
    if relation.test(x, y) {
        Outcome::Jump(target)
    } else {
        Outcome::Continue
    }
}

impl Instruction {
    /// Whether the instruction asks the input capability for a byte.
    pub fn needs_input(&self) -> (r: bool)
        ensures
            r == self.reads_input(),
    {
        match self {
            Self::INP(_) => true,
            _ => false,
        }
    }

    /// Carries the instruction out on the rings of `vm`, given what the
    /// input capability returned, and reports how the machine goes on and
    /// what is to be sent out. The program counter and the exit code are
    /// left to the caller.
    pub fn apply(&self, vm: &mut RingsVM, input: Option<u8>) -> (r: (Outcome, Emit))
        requires
            old(vm).wf(),
        ensures
            final(vm).wf(),
            final(vm).pc == old(vm).pc,
            final(vm).exit_code == old(vm).exit_code,
            final(vm).ring_views() == self.effect(old(vm).ring_views(), input).rings,
            r.0 == self.effect(old(vm).ring_views(), input).outcome,
            r.1 == self.effect(old(vm).ring_views(), input).emit,
    {
        match *self {
            Self::MKR(capacity) => {
                match Ring::new(capacity) {
                    Err(e) => (Outcome::Fail(e), Emit::Nothing),
                    Ok(ring) => {
                        if vm.rings.len() >= MAX_RINGS {
                            (Outcome::Continue, Emit::Nothing)
                        } else {
                            vm.rings.push(ring);
                            proof {
                                assert(final(vm).ring_views() =~= old(vm).ring_views().push(
                                    RingView::zeroed(capacity as nat),
                                ));
                            }
                            (Outcome::Continue, Emit::Nothing)
                        }
                    },
                }
            },
            Self::PUT(ring, value) => match vm.write_current(ring, value) {
                Ok(()) => (Outcome::Continue, Emit::Nothing),
                Err(e) => (Outcome::Fail(e), Emit::Nothing),
            },
            Self::ROT(ring, by) => match vm.get_ring(ring) {
                Ok(r) => {
                    r.rotate(by);
                    proof {
                        assert(final(vm).ring_views() =~= old(vm).ring_views().update(
                            ring as int,
                            old(vm).ring_views()[ring as int].rotate(by as int),
                        ));
                    }
                    (Outcome::Continue, Emit::Nothing)
                },
                Err(e) => (Outcome::Fail(e), Emit::Nothing),
            },
            Self::SWP(a, b) => {
                let x = match vm.read_current(a) {
                    Ok(x) => x,
                    Err(e) => {
                        return (Outcome::Fail(e), Emit::Nothing);
                    },
                };
                let y = match vm.read_current(b) {
                    Ok(y) => y,
                    Err(e) => {
                        return (Outcome::Fail(e), Emit::Nothing);
                    },
                };
                let _ = vm.write_current(b, x);
                let _ = vm.write_current(a, y);
                (Outcome::Continue, Emit::Nothing)
            },
            Self::INP(ring) => match input {
                None => (Outcome::Fail(RuntimeError::InputFailure), Emit::Nothing),
                Some(value) => match vm.write_current(ring, value) {
                    Ok(()) => (Outcome::Continue, Emit::Nothing),
                    Err(e) => (Outcome::Fail(e), Emit::Nothing),
                },
            },
            Self::OUT(ring) => match vm.read_current(ring) {
                Ok(value) => (Outcome::Continue, Emit::Output(value)),
                Err(e) => (Outcome::Fail(e), Emit::Nothing),
            },
            Self::ERR(ring) => match vm.read_current(ring) {
                Ok(value) => (Outcome::Continue, Emit::Error(value)),
                Err(e) => (Outcome::Fail(e), Emit::Nothing),
            },
            Self::ADD(a, b, c) => (apply_arith(Arith::Add, vm, a, b, c), Emit::Nothing),
            Self::SUB(a, b, c) => (apply_arith(Arith::Sub, vm, a, b, c), Emit::Nothing),
            Self::MUL(a, b, c) => (apply_arith(Arith::Mul, vm, a, b, c), Emit::Nothing),
            Self::DIV(a, b, c) => (apply_arith(Arith::Div, vm, a, b, c), Emit::Nothing),
            Self::JMP(target) => (Outcome::Jump(target), Emit::Nothing),
            Self::JEQ(a, b, target) => (
                apply_jump(Relation::Equal, vm, a, b, target),
                Emit::Nothing,
            ),
            Self::JGT(a, b, target) => (
                apply_jump(Relation::Greater, vm, a, b, target),
                Emit::Nothing,
            ),
            Self::JLT(a, b, target) => (apply_jump(Relation::Less, vm, a, b, target), Emit::Nothing),
            Self::HLT(code) => (Outcome::Halt(code), Emit::Nothing),
        }
    }

    /// Carries the instruction out on `vm`: `INP` first asks `io` for a
    /// byte, the rings change, `OUT` and `ERR` hand their byte to `io`, a
    /// jump sets the program counter and a halt the exit code.
    ///
    /// Whatever `io` returned, the machine ends up as `run_on` says for that
    /// value; an instruction other than `INP` does not ask.
    pub fn execute<I>(&self, vm: &mut RingsVM, io: &mut I) -> (r: Result<(), RuntimeError>) where
        I: RingsIo,

        requires
            old(vm).wf(),
        ensures
            final(vm).wf(),
            exists|input: Option<u8>| (final(vm)@, r) == #[trigger] self.run_on(old(vm)@, input),
            !self.reads_input() ==> (final(vm)@, r) == self.run_on(old(vm)@, None),
    {
        let input = if self.needs_input() {
            io.inp(vm)
        } else {
            None
        };
        let (outcome, emit) = self.apply(vm, input);
        match emit {
            Emit::Nothing => {},
            Emit::Output(value) => io.out(value, vm),
            Emit::Error(value) => io.err(value, vm),
        }
        let r = vm.settle(outcome);
        proof {
            assert((final(vm)@, r) == self.run_on(old(vm)@, input));
        }
        r
    }
}

/// Every ring is well formed and there are at most 255 of them.
pub open spec fn rings_wf(rings: Seq<RingView>) -> bool {
    &&& rings.len() <= 255
    &&& forall|i: int| 0 <= i < rings.len() ==> (#[trigger] rings[i]).wf()
}

impl Instruction {
    /// No instruction removes a ring or changes the capacity of one, none
    /// makes a ring without cells, and one that fails changes nothing.
    pub proof fn lemma_effect_keeps_rings(self, rings: Seq<RingView>, input: Option<u8>)
        requires
            rings_wf(rings),
        ensures
            rings_wf(self.effect(rings, input).rings),
            self.effect(rings, input).rings.len() >= rings.len(),
            forall|i: int|
                0 <= i < rings.len() ==> (#[trigger] self.effect(rings, input).rings[i]).capacity()
                    == rings[i].capacity(),
            self.effect(rings, input).outcome is Fail ==> self.effect(rings, input).rings
                == rings,
    {
        match self {
            Self::SWP(a, b) => {
                if has_ring(rings, a) && has_ring(rings, b) {
                    let first = put_current(rings, b, rings[a as int].current());
                    assert(rings_wf(first));
                    assert forall|i: int| 0 <= i < rings.len() implies (#[trigger] first[i]).capacity()
                        == rings[i].capacity() by {}
                }
            },
            _ => {},
        }
    }

    /// Only `INP` looks at what the input capability gave.
    pub proof fn lemma_effect_ignores_input(
        self,
        rings: Seq<RingView>,
        first: Option<u8>,
        second: Option<u8>,
    )
        requires
            !self.reads_input(),
        ensures
            self.effect(rings, first) == self.effect(rings, second),
    {
    }
}

} // verus!

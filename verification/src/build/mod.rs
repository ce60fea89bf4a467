//! From source bytes to a program: the decoder, the tokenizer, the statement
//! parser, and the assembler that resolves labels.

use crate::build::chars::{decode, CharIterator};
use crate::build::statement::{
    parse, InstructionArg, InstructionArgView, InstructionStatement, InstructionStatementView,
    Statement, StatementParser, StatementView,
};
use crate::build::stream::{ItemView, Stream};
use crate::build::token::{tokenize, Tokenizer};
use crate::error::{RingsError, RingsErrorView};
use crate::instruction::{Instruction, InstructionError, InstructionPrimitive, Label};
use crate::{Localized, MaybeLocalized};
use vstd::prelude::*;

pub mod chars;
pub mod statement;
pub mod stream;
pub mod token;

verus! {

/// Why the statements do not assemble into a program.
#[derive(Clone, Debug, PartialEq, Eq)]
pub enum AssemblerError {
    /// This label is declared a second time.
    DuplicateLabel(String),
    /// The arguments are not of the kinds this mnemonic takes.
    InvalidInstructionArguments(InstructionPrimitive),
    /// This label is referred to and declared nowhere.
    LabelNotFound(String),
    /// The statement has `got` arguments where the mnemonic takes `expected`.
    WrongNumberOfArguments { primitive: InstructionPrimitive, expected: u8, got: u8 },
    /// The instruction itself is not acceptable.
    Validation(InstructionError),
}

/// An [`AssemblerError`] as contracts see it.
pub enum AssemblerErrorView {
    DuplicateLabel(Seq<char>),
    InvalidInstructionArguments(InstructionPrimitive),
    LabelNotFound(Seq<char>),
    WrongNumberOfArguments { primitive: InstructionPrimitive, expected: u8, got: u8 },
    Validation(InstructionError),
}

impl View for AssemblerError {
    type V = AssemblerErrorView;

    open spec fn view(&self) -> AssemblerErrorView {
        match self {
            AssemblerError::DuplicateLabel(l) => AssemblerErrorView::DuplicateLabel(l@),
            AssemblerError::InvalidInstructionArguments(
                p,
            ) => AssemblerErrorView::InvalidInstructionArguments(*p),
            AssemblerError::LabelNotFound(l) => AssemblerErrorView::LabelNotFound(l@),
            AssemblerError::WrongNumberOfArguments {
                primitive,
                expected,
                got,
            } => AssemblerErrorView::WrongNumberOfArguments {
                primitive: *primitive,
                expected: *expected,
                got: *got,
            },
            AssemblerError::Validation(e) => AssemblerErrorView::Validation(*e),
        }
    }
}

impl From<InstructionError> for AssemblerError {
    /// An instruction that is not acceptable, as an error of the assembler.
    fn from(value: InstructionError) -> (r: Self) {
        Self::Validation(value)
    }
}

impl vstd::std_specs::convert::FromSpecImpl<InstructionError> for AssemblerError {
    open spec fn obeys_from_spec() -> bool {
        true
    }

    open spec fn from_spec(value: InstructionError) -> Self {
        Self::Validation(value)
    }
}

/// A program as contracts see it.
pub enum ProgramView {
    Localized(Seq<Localized<Instruction>>),
    Unlocalized(Seq<Instruction>),
}

impl ProgramView {
    /// The number of instructions.
    pub open spec fn len(self) -> nat {
        match self {
            ProgramView::Localized(l) => l.len(),
            ProgramView::Unlocalized(l) => l.len(),
        }
    }

    /// The instruction at `index`, without its position.
    pub open spec fn instruction(self, index: int) -> Instruction {
        match self {
            ProgramView::Localized(l) => l[index].value,
            ProgramView::Unlocalized(l) => l[index],
        }
    }

    /// The instruction at `index`, with its position if the program keeps
    /// positions; `None` past the end.
    pub open spec fn get(self, index: int) -> Option<MaybeLocalized<Instruction>> {
        if 0 <= index < self.len() {
            Some(
                match self {
                    ProgramView::Localized(l) => MaybeLocalized::Localized(l[index]),
                    ProgramView::Unlocalized(l) => MaybeLocalized::General(l[index]),
                },
            )
        } else {
            None
        }
    }

    /// Every instruction is acceptable by itself, and every jump leads to an
    /// instruction of the program or to its end.
    pub open spec fn valid(self) -> bool {
        forall|i: int|
            0 <= i < self.len() ==> {
                &&& (#[trigger] self.instruction(i)).valid()
                &&& self.instruction(i).jump_target() matches Some(target) ==> target
                    <= self.len()
            }
    }
}

/// A sequence of instructions with every label resolved. It is built once
/// by the assembler and not changed after that. Either every instruction
/// carries the position of its statement or none does.
#[derive(Debug, PartialEq, Eq)]
pub enum Program {
    Localized(Vec<Localized<Instruction>>),
    Unlocalized(Vec<Instruction>),
}

impl View for Program {
    type V = ProgramView;

    open spec fn view(&self) -> ProgramView {
        match self {
            Program::Localized(l) => ProgramView::Localized(l@),
            Program::Unlocalized(l) => ProgramView::Unlocalized(l@),
        }
    }
}

impl Program {
    /// An empty program that keeps positions or not.
    fn new(preserve_location: bool) -> (r: Self)
        ensures
            r@ == if preserve_location {
                ProgramView::Localized(Seq::empty())
            } else {
                ProgramView::Unlocalized(Seq::empty())
            },
    {
        if preserve_location {
            Self::Localized(Vec::new())
        } else {
            Self::Unlocalized(Vec::new())
        }
    }

    /// Puts one more instruction behind the program.
    fn push(&mut self, instr: Localized<Instruction>)
        ensures
            final(self)@ == match old(self)@ {
                ProgramView::Localized(l) => ProgramView::Localized(l.push(instr)),
                ProgramView::Unlocalized(l) => ProgramView::Unlocalized(l.push(instr.value)),
            },
    {
        match self {
            Self::Localized(vec) => vec.push(instr),
            Self::Unlocalized(vec) => vec.push(instr.value),
        }
    }

    /// The instruction at `index`, with its position if the program keeps
    /// positions; `None` past the end.
    pub fn get(&self, index: usize) -> (r: Option<MaybeLocalized<Instruction>>)
        ensures
            r == self@.get(index as int),
    {
        match self {
            Self::Localized(l) => {
                if index < l.len() {
                    let at = &l[index];
                    Some(MaybeLocalized::Localized(at.transform(at.value)))
                } else {
                    None
                }
            },
            Self::Unlocalized(v) => {
                if index < v.len() {
                    Some(MaybeLocalized::General(v[index]))
                } else {
                    None
                }
            },
        }
    }

    /// A program has no more instructions than can be counted.
    pub proof fn lemma_len_fits(&self)
        ensures
            self@.len() <= usize::MAX,
    {
        match self {
            Self::Localized(l) => {
                assert(l.len() == l@.len());
            },
            Self::Unlocalized(v) => {
                assert(v.len() == v@.len());
            },
        }
    }

    /// The number of instructions.
    pub fn len(&self) -> (r: usize)
        ensures
            r == self@.len(),
    {
        match self {
            Self::Localized(l) => l.len(),
            Self::Unlocalized(v) => v.len(),
        }
    }
}

/// The position of the argument that names a label, for the mnemonics that
/// take one.
pub open spec fn label_position(primitive: InstructionPrimitive) -> Option<int> {
    match primitive {
        InstructionPrimitive::JMP => Some(0),
        InstructionPrimitive::JEQ | InstructionPrimitive::JGT | InstructionPrimitive::JLT => Some(
            2,
        ),
        _ => None,
    }
}

/// The argument at `position` is of the kind that `primitive` takes there:
/// a label reference at the label position, a number anywhere else.
pub open spec fn kind_fits(
    primitive: InstructionPrimitive,
    args: Seq<InstructionArgView>,
    position: int,
) -> bool {
    (args[position] is Label) == (label_position(primitive) == Some(position))
}

/// Every argument is of the kind that `primitive` takes at its position.
pub open spec fn kinds_fit(primitive: InstructionPrimitive, args: Seq<InstructionArgView>) -> bool {
    &&& args.len() > 0 ==> kind_fits(primitive, args, 0)
    &&& args.len() > 1 ==> kind_fits(primitive, args, 1)
    &&& args.len() > 2 ==> kind_fits(primitive, args, 2)
}

/// The number at `position`.
pub open spec fn operand(args: Seq<InstructionArgView>, position: int) -> u8 {
    match args[position] {
        InstructionArgView::Number(n) => n,
        InstructionArgView::Label(_) => 0,
    }
}

/// The name of the label at `position`.
pub open spec fn label_name(args: Seq<InstructionArgView>, position: int) -> Seq<char> {
    match args[position] {
        InstructionArgView::Number(_) => Seq::empty(),
        InstructionArgView::Label(name) => name,
    }
}

/// The instruction that the mnemonic makes of its arguments, once they are
/// known to fit: numbers go in as they are, a label as the index it stands
/// for.
pub open spec fn encode(
    primitive: InstructionPrimitive,
    args: Seq<InstructionArgView>,
    labels: Map<Seq<char>, usize>,
) -> Instruction {
    match primitive {
        InstructionPrimitive::MKR => Instruction::MKR(operand(args, 0)),
        InstructionPrimitive::PUT => Instruction::PUT(operand(args, 0), operand(args, 1)),
        InstructionPrimitive::ROT => Instruction::ROT(operand(args, 0), operand(args, 1)),
        InstructionPrimitive::SWP => Instruction::SWP(operand(args, 0), operand(args, 1)),
        InstructionPrimitive::INP => Instruction::INP(operand(args, 0)),
        InstructionPrimitive::OUT => Instruction::OUT(operand(args, 0)),
        InstructionPrimitive::ERR => Instruction::ERR(operand(args, 0)),
        InstructionPrimitive::ADD => Instruction::ADD(
            operand(args, 0),
            operand(args, 1),
            operand(args, 2),
        ),
        InstructionPrimitive::SUB => Instruction::SUB(
            operand(args, 0),
            operand(args, 1),
            operand(args, 2),
        ),
        InstructionPrimitive::MUL => Instruction::MUL(
            operand(args, 0),
            operand(args, 1),
            operand(args, 2),
        ),
        InstructionPrimitive::DIV => Instruction::DIV(
            operand(args, 0),
            operand(args, 1),
            operand(args, 2),
        ),
        InstructionPrimitive::JMP => Instruction::JMP(labels[label_name(args, 0)]),
        InstructionPrimitive::JEQ => Instruction::JEQ(
            operand(args, 0),
            operand(args, 1),
            labels[label_name(args, 2)],
        ),
        InstructionPrimitive::JGT => Instruction::JGT(
            operand(args, 0),
            operand(args, 1),
            labels[label_name(args, 2)],
        ),
        InstructionPrimitive::JLT => Instruction::JLT(
            operand(args, 0),
            operand(args, 1),
            labels[label_name(args, 2)],
        ),
        InstructionPrimitive::HLT => Instruction::HLT(operand(args, 0)),
    }
}

/// Resolves one instruction statement against the complete label table.
///
/// The number of arguments is checked first, then their kinds, then the
/// label that is referred to, and last the instruction itself.
pub open spec fn resolve(statement: InstructionStatementView, labels: Map<Seq<char>, usize>)
    -> Result<Instruction, AssemblerErrorView> {
    let primitive = statement.primitive();
    let args = statement.args();
    if args.len() != primitive.num_args() {
        Err(
            AssemblerErrorView::WrongNumberOfArguments {
                primitive,
                expected: primitive.num_args(),
                got: args.len() as u8,
            },
        )
    } else if !kinds_fit(primitive, args) {
        Err(AssemblerErrorView::InvalidInstructionArguments(primitive))
    } else if label_position(primitive) matches Some(position) && !labels.contains_key(
        label_name(args, position),
    ) {
        Err(AssemblerErrorView::LabelNotFound(label_name(args, label_position(primitive)->Some_0)))
    } else if !encode(primitive, args, labels).valid() {
        Err(AssemblerErrorView::Validation(InstructionError::ZeroRingLength))
    } else {
        Ok(encode(primitive, args, labels))
    }
}

/// What the first pass gathers: the label table and the instruction
/// statements in order, each with the position of its statement.
pub struct Collected {
    pub labels: Map<Seq<char>, usize>,
    pub instructions: Seq<Localized<InstructionStatementView>>,
}

impl Collected {
    /// Nothing gathered yet.
    pub open spec fn empty() -> Collected {
        Collected { labels: Map::empty(), instructions: Seq::empty() }
    }

    /// Takes one statement in. A label declaration binds the name to the
    /// number of instructions gathered so far; a name that is bound already
    /// is an error. An instruction statement goes behind the others, with
    /// the position `at`.
    pub open spec fn take(self, statement: StatementView, at: Localized<()>) -> Result<
        Collected,
        AssemblerErrorView,
    > {
        match statement {
            StatementView::Label(name) => if self.labels.contains_key(name) {
                Err(AssemblerErrorView::DuplicateLabel(name))
            } else {
                Ok(
                    Collected {
                        labels: self.labels.insert(name, self.instructions.len() as usize),
                        instructions: self.instructions,
                    },
                )
            },
            StatementView::Instruction(i) => Ok(
                Collected { labels: self.labels, instructions: self.instructions.push(at.with(i)) },
            ),
        }
    }

    /// Takes a sequence of statements in, one after the other. The first
    /// error ends it: one among the statements is handed on, one of the
    /// assembler stands at the position of its statement.
    pub open spec fn take_all(self, statements: Seq<ItemView<StatementView>>) -> Result<
        Collected,
        Localized<RingsErrorView>,
    >
        decreases statements.len(),
    {
        if statements.len() == 0 {
            Ok(self)
        } else {
            match statements[0].value {
                Err(e) => Err(statements[0].with(e)),
                Ok(statement) => match self.take(statement, statements[0].with(())) {
                    Err(e) => Err(statements[0].with(RingsErrorView::Assembler(e))),
                    Ok(next) => next.take_all(statements.skip(1)),
                },
            }
        }
    }

    /// The first `count` instruction statements, resolved against the whole
    /// label table. The first that does not resolve ends it, with its error
    /// at its position.
    pub open spec fn resolved(self, count: nat) -> Result<
        Seq<Localized<Instruction>>,
        Localized<AssemblerErrorView>,
    >
        decreases count,
    {
        if count == 0 {
            Ok(Seq::empty())
        } else {
            match self.resolved((count - 1) as nat) {
                Err(e) => Err(e),
                Ok(done) => match resolve(self.instructions[count - 1].value, self.labels) {
                    Err(e) => Err(self.instructions[count - 1].with(e)),
                    Ok(i) => Ok(done.push(self.instructions[count - 1].with(i))),
                },
            }
        }
    }

    /// The program that the second pass makes of what the first gathered.
    /// An error always carries its position; a program is handed out bare,
    /// and keeps the positions of its instructions if `preserve_location`
    /// says so.
    pub open spec fn finish(self, preserve_location: bool) -> MaybeLocalized<
        Result<ProgramView, AssemblerErrorView>,
    > {
        match self.resolved(self.instructions.len()) {
            Err(e) => MaybeLocalized::Localized(e.with(Err(e.value))),
            Ok(list) => MaybeLocalized::General(
                Ok(
                    if preserve_location {
                        ProgramView::Localized(list)
                    } else {
                        ProgramView::Unlocalized(list.map_values(|l: Localized<Instruction>| l.value))
                    },
                ),
            ),
        }
    }
}

impl Collected {
    /// Every label stands for the index of an instruction gathered so far,
    /// or for the index behind the last of them.
    pub open spec fn bounded(self) -> bool {
        forall|name: Seq<char>|
            self.labels.contains_key(name) ==> #[trigger] self.labels[name]
                <= self.instructions.len()
    }

    /// The instruction that statement `index` resolves into, at the position
    /// of the statement.
    pub open spec fn encoded(self, index: int) -> Localized<Instruction> {
        self.instructions[index].with(
            encode(
                self.instructions[index].value.primitive(),
                self.instructions[index].value.args(),
                self.labels,
            ),
        )
    }

    /// Statement `index` resolves.
    pub open spec fn resolves(self, index: int) -> bool {
        resolve(self.instructions[index].value, self.labels) is Ok
    }

    /// Where the first `count` statements resolve, there are `count`
    /// instructions, each the encoding of its statement at the position of
    /// its statement.
    pub proof fn lemma_resolved(self, count: nat)
        requires
            count <= self.instructions.len(),
            self.resolved(count) is Ok,
        ensures
            self.resolved(count)->Ok_0 == Seq::new(count, |i: int| self.encoded(i)),
            forall|i: int| 0 <= i < count ==> #[trigger] self.resolves(i),
        decreases count,
    {
        if count > 0 {
            self.lemma_resolved((count - 1) as nat);
            assert(self.resolves(count - 1));
            assert(self.resolved(count)->Ok_0 =~= Seq::new(count, |i: int| self.encoded(i)));
        } else {
            assert(self.resolved(count)->Ok_0 =~= Seq::new(count, |i: int| self.encoded(i)));
        }
    }

    /// A resolved instruction is acceptable by itself, it has the mnemonic
    /// of its statement, and where it jumps to is what its label stands
    /// for.
    pub proof fn lemma_resolve(statement: InstructionStatementView, labels: Map<Seq<char>, usize>)
        requires
            resolve(statement, labels) is Ok,
        ensures
            resolve(statement, labels)->Ok_0.valid(),
            resolve(statement, labels)->Ok_0.primitive() == statement.primitive(),
            label_position(statement.primitive()) is None ==> resolve(
                statement,
                labels,
            )->Ok_0.jump_target() is None,
            label_position(statement.primitive()) matches Some(position) ==> {
                &&& statement.args()[position] is Label
                &&& labels.contains_key(label_name(statement.args(), position))
                &&& resolve(statement, labels)->Ok_0.jump_target() == Some(
                    labels[label_name(statement.args(), position)],
                )
            },
    {
    }

    /// Where all the statements gathered resolve and no label leads past
    /// the end, the program is valid.
    pub proof fn lemma_finish_is_valid(self, preserve_location: bool)
        requires
            self.bounded(),
            self.finish(preserve_location).value() is Ok,
        ensures
            self.finish(preserve_location).value()->Ok_0.valid(),
            self.finish(preserve_location).value()->Ok_0.len() == self.instructions.len(),
    {
        let count = self.instructions.len();
        self.lemma_resolved(count);
        let program = self.finish(preserve_location).value()->Ok_0;
        let list = self.resolved(count)->Ok_0;
        assert forall|i: int| 0 <= i < program.len() implies {
            &&& (#[trigger] program.instruction(i)).valid()
            &&& program.instruction(i).jump_target() matches Some(target) ==> target
                <= program.len()
        } by {
            assert(self.resolves(i));
            assert(list[i] == self.encoded(i));
            assert(list[i].value == program.instruction(i));
            Self::lemma_resolve(self.instructions[i].value, self.labels);
        }
    }
}

/// What a run of the assembler gives, as contracts see it.
pub type AssemblyView = MaybeLocalized<Result<ProgramView, RingsErrorView>>;

/// The program that a sequence of statements assembles into, or the first
/// error on the way.
pub open spec fn assemble_statements(
    statements: Seq<ItemView<StatementView>>,
    preserve_location: bool,
) -> AssemblyView {
    match Collected::empty().take_all(statements) {
        Err(e) => MaybeLocalized::Localized(e.with(Err(e.value))),
        Ok(collected) => match collected.finish(preserve_location) {
            MaybeLocalized::Localized(l) => MaybeLocalized::Localized(
                l.with(
                    match l.value {
                        Ok(p) => Ok(p),
                        Err(e) => Err(RingsErrorView::Assembler(e)),
                    },
                ),
            ),
            MaybeLocalized::General(v) => MaybeLocalized::General(
                match v {
                    Ok(p) => Ok(p),
                    Err(e) => Err(RingsErrorView::Assembler(e)),
                },
            ),
        },
    }
}

/// The program that the source bytes assemble into, or the first error on
/// the way from bytes to characters, tokens, statements and instructions.
pub open spec fn assemble_source(bytes: Seq<u8>, preserve_location: bool) -> AssemblyView {
    assemble_statements(parse(tokenize(decode(bytes, None))), preserve_location)
}

/// The view of what a run of the assembler gave.
pub open spec fn assembly_view(r: MaybeLocalized<Result<Program, RingsError>>) -> AssemblyView {
    r.with(
        match r.value() {
            Ok(p) => Ok::<ProgramView, RingsErrorView>(p@),
            Err(e) => Err(e@),
        },
    )
}

/// The view of what resolving one statement gave.
pub open spec fn resolution_view<T>(r: Result<T, AssemblerError>) -> Result<T, AssemblerErrorView> {
    match r {
        Ok(v) => Ok(v),
        Err(e) => Err(e@),
    }
}

/// The view of what the second pass gave.
pub open spec fn finish_view(r: MaybeLocalized<Result<Program, AssemblerError>>) -> MaybeLocalized<
    Result<ProgramView, AssemblerErrorView>,
> {
    r.with(
        match r.value() {
            Ok(p) => Ok::<ProgramView, AssemblerErrorView>(p@),
            Err(e) => Err(e@),
        },
    )
}

/// Once a statement has failed to resolve, resolving more of them gives the
/// same error.
pub proof fn lemma_first_failure_stays(collected: Collected, failed: nat, count: nat)
    requires
        failed <= count,
        collected.resolved(failed) is Err,
    ensures
        collected.resolved(count) == collected.resolved(failed),
    decreases count,
{
    if count > failed {
        lemma_first_failure_stays(collected, failed, (count - 1) as nat);
    }
}

/// The number that `arg` is, for a mnemonic that takes a number here.
fn number_of(primitive: InstructionPrimitive, arg: &InstructionArg) -> (r: Result<
    u8,
    AssemblerError,
>)
    ensures
        resolution_view(r) == match arg@ {
            InstructionArgView::Number(n) => Ok::<u8, AssemblerErrorView>(n),
            InstructionArgView::Label(_) => Err(
                AssemblerErrorView::InvalidInstructionArguments(primitive),
            ),
        },
{
    match arg {
        InstructionArg::Number(n) => Ok(*n),
        InstructionArg::Label(_) => Err(AssemblerError::InvalidInstructionArguments(primitive)),
    }
}

/// The assembler: it gathers the statements of a source and then resolves
/// them into a program.
pub struct ProgramAssembler {
    labels: vstd::hash_map::StringHashMap<usize>,
    instructions: Vec<Localized<InstructionStatement>>,
}

impl View for ProgramAssembler {
    type V = Collected;

    closed spec fn view(&self) -> Collected {
        Collected {
            labels: self.labels@,
            instructions: Seq::new(
                self.instructions@.len(),
                |i: int| self.instructions@[i].with(self.instructions@[i].value@),
            ),
        }
    }
}

impl ProgramAssembler {
    /// No label gathered leads past the instructions gathered.
    pub open spec fn wf(&self) -> bool {
        self@.bounded()
    }

    /// An assembler that has gathered nothing yet.
    pub fn new() -> (r: Self)
        ensures
            r.wf(),
            r@ == Collected::empty(),
    {
        let r = Self {
            labels: vstd::hash_map::StringHashMap::with_capacity(50),
            instructions: Vec::new(),
        };
        assert(r@.instructions =~= Seq::empty());
        r
    }

    /// Takes one statement in, with the position `location` where it began.
    /// A label that is declared a second time is refused and changes
    /// nothing.
    pub fn consume_raw_statement(&mut self, statement: Statement, location: &Localized<()>) -> (r:
        Result<(), AssemblerError>)
        requires
            old(self).wf(),
        ensures
            final(self).wf(),
            match old(self)@.take(statement@, *location) {
                Ok(next) => r is Ok && final(self)@ == next,
                Err(e) => resolution_view(r) == Err::<(), AssemblerErrorView>(e) && final(self)@
                    == old(self)@,
            },
    {
        match statement {
            Statement::Label(lbl) => {
                if self.labels.contains_key(lbl.as_str()) {
                    Err(AssemblerError::DuplicateLabel(lbl))
                } else {
                    self.labels.insert(lbl, self.instructions.len());
                    assert(final(self)@.instructions =~= old(self)@.instructions);
                    Ok(())
                }
            },
            Statement::Instruction(i) => {
                self.instructions.push(location.transform(i));
                assert(final(self)@.instructions =~= old(self)@.instructions.push(
                    location.with(i@),
                ));
                Ok(())
            },
        }
    }

    /// The index that the label `arg` stands for, for a mnemonic that takes
    /// a label here.
    fn target_of(&self, primitive: InstructionPrimitive, arg: &InstructionArg) -> (r: Result<
        Label,
        AssemblerError,
    >)
        ensures
            resolution_view(r) == match arg@ {
                InstructionArgView::Number(_) => Err::<Label, AssemblerErrorView>(
                    AssemblerErrorView::InvalidInstructionArguments(primitive),
                ),
                InstructionArgView::Label(name) => if self@.labels.contains_key(name) {
                    Ok(self@.labels[name])
                } else {
                    Err(AssemblerErrorView::LabelNotFound(name))
                },
            },
    {
        match arg {
            InstructionArg::Number(_) => Err(
                AssemblerError::InvalidInstructionArguments(primitive),
            ),
            InstructionArg::Label(name) => match self.labels.get(name.as_str()) {
                Some(v) => Ok(*v),
                None => Err(AssemblerError::LabelNotFound(name.clone())),
            },
        }
    }

    /// Resolves one instruction statement against the labels gathered.
    pub fn resolve_statement(&self, statement: &InstructionStatement) -> (r: Result<
        Instruction,
        AssemblerError,
    >)
        ensures
            resolution_view(r) == resolve(statement@, self@.labels),
    {
        let instr = match statement {
            InstructionStatement::Instruction1(prim, a) => {
                let prim = *prim;
                match prim {
                    InstructionPrimitive::MKR => Instruction::MKR(number_of(prim, a)?),
                    InstructionPrimitive::INP => Instruction::INP(number_of(prim, a)?),
                    InstructionPrimitive::OUT => Instruction::OUT(number_of(prim, a)?),
                    InstructionPrimitive::ERR => Instruction::ERR(number_of(prim, a)?),
                    InstructionPrimitive::JMP => Instruction::JMP(self.target_of(prim, a)?),
                    InstructionPrimitive::HLT => Instruction::HLT(number_of(prim, a)?),
                    primitive => {
                        return Err(
                            AssemblerError::WrongNumberOfArguments {
                                expected: primitive.get_num_args(),
                                primitive,
                                got: 1,
                            },
                        );
                    },
                }
            },
            InstructionStatement::Instruction2(prim, a, b) => {
                let prim = *prim;
                match prim {
                    InstructionPrimitive::PUT => {
                        let x = number_of(prim, a)?;
                        Instruction::PUT(x, number_of(prim, b)?)
                    },
                    InstructionPrimitive::ROT => {
                        let x = number_of(prim, a)?;
                        Instruction::ROT(x, number_of(prim, b)?)
                    },
                    InstructionPrimitive::SWP => {
                        let x = number_of(prim, a)?;
                        Instruction::SWP(x, number_of(prim, b)?)
                    },
                    primitive => {
                        return Err(
                            AssemblerError::WrongNumberOfArguments {
                                expected: primitive.get_num_args(),
                                primitive,
                                got: 2,
                            },
                        );
                    },
                }
            },
            InstructionStatement::Instruction3(prim, a, b, c) => {
                let prim = *prim;
                match prim {
                    InstructionPrimitive::ADD => {
                        let x = number_of(prim, a)?;
                        let y = number_of(prim, b)?;
                        Instruction::ADD(x, y, number_of(prim, c)?)
                    },
                    InstructionPrimitive::SUB => {
                        let x = number_of(prim, a)?;
                        let y = number_of(prim, b)?;
                        Instruction::SUB(x, y, number_of(prim, c)?)
                    },
                    InstructionPrimitive::MUL => {
                        let x = number_of(prim, a)?;
                        let y = number_of(prim, b)?;
                        Instruction::MUL(x, y, number_of(prim, c)?)
                    },
                    InstructionPrimitive::DIV => {
                        let x = number_of(prim, a)?;
                        let y = number_of(prim, b)?;
                        Instruction::DIV(x, y, number_of(prim, c)?)
                    },
                    InstructionPrimitive::JEQ => {
                        let x = number_of(prim, a)?;
                        let y = number_of(prim, b)?;
                        Instruction::JEQ(x, y, self.target_of(prim, c)?)
                    },
                    InstructionPrimitive::JGT => {
                        let x = number_of(prim, a)?;
                        let y = number_of(prim, b)?;
                        Instruction::JGT(x, y, self.target_of(prim, c)?)
                    },
                    InstructionPrimitive::JLT => {
                        let x = number_of(prim, a)?;
                        let y = number_of(prim, b)?;
                        Instruction::JLT(x, y, self.target_of(prim, c)?)
                    },
                    primitive => {
                        return Err(
                            AssemblerError::WrongNumberOfArguments {
                                expected: primitive.get_num_args(),
                                primitive,
                                got: 3,
                            },
                        );
                    },
                }
            },
        };
        match instr.validate() {
            Err(e) => Err(AssemblerError::Validation(e)),
            Ok(()) => Ok(instr),
        }
    }

    /// Resolves every instruction statement gathered, in order, into a
    /// program. The first statement that does not resolve ends it.
    pub fn assemble_inner(self, preserve_location: bool) -> (r: MaybeLocalized<
        Result<Program, AssemblerError>,
    >)
        requires
            self.wf(),
        ensures
            finish_view(r) == self@.finish(preserve_location),
            r.value() matches Ok(program) ==> program@.valid(),
    {
        proof {
            if self@.finish(preserve_location).value() is Ok {
                self@.lemma_finish_is_valid(preserve_location);
            }
        }
        let mut out = Program::new(preserve_location);
        let ghost mut list: Seq<Localized<Instruction>> = Seq::empty();
        let mut i: usize = 0;
        assert(list.map_values(|l: Localized<Instruction>| l.value) =~= Seq::empty());
        while i < self.instructions.len()
            invariant
                i <= self.instructions@.len(),
                self@.instructions.len() == self.instructions@.len(),
                self@.resolved(i as nat) == Ok::<
                    Seq<Localized<Instruction>>,
                    Localized<AssemblerErrorView>,
                >(list),
                out@ == if preserve_location {
                    ProgramView::Localized(list)
                } else {
                    ProgramView::Unlocalized(list.map_values(|l: Localized<Instruction>| l.value))
                },
            decreases self.instructions@.len() - i,
        {
            let statement = &self.instructions[i];
            assert(self@.instructions[i as int] == statement.with(statement.value@));
            match self.resolve_statement(&statement.value) {
                Err(e) => {
                    proof {
                        assert(self@.resolved((i + 1) as nat) is Err);
                        lemma_first_failure_stays(
                            self@,
                            (i + 1) as nat,
                            self@.instructions.len(),
                        );
                    }
                    return MaybeLocalized::Localized(statement.transform(Err(e)));
                },
                Ok(instr) => {
                    let located = statement.transform(instr);
                    out.push(located);
                    proof {
                        assert(list.push(located).map_values(|l: Localized<Instruction>| l.value)
                            =~= list.map_values(|l: Localized<Instruction>| l.value).push(
                            located.value,
                        ));
                        list = list.push(located);
                    }
                },
            }
            i += 1;
        }
        MaybeLocalized::General(Ok(out))
    }

    /// Assembles the statements of a stream into a program. Nothing is
    /// resolved before the stream is at its end, so a label may be used
    /// before it is declared; and the first error ends the run, wherever it
    /// was found.
    pub fn assemble_from<I: Stream<Statement>>(statements: I, preserve_location: bool) -> (r:
        MaybeLocalized<Result<Program, RingsError>>)
        requires
            statements.wf(),
        ensures
            assembly_view(r) == assemble_statements(statements.remaining(), preserve_location),
            r.value() matches Ok(program) ==> program@.valid(),
    {
        let ghost all = statements.remaining();
        let mut source = statements;
        let mut ctx = Self::new();
        loop
            invariant
                source.wf(),
                ctx.wf(),
                all == statements.remaining(),
                ctx@.take_all(source.remaining()) == Collected::empty().take_all(all),
            decreases source.remaining().len(),
        {
            match source.next() {
                None => {
                    return match ctx.assemble_inner(preserve_location) {
                        MaybeLocalized::Localized(l) => {
                            let (location, value) = l.cut();
                            MaybeLocalized::Localized(
                                location.transform(
                                    match value {
                                        Ok(p) => Ok(p),
                                        Err(e) => Err(RingsError::Assembler(e)),
                                    },
                                ),
                            )
                        },
                        MaybeLocalized::General(v) => MaybeLocalized::General(
                            match v {
                                Ok(p) => Ok(p),
                                Err(e) => Err(RingsError::Assembler(e)),
                            },
                        ),
                    };
                },
                Some(item) => match item.branch() {
                    Err(failure) => {
                        return MaybeLocalized::Localized(Localized::from_residual(failure));
                    },
                    Ok(v) => {
                        let (location, statement) = v.cut();
                        match ctx.consume_raw_statement(statement, &location) {
                            Err(e) => {
                                return MaybeLocalized::Localized(
                                    location.transform(Err(RingsError::Assembler(e))),
                                );
                            },
                            Ok(()) => {},
                        }
                    },
                },
            }
        }
    }

    /// Assembles the source `bytes` into a program: decodes them into
    /// characters, splits those into tokens, groups those into statements
    /// and resolves the statements. With `preserve_location` every
    /// instruction of the program keeps the position of its statement.
    pub fn assemble(bytes: Vec<u8>, preserve_location: bool) -> (r: MaybeLocalized<
        Result<Program, RingsError>,
    >)
        requires
            bytes.len() < usize::MAX,
        ensures
            assembly_view(r) == assemble_source(bytes@, preserve_location),
            r.value() matches Ok(program) ==> program@.valid(),
    {
        let chars = CharIterator::new(bytes);
        let tokens = Tokenizer::new(chars);
        let statements = StatementParser::new(tokens);
        Self::assemble_from(statements, preserve_location)
    }
}

/// The element is an instruction statement.
pub open spec fn is_instruction(item: ItemView<StatementView>) -> bool {
    match item.value {
        Ok(StatementView::Instruction(_)) => true,
        _ => false,
    }
}

/// The instruction statement that the element is, at its position.
pub open spec fn instruction_of(item: ItemView<StatementView>) -> Localized<
    InstructionStatementView,
> {
    match item.value {
        Ok(StatementView::Instruction(i)) => item.with(i),
        _ => arbitrary(),
    }
}

/// The element declares the label `name`.
pub open spec fn declares(item: ItemView<StatementView>, name: Seq<char>) -> bool {
    item.value == Ok::<StatementView, RingsErrorView>(StatementView::Label(name))
}

/// The element is an instruction statement that refers to the label `name`
/// where its mnemonic takes a label.
pub open spec fn refers_to(item: ItemView<StatementView>, name: Seq<char>) -> bool {
    match item.value {
        Ok(StatementView::Instruction(i)) => match label_position(i.primitive()) {
            Some(position) => position < i.args().len() && i.args()[position]
                == InstructionArgView::Label(name),
            None => false,
        },
        _ => false,
    }
}

/// The number of instruction statements among `statements`.
pub open spec fn instruction_count(statements: Seq<ItemView<StatementView>>) -> nat
    decreases statements.len(),
{
    if statements.len() == 0 {
        0
    } else {
        (if is_instruction(statements[0]) {
            1nat
        } else {
            0nat
        }) + instruction_count(statements.skip(1))
    }
}

/// The number of instruction statements that stand before `position`: the
/// index that an instruction statement at `position` gets in the program,
/// and the index that a label declared at `position` stands for.
pub open spec fn instructions_before(statements: Seq<ItemView<StatementView>>, position: int)
    -> nat {
    instruction_count(statements.take(position))
}

/// Counting the instruction statements before a position, seen from the
/// second statement on.
proof fn lemma_instructions_before_step(statements: Seq<ItemView<StatementView>>, position: int)
    requires
        1 <= position <= statements.len(),
    ensures
        instructions_before(statements, position) == (if is_instruction(statements[0]) {
            1nat
        } else {
            0nat
        }) + instructions_before(statements.skip(1), position - 1),
{
    assert(statements.take(position).skip(1) =~= statements.skip(1).take(position - 1));
}

/// There are no more instruction statements than statements.
proof fn lemma_instruction_count_bound(statements: Seq<ItemView<StatementView>>)
    ensures
        instruction_count(statements) <= statements.len(),
    decreases statements.len(),
{
    if statements.len() > 0 {
        lemma_instruction_count_bound(statements.skip(1));
    }
}

impl Collected {
    /// What gathering a sequence of statements adds to what was gathered
    /// before: the instruction statements in order behind the earlier ones,
    /// and every label bound to the number of instruction statements that
    /// stand before its declaration. Nothing gathered before is changed.
    pub proof fn lemma_take_all(self, statements: Seq<ItemView<StatementView>>)
        requires
            self.take_all(statements) is Ok,
            self.instructions.len() + statements.len() <= usize::MAX,
        ensures
            ({
                let end = self.take_all(statements)->Ok_0;
                &&& end.instructions.len() == self.instructions.len() + instruction_count(
                    statements,
                )
                &&& forall|i: int|
                    0 <= i < self.instructions.len() ==> (#[trigger] end.instructions[i])
                        == self.instructions[i]
                &&& forall|name: Seq<char>|
                    #[trigger] self.labels.contains_key(name) ==> end.labels.contains_key(name)
                        && end.labels[name] == self.labels[name]
                &&& forall|k: int, name: Seq<char>|
                    0 <= k < statements.len() && #[trigger] declares(statements[k], name)
                        ==> end.labels.contains_key(name) && end.labels[name]
                        == self.instructions.len() + instructions_before(statements, k)
                &&& forall|k: int|
                    0 <= k < statements.len() && #[trigger] is_instruction(statements[k])
                        ==> end.instructions[(self.instructions.len() + instructions_before(
                        statements,
                        k,
                    )) as int] == instruction_of(statements[k])
                &&& self.bounded() ==> end.bounded()
            }),
        decreases statements.len(),
    {
        if statements.len() > 0 {
            let first = statements[0];
            let rest = statements.skip(1);
            let next = self.take(first.value->Ok_0, first.with(()))->Ok_0;
            let end = self.take_all(statements)->Ok_0;
            next.lemma_take_all(rest);
            lemma_instruction_count_bound(rest);
            assert(statements.take(0) =~= Seq::empty());
            assert forall|k: int, name: Seq<char>|
                0 <= k < statements.len() && #[trigger] declares(
                    statements[k],
                    name,
                ) implies end.labels.contains_key(name) && end.labels[name]
                == self.instructions.len() + instructions_before(statements, k) by {
                if k > 0 {
                    lemma_instructions_before_step(statements, k);
                    assert(declares(rest[k - 1], name));
                } else {
                    assert(next.labels.contains_key(name));
                }
            }
            assert forall|k: int|
                0 <= k < statements.len() && #[trigger] is_instruction(
                    statements[k],
                ) implies end.instructions[(self.instructions.len() + instructions_before(
                statements,
                k,
            )) as int] == instruction_of(statements[k]) by {
                if k > 0 {
                    lemma_instructions_before_step(statements, k);
                    assert(is_instruction(rest[k - 1]));
                } else {
                    assert(next.instructions[self.instructions.len() as int] == instruction_of(
                        first,
                    ));
                }
            }
            assert forall|i: int| 0 <= i < self.instructions.len() implies (
            #[trigger] end.instructions[i]) == self.instructions[i] by {
                assert(next.instructions[i] == self.instructions[i]);
            }
            assert forall|name: Seq<char>| #[trigger]
                self.labels.contains_key(name) implies end.labels.contains_key(name)
                && end.labels[name] == self.labels[name] by {
                assert(next.labels.contains_key(name));
            }
            if self.bounded() {
                assert(next.bounded());
            }
        }
    }
}

/// A reference to a label resolves to the number of instruction statements
/// that stand before the declaration of the label, whether the declaration
/// stands before the reference or after it: the order of declaration and
/// use does not matter.
pub proof fn lemma_reference_resolves_to_declaration(
    statements: Seq<ItemView<StatementView>>,
    preserve_location: bool,
    name: Seq<char>,
    declaration: int,
    reference: int,
)
    requires
        statements.len() <= usize::MAX,
        assemble_statements(statements, preserve_location).value() is Ok,
        0 <= declaration < statements.len(),
        0 <= reference < statements.len(),
        declares(statements[declaration], name),
        refers_to(statements[reference], name),
    ensures
        ({
            let program = assemble_statements(statements, preserve_location).value()->Ok_0;
            &&& instructions_before(statements, reference) < program.len()
            &&& program.instruction(
                instructions_before(statements, reference) as int,
            ).jump_target() == Some(instructions_before(statements, declaration) as usize)
        }),
{
    let collected = Collected::empty().take_all(statements)->Ok_0;
    Collected::empty().lemma_take_all(statements);
    lemma_index_within(statements, reference);
    assert(is_instruction(statements[reference]));
    let index = instructions_before(statements, reference) as int;
    let count = collected.instructions.len();
    collected.lemma_resolved(count);
    assert(collected.resolves(index));
    assert(collected.resolved(count)->Ok_0[index] == collected.encoded(index));
    Collected::lemma_resolve(collected.instructions[index].value, collected.labels);
    lemma_instruction_count_bound(statements.take(declaration));
}

/// An instruction statement's index in the program is below the number of
/// instruction statements.
proof fn lemma_index_within(statements: Seq<ItemView<StatementView>>, position: int)
    requires
        0 <= position < statements.len(),
        is_instruction(statements[position]),
    ensures
        instructions_before(statements, position) < instruction_count(statements),
    decreases position,
{
    if position > 0 {
        lemma_instructions_before_step(statements, position);
        lemma_index_within(statements.skip(1), position - 1);
    } else {
        assert(statements.take(0) =~= Seq::empty());
    }
}

/// A program that a sequence of statements assembles into is valid: no
/// ring is made without cells, and every jump leads to an instruction of
/// the program or to its end.
pub proof fn lemma_assembled_program_is_valid(
    statements: Seq<ItemView<StatementView>>,
    preserve_location: bool,
)
    requires
        statements.len() <= usize::MAX,
        assemble_statements(statements, preserve_location).value() is Ok,
    ensures
        assemble_statements(statements, preserve_location).value()->Ok_0.valid(),
        assemble_statements(statements, preserve_location).value()->Ok_0.len()
            == instruction_count(statements),
{
    let start = Collected::empty();
    start.lemma_take_all(statements);
    start.take_all(statements)->Ok_0.lemma_finish_is_valid(preserve_location);
}

} // verus!

use rings::build::chars::CharIterator;
use rings::build::statement::{InstructionArg, InstructionStatement, Statement, StatementParser};
use rings::build::stream::Replay;
use rings::build::token::{Tokenizer, TokenizerError};
use rings::build::{AssemblerError, Program, ProgramAssembler};
use rings::error::RingsError;
use rings::instruction::{Instruction, InstructionError, InstructionPrimitive};
use rings::{Localized, MaybeLocalized};

fn at<V>(line: usize, column: usize, value: V) -> Localized<V> {
    Localized { line_number: line, char_number: column, value }
}

fn assemble(source: &str, preserve: bool) -> MaybeLocalized<Result<Program, RingsError>> {
    ProgramAssembler::assemble(source.as_bytes().to_vec(), preserve)
}

fn failure(source: &str) -> Localized<RingsError> {
    match assemble(source, false) {
        MaybeLocalized::Localized(l) => match l.value {
            Err(e) => at(l.line_number, l.char_number, e),
            Ok(_) => panic!("a program with a position"),
        },
        MaybeLocalized::General(_) => panic!("no position"),
    }
}

fn number(n: u8) -> InstructionArg {
    InstructionArg::Number(n)
}

fn label(name: &str) -> InstructionArg {
    InstructionArg::Label(String::from(name))
}

#[test]
fn forward_reference_resolves_to_the_index_behind_it() {
    let program = assemble("jmp :end\nhlt 1\n:end\nhlt 2\n", true);
    assert_eq!(
        program,
        MaybeLocalized::General(Ok(Program::Localized(vec![
            at(1, 1, Instruction::JMP(2)),
            at(2, 1, Instruction::HLT(1)),
            at(4, 1, Instruction::HLT(2)),
        ])))
    );
}

#[test]
fn program_without_positions_holds_the_same_instructions() {
    let program = assemble("jmp :end\nhlt 1\n:end\nhlt 2\n", false);
    assert_eq!(
        program,
        MaybeLocalized::General(Ok(Program::Unlocalized(vec![
            Instruction::JMP(2),
            Instruction::HLT(1),
            Instruction::HLT(2),
        ])))
    );
}

#[test]
fn reference_before_and_after_the_declaration_resolve_alike() {
    let program = assemble("jeq 0 0 :mid\n:mid\nhlt 0\njeq 0 0 :mid\n", false);
    assert_eq!(
        program,
        MaybeLocalized::General(Ok(Program::Unlocalized(vec![
            Instruction::JEQ(0, 0, 1),
            Instruction::HLT(0),
            Instruction::JEQ(0, 0, 1),
        ])))
    );
}

#[test]
fn loop_label_declared_first_and_exit_label_declared_last() {
    let program = assemble(":top\njgt 0 1 :exit\njlt 1 0 :top\njmp :top\n:exit\n", false);
    assert_eq!(
        program,
        MaybeLocalized::General(Ok(Program::Unlocalized(vec![
            Instruction::JGT(0, 1, 3),
            Instruction::JLT(1, 0, 0),
            Instruction::JMP(0),
        ])))
    );
}

#[test]
fn label_cannot_be_spelled_like_a_mnemonic() {
    assert_eq!(
        failure(":out\n"),
        at(
            1,
            1,
            RingsError::StatementParser(
                rings::build::statement::StatementParserError::LabelExpected(
                    rings::build::token::Token::InstructionPrimitive(InstructionPrimitive::OUT)
                )
            )
        )
    );
}

#[test]
fn every_mnemonic_assembles() {
    let source = "mkr 4\nput 0 7\nrot 0 1\nswp 0 1\ninp 2\nout 3\nerr 4\nadd 0 1 2\nsub 3 4 5\n\
                  mul 6 7 8\ndiv 9 10 11\njmp :l\njeq 1 2 :l\njgt 3 4 :l\njlt 5 6 :l\n:l\nhlt 9\n";
    assert_eq!(
        assemble(source, false),
        MaybeLocalized::General(Ok(Program::Unlocalized(vec![
            Instruction::MKR(4),
            Instruction::PUT(0, 7),
            Instruction::ROT(0, 1),
            Instruction::SWP(0, 1),
            Instruction::INP(2),
            Instruction::OUT(3),
            Instruction::ERR(4),
            Instruction::ADD(0, 1, 2),
            Instruction::SUB(3, 4, 5),
            Instruction::MUL(6, 7, 8),
            Instruction::DIV(9, 10, 11),
            Instruction::JMP(15),
            Instruction::JEQ(1, 2, 15),
            Instruction::JGT(3, 4, 15),
            Instruction::JLT(5, 6, 15),
            Instruction::HLT(9),
        ])))
    );
}

#[test]
fn empty_source_is_an_empty_program() {
    assert_eq!(assemble("", true), MaybeLocalized::General(Ok(Program::Localized(vec![]))));
    assert_eq!(
        assemble("# nothing\n\n", false),
        MaybeLocalized::General(Ok(Program::Unlocalized(vec![])))
    );
}

#[test]
fn ring_without_cells_fails_assembly() {
    assert_eq!(
        failure("mkr 0"),
        at(1, 1, RingsError::Assembler(AssemblerError::Validation(InstructionError::ZeroRingLength)))
    );
    assert_eq!(
        failure("hlt 1\n  mkr 0x00\nhlt 2\n"),
        at(2, 3, RingsError::Assembler(AssemblerError::Validation(InstructionError::ZeroRingLength)))
    );
}

#[test]
fn label_declared_twice_is_refused() {
    assert_eq!(
        failure(":a\nhlt 0\n:a\n"),
        at(3, 1, RingsError::Assembler(AssemblerError::DuplicateLabel(String::from("a"))))
    );
}

#[test]
fn label_that_is_declared_nowhere_is_not_found() {
    assert_eq!(
        failure("hlt 0\njeq 0 1 :nowhere\n"),
        at(2, 1, RingsError::Assembler(AssemblerError::LabelNotFound(String::from("nowhere"))))
    );
}

#[test]
fn argument_of_the_wrong_kind_is_refused() {
    assert_eq!(
        failure("jmp 3\n"),
        at(
            1,
            1,
            RingsError::Assembler(AssemblerError::InvalidInstructionArguments(
                InstructionPrimitive::JMP
            ))
        )
    );
    assert_eq!(
        failure(":a\nput :a 1\n"),
        at(
            2,
            1,
            RingsError::Assembler(AssemblerError::InvalidInstructionArguments(
                InstructionPrimitive::PUT
            ))
        )
    );
    assert_eq!(
        failure("jlt 1 :a :a\n"),
        at(
            1,
            1,
            RingsError::Assembler(AssemblerError::InvalidInstructionArguments(
                InstructionPrimitive::JLT
            ))
        )
    );
}

#[test]
fn kinds_are_checked_before_the_label_is_looked_up() {
    assert_eq!(
        failure("jeq :x 1 :nowhere\n:x\n"),
        at(
            1,
            1,
            RingsError::Assembler(AssemblerError::InvalidInstructionArguments(
                InstructionPrimitive::JEQ
            ))
        )
    );
}

#[test]
fn gathering_ends_before_resolving_starts() {
    assert_eq!(
        failure("jmp :nowhere\n:a\n:a\n"),
        at(3, 1, RingsError::Assembler(AssemblerError::DuplicateLabel(String::from("a"))))
    );
    assert_eq!(
        failure("mkr 0\nput 0 0x\n"),
        at(2, 7, RingsError::Tokenizer(TokenizerError::InvalidCharacter('\n')))
    );
}

#[test]
fn first_statement_that_does_not_resolve_is_reported() {
    assert_eq!(
        failure("jmp :a\njmp :b\n"),
        at(1, 1, RingsError::Assembler(AssemblerError::LabelNotFound(String::from("a"))))
    );
}

#[test]
fn statement_with_too_few_or_too_many_arguments_is_refused() {
    let statements = Replay::new(vec![at(
        4,
        2,
        Ok(Statement::Instruction(InstructionStatement::Instruction1(
            InstructionPrimitive::PUT,
            number(1),
        ))),
    )]);
    assert_eq!(
        ProgramAssembler::assemble_from(statements, true),
        MaybeLocalized::Localized(at(
            4,
            2,
            Err(RingsError::Assembler(AssemblerError::WrongNumberOfArguments {
                primitive: InstructionPrimitive::PUT,
                expected: 2,
                got: 1,
            }))
        ))
    );
    let statements = Replay::new(vec![at(
        1,
        1,
        Ok(Statement::Instruction(InstructionStatement::Instruction3(
            InstructionPrimitive::HLT,
            number(1),
            number(2),
            number(3),
        ))),
    )]);
    assert_eq!(
        ProgramAssembler::assemble_from(statements, false),
        MaybeLocalized::Localized(at(
            1,
            1,
            Err(RingsError::Assembler(AssemblerError::WrongNumberOfArguments {
                primitive: InstructionPrimitive::HLT,
                expected: 1,
                got: 3,
            }))
        ))
    );
    let statements = Replay::new(vec![at(
        1,
        1,
        Ok(Statement::Instruction(InstructionStatement::Instruction2(
            InstructionPrimitive::ADD,
            number(1),
            number(2),
        ))),
    )]);
    assert_eq!(
        ProgramAssembler::assemble_from(statements, false),
        MaybeLocalized::Localized(at(
            1,
            1,
            Err(RingsError::Assembler(AssemblerError::WrongNumberOfArguments {
                primitive: InstructionPrimitive::ADD,
                expected: 3,
                got: 2,
            }))
        ))
    );
}

#[test]
fn error_among_the_statements_is_handed_on_with_its_position() {
    let statements = Replay::new(vec![
        at(1, 1, Ok(Statement::Label(String::from("a")))),
        at(2, 5, Err(RingsError::IoError(String::from("gone")))),
    ]);
    assert_eq!(
        ProgramAssembler::assemble_from(statements, false),
        MaybeLocalized::Localized(at(2, 5, Err(RingsError::IoError(String::from("gone")))))
    );
}

#[test]
fn source_that_cannot_be_read_to_its_end_fails_where_reading_stopped() {
    let chars = CharIterator::failing(b"hlt 1\nhl".to_vec(), String::from("gone"));
    let statements = StatementParser::new(Tokenizer::new(chars));
    assert_eq!(
        ProgramAssembler::assemble_from(statements, false),
        MaybeLocalized::Localized(at(
            2,
            3,
            Err(RingsError::CharacterRead(
                rings::build::chars::CharacterReaderError::IoError(String::from("gone"))
            ))
        ))
    );
}

#[test]
fn assembler_can_be_driven_by_hand() {
    let mut assembler = ProgramAssembler::new();
    let jump = Statement::Instruction(InstructionStatement::Instruction1(
        InstructionPrimitive::JMP,
        label("end"),
    ));
    assert_eq!(assembler.consume_raw_statement(jump, &at(1, 1, ())), Ok(()));
    assert_eq!(
        assembler.consume_raw_statement(Statement::Label(String::from("end")), &at(2, 1, ())),
        Ok(())
    );
    assert_eq!(
        assembler.consume_raw_statement(Statement::Label(String::from("end")), &at(3, 1, ())),
        Err(AssemblerError::DuplicateLabel(String::from("end")))
    );
    assert_eq!(
        assembler.resolve_statement(&InstructionStatement::Instruction3(
            InstructionPrimitive::JGT,
            number(4),
            number(5),
            label("end"),
        )),
        Ok(Instruction::JGT(4, 5, 1))
    );
    assert_eq!(
        assembler.resolve_statement(&InstructionStatement::Instruction1(
            InstructionPrimitive::MKR,
            number(0),
        )),
        Err(AssemblerError::Validation(InstructionError::ZeroRingLength))
    );
    assert_eq!(
        assembler.assemble_inner(true),
        MaybeLocalized::General(Ok(Program::Localized(vec![at(1, 1, Instruction::JMP(1))])))
    );
}

#[test]
fn program_hands_out_its_instructions_by_index() {
    let with = assemble("hlt 1\n  hlt 2\n", true).unwrap().unwrap();
    assert_eq!(with.len(), 2);
    assert_eq!(with.get(0), Some(MaybeLocalized::Localized(at(1, 1, Instruction::HLT(1)))));
    assert_eq!(with.get(1), Some(MaybeLocalized::Localized(at(2, 3, Instruction::HLT(2)))));
    assert_eq!(with.get(2), None);
    let without = assemble("hlt 1\n  hlt 2\n", false).unwrap().unwrap();
    assert_eq!(without.len(), 2);
    assert_eq!(without.get(1), Some(MaybeLocalized::General(Instruction::HLT(2))));
    assert_eq!(without.get(2), None);
}

use rings::build::{Program, ProgramAssembler};
use rings::error::RingsError;
use rings::instruction::{Arith, Emit, Instruction, Outcome, Relation};
use rings::io::RingsIo;
use rings::vm::{Playback, RingsVM, RuntimeError};
use rings::MaybeLocalized;

struct Script {
    input: Vec<u8>,
    cursor: usize,
    output: Vec<u8>,
    errors: Vec<u8>,
}

impl Script {
    fn new(input: &[u8]) -> Self {
        Script { input: input.to_vec(), cursor: 0, output: Vec::new(), errors: Vec::new() }
    }
}

impl RingsIo for Script {
    fn inp(&mut self, _vm: &RingsVM) -> Option<u8> {
        let byte = self.input.get(self.cursor).copied();
        self.cursor += 1;
        byte
    }

    fn out(&mut self, value: u8, _vm: &RingsVM) {
        self.output.push(value);
    }

    fn err(&mut self, value: u8, _vm: &RingsVM) {
        self.errors.push(value);
    }
}

fn assemble(source: &str) -> Program {
    match ProgramAssembler::assemble(source.as_bytes().to_vec(), true) {
        MaybeLocalized::General(Ok(program)) => program,
        other => panic!("assembly failed: {:?}", other),
    }
}

#[test]
fn halt_sets_the_exit_code_and_prints_nothing() {
    let program = assemble("hlt 3");
    let mut io = Script::new(&[]);
    let result = RingsVM::execute(&program, &mut io, 100);
    assert_eq!(result, MaybeLocalized::General(Ok(Some(3))));
    assert!(io.output.is_empty());
    assert!(io.errors.is_empty());
}

#[test]
fn addition_out_of_range_fails_without_wrapping() {
    let program =
        assemble("mkr 1\nmkr 1\nmkr 1\nput 0 200\nput 1 100\nadd 0 1 2\nout 2\n");
    let mut io = Script::new(&[]);
    let result = RingsVM::execute(&program, &mut io, 100);
    match result {
        MaybeLocalized::Localized(at) => {
            assert_eq!(at.line_number, 6);
            assert_eq!(at.char_number, 1);
            assert_eq!(at.value, Err(RingsError::Runtime(RuntimeError::InvalidValue(300))));
        }
        other => panic!("unexpected: {:?}", other),
    }
    assert!(io.output.is_empty());
}

#[test]
fn division_by_zero_fails() {
    let program = assemble("mkr 1\nmkr 1\nmkr 1\nput 0 9\ndiv 0 1 2\n");
    let mut io = Script::new(&[]);
    let result = RingsVM::execute(&program, &mut io, 100);
    assert_eq!(
        result.unwrap(),
        Err(RingsError::Runtime(RuntimeError::DivideByZero))
    );
}

#[test]
fn endless_loop_prints_five_on_every_round() {
    let program = assemble(":start\nmkr 1\nput 0 5\nout 0\njmp :start\n");
    let mut io = Script::new(&[]);
    let result = RingsVM::execute(&program, &mut io, 40);
    assert_eq!(result, MaybeLocalized::General(Ok(None)));
    assert_eq!(io.output, vec![5u8; 10]);
}

fn machine_with(rings: &[(u8, u8)]) -> RingsVM {
    let mut vm = RingsVM::new();
    for (capacity, value) in rings {
        assert_eq!(
            Instruction::MKR(*capacity).apply(&mut vm, None),
            (Outcome::Continue, Emit::Nothing)
        );
        let id = (vm.rings.len() - 1) as u8;
        assert_eq!(
            Instruction::PUT(id, *value).apply(&mut vm, None),
            (Outcome::Continue, Emit::Nothing)
        );
    }
    vm
}

fn currents(vm: &RingsVM) -> Vec<u8> {
    vm.rings.iter().map(|r| *r.current()).collect()
}

#[test]
fn fresh_machine_is_empty() {
    let vm = RingsVM::new();
    assert!(vm.rings.is_empty());
    assert_eq!(vm.pc, 0);
    assert_eq!(vm.exit_code, None);
}

#[test]
fn mkr_appends_rings_in_order_of_creation() {
    let mut vm = RingsVM::new();
    assert_eq!(Instruction::MKR(3).apply(&mut vm, None), (Outcome::Continue, Emit::Nothing));
    assert_eq!(Instruction::MKR(200).apply(&mut vm, None), (Outcome::Continue, Emit::Nothing));
    assert_eq!(vm.rings.len(), 2);
    assert_eq!(vm.rings[0].len(), 3);
    assert_eq!(vm.rings[1].len(), 200);
    assert_eq!(currents(&vm), vec![0, 0]);
}

#[test]
fn mkr_without_cells_fails_at_run_time_too() {
    let mut vm = RingsVM::new();
    assert_eq!(
        Instruction::MKR(0).apply(&mut vm, None),
        (Outcome::Fail(RuntimeError::ZeroRingSize), Emit::Nothing)
    );
    assert!(vm.rings.is_empty());
}

#[test]
fn ring_count_stops_at_255() {
    let mut vm = RingsVM::new();
    for _ in 0..300 {
        assert_eq!(Instruction::MKR(1).apply(&mut vm, None), (Outcome::Continue, Emit::Nothing));
    }
    assert_eq!(vm.rings.len(), 255);
    assert_eq!(Instruction::PUT(254, 1).apply(&mut vm, None), (Outcome::Continue, Emit::Nothing));
    assert_eq!(
        Instruction::PUT(255, 1).apply(&mut vm, None),
        (Outcome::Fail(RuntimeError::InvalidRing(255)), Emit::Nothing)
    );
}

#[test]
fn put_sets_the_current_cell() {
    let mut vm = machine_with(&[(2, 0), (2, 0)]);
    assert_eq!(Instruction::PUT(1, 42).apply(&mut vm, None), (Outcome::Continue, Emit::Nothing));
    assert_eq!(currents(&vm), vec![0, 42]);
    assert_eq!(
        Instruction::PUT(2, 42).apply(&mut vm, None),
        (Outcome::Fail(RuntimeError::InvalidRing(2)), Emit::Nothing)
    );
}

#[test]
fn rot_turns_one_ring() {
    let mut vm = machine_with(&[(3, 7), (3, 8)]);
    assert_eq!(Instruction::ROT(0, 1).apply(&mut vm, None), (Outcome::Continue, Emit::Nothing));
    assert_eq!(currents(&vm), vec![0, 8]);
    assert_eq!(Instruction::ROT(0, 2).apply(&mut vm, None), (Outcome::Continue, Emit::Nothing));
    assert_eq!(currents(&vm), vec![7, 8]);
    assert_eq!(
        Instruction::ROT(9, 2).apply(&mut vm, None),
        (Outcome::Fail(RuntimeError::InvalidRing(9)), Emit::Nothing)
    );
}

#[test]
fn swp_exchanges_two_current_cells() {
    let mut vm = machine_with(&[(1, 5), (1, 6), (1, 7)]);
    assert_eq!(Instruction::SWP(0, 2).apply(&mut vm, None), (Outcome::Continue, Emit::Nothing));
    assert_eq!(currents(&vm), vec![7, 6, 5]);
    assert_eq!(Instruction::SWP(1, 1).apply(&mut vm, None), (Outcome::Continue, Emit::Nothing));
    assert_eq!(currents(&vm), vec![7, 6, 5]);
    assert_eq!(
        Instruction::SWP(3, 4).apply(&mut vm, None),
        (Outcome::Fail(RuntimeError::InvalidRing(3)), Emit::Nothing)
    );
    assert_eq!(
        Instruction::SWP(0, 4).apply(&mut vm, None),
        (Outcome::Fail(RuntimeError::InvalidRing(4)), Emit::Nothing)
    );
    assert_eq!(currents(&vm), vec![7, 6, 5]);
}

#[test]
fn inp_takes_the_byte_it_is_given() {
    let mut vm = machine_with(&[(1, 5)]);
    assert!(Instruction::INP(0).needs_input());
    assert!(!Instruction::OUT(0).needs_input());
    assert_eq!(
        Instruction::INP(0).apply(&mut vm, Some(200)),
        (Outcome::Continue, Emit::Nothing)
    );
    assert_eq!(currents(&vm), vec![200]);
    assert_eq!(
        Instruction::INP(0).apply(&mut vm, None),
        (Outcome::Fail(RuntimeError::InputFailure), Emit::Nothing)
    );
    assert_eq!(
        Instruction::INP(1).apply(&mut vm, Some(1)),
        (Outcome::Fail(RuntimeError::InvalidRing(1)), Emit::Nothing)
    );
    assert_eq!(
        Instruction::INP(1).apply(&mut vm, None),
        (Outcome::Fail(RuntimeError::InputFailure), Emit::Nothing)
    );
    assert_eq!(currents(&vm), vec![200]);
}

#[test]
fn out_and_err_send_the_current_cell() {
    let mut vm = machine_with(&[(1, 5), (1, 6)]);
    assert_eq!(Instruction::OUT(1).apply(&mut vm, None), (Outcome::Continue, Emit::Output(6)));
    assert_eq!(Instruction::ERR(0).apply(&mut vm, None), (Outcome::Continue, Emit::Error(5)));
    assert_eq!(
        Instruction::OUT(2).apply(&mut vm, None),
        (Outcome::Fail(RuntimeError::InvalidRing(2)), Emit::Nothing)
    );
    assert_eq!(
        Instruction::ERR(2).apply(&mut vm, None),
        (Outcome::Fail(RuntimeError::InvalidRing(2)), Emit::Nothing)
    );
}

#[test]
fn arithmetic_stays_within_a_byte() {
    let mut vm = machine_with(&[(1, 200), (1, 55), (1, 0)]);
    assert_eq!(Instruction::ADD(0, 1, 2).apply(&mut vm, None), (Outcome::Continue, Emit::Nothing));
    assert_eq!(currents(&vm), vec![200, 55, 255]);
    assert_eq!(Instruction::SUB(0, 1, 2).apply(&mut vm, None), (Outcome::Continue, Emit::Nothing));
    assert_eq!(currents(&vm), vec![200, 55, 145]);
    assert_eq!(Instruction::DIV(0, 1, 2).apply(&mut vm, None), (Outcome::Continue, Emit::Nothing));
    assert_eq!(currents(&vm), vec![200, 55, 3]);
    assert_eq!(Instruction::MUL(1, 2, 0).apply(&mut vm, None), (Outcome::Continue, Emit::Nothing));
    assert_eq!(currents(&vm), vec![165, 55, 3]);
    assert_eq!(Instruction::SUB(1, 1, 1).apply(&mut vm, None), (Outcome::Continue, Emit::Nothing));
    assert_eq!(currents(&vm), vec![165, 0, 3]);
}

#[test]
fn arithmetic_out_of_range_is_an_error_with_the_exact_result() {
    let mut vm = machine_with(&[(1, 200), (1, 100), (1, 9)]);
    assert_eq!(
        Instruction::ADD(0, 1, 2).apply(&mut vm, None),
        (Outcome::Fail(RuntimeError::InvalidValue(300)), Emit::Nothing)
    );
    assert_eq!(
        Instruction::SUB(1, 0, 2).apply(&mut vm, None),
        (Outcome::Fail(RuntimeError::InvalidValue(-100)), Emit::Nothing)
    );
    assert_eq!(
        Instruction::MUL(0, 1, 2).apply(&mut vm, None),
        (Outcome::Fail(RuntimeError::InvalidValue(20000)), Emit::Nothing)
    );
    assert_eq!(currents(&vm), vec![200, 100, 9]);
}

#[test]
fn division_by_zero_is_an_error() {
    let mut vm = machine_with(&[(1, 200), (1, 0), (1, 9)]);
    assert_eq!(
        Instruction::DIV(0, 1, 2).apply(&mut vm, None),
        (Outcome::Fail(RuntimeError::DivideByZero), Emit::Nothing)
    );
    assert_eq!(
        Instruction::DIV(1, 1, 2).apply(&mut vm, None),
        (Outcome::Fail(RuntimeError::DivideByZero), Emit::Nothing)
    );
    assert_eq!(Instruction::DIV(1, 0, 2).apply(&mut vm, None), (Outcome::Continue, Emit::Nothing));
    assert_eq!(currents(&vm), vec![200, 0, 0]);
}

#[test]
fn arithmetic_checks_rings_in_order_and_the_result_before_the_target() {
    let mut vm = machine_with(&[(1, 200), (1, 100)]);
    assert_eq!(
        Instruction::ADD(7, 8, 9).apply(&mut vm, None),
        (Outcome::Fail(RuntimeError::InvalidRing(7)), Emit::Nothing)
    );
    assert_eq!(
        Instruction::ADD(0, 8, 9).apply(&mut vm, None),
        (Outcome::Fail(RuntimeError::InvalidRing(8)), Emit::Nothing)
    );
    assert_eq!(
        Instruction::ADD(0, 1, 9).apply(&mut vm, None),
        (Outcome::Fail(RuntimeError::InvalidValue(300)), Emit::Nothing)
    );
    assert_eq!(
        Instruction::SUB(0, 1, 9).apply(&mut vm, None),
        (Outcome::Fail(RuntimeError::InvalidRing(9)), Emit::Nothing)
    );
}

#[test]
fn operations_compute_on_bytes() {
    assert_eq!(Arith::Add.compute(255, 0), Ok(255));
    assert_eq!(Arith::Add.compute(255, 1), Err(RuntimeError::InvalidValue(256)));
    assert_eq!(Arith::Add.compute(255, 255), Err(RuntimeError::InvalidValue(510)));
    assert_eq!(Arith::Sub.compute(0, 0), Ok(0));
    assert_eq!(Arith::Sub.compute(0, 255), Err(RuntimeError::InvalidValue(-255)));
    assert_eq!(Arith::Mul.compute(15, 17), Ok(255));
    assert_eq!(Arith::Mul.compute(16, 16), Err(RuntimeError::InvalidValue(256)));
    assert_eq!(Arith::Mul.compute(255, 255), Err(RuntimeError::InvalidValue(65025)));
    assert_eq!(Arith::Div.compute(255, 2), Ok(127));
    assert_eq!(Arith::Div.compute(0, 9), Ok(0));
    assert_eq!(Arith::Div.compute(9, 0), Err(RuntimeError::DivideByZero));
    assert!(Relation::Equal.test(3, 3));
    assert!(!Relation::Equal.test(3, 4));
    assert!(Relation::Greater.test(4, 3));
    assert!(!Relation::Greater.test(3, 3));
    assert!(Relation::Less.test(3, 4));
    assert!(!Relation::Less.test(4, 4));
}

#[test]
fn jumps_depend_on_the_current_cells() {
    let mut vm = machine_with(&[(1, 5), (1, 6), (1, 5)]);
    assert_eq!(Instruction::JMP(9).apply(&mut vm, None), (Outcome::Jump(9), Emit::Nothing));
    assert_eq!(Instruction::JEQ(0, 2, 4).apply(&mut vm, None), (Outcome::Jump(4), Emit::Nothing));
    assert_eq!(Instruction::JEQ(0, 1, 4).apply(&mut vm, None), (Outcome::Continue, Emit::Nothing));
    assert_eq!(Instruction::JGT(1, 0, 4).apply(&mut vm, None), (Outcome::Jump(4), Emit::Nothing));
    assert_eq!(Instruction::JGT(0, 2, 4).apply(&mut vm, None), (Outcome::Continue, Emit::Nothing));
    assert_eq!(Instruction::JLT(0, 1, 4).apply(&mut vm, None), (Outcome::Jump(4), Emit::Nothing));
    assert_eq!(Instruction::JLT(1, 0, 4).apply(&mut vm, None), (Outcome::Continue, Emit::Nothing));
    assert_eq!(
        Instruction::JLT(3, 0, 4).apply(&mut vm, None),
        (Outcome::Fail(RuntimeError::InvalidRing(3)), Emit::Nothing)
    );
    assert_eq!(
        Instruction::JEQ(0, 3, 4).apply(&mut vm, None),
        (Outcome::Fail(RuntimeError::InvalidRing(3)), Emit::Nothing)
    );
    assert_eq!(vm.pc, 0);
}

#[test]
fn apply_leaves_counter_and_exit_code_to_settle() {
    let mut vm = RingsVM::new();
    assert_eq!(Instruction::HLT(7).apply(&mut vm, None), (Outcome::Halt(7), Emit::Nothing));
    assert_eq!(vm.exit_code, None);
    assert_eq!(vm.settle(Outcome::Halt(7)), Ok(()));
    assert_eq!(vm.exit_code, Some(7));
    assert_eq!(vm.settle(Outcome::Jump(12)), Ok(()));
    assert_eq!(vm.pc, 12);
    assert_eq!(vm.settle(Outcome::Continue), Ok(()));
    assert_eq!(vm.pc, 12);
    assert_eq!(
        vm.settle(Outcome::Fail(RuntimeError::DivideByZero)),
        Err(RuntimeError::DivideByZero)
    );
}

#[test]
fn execute_asks_for_input_only_on_inp() {
    let mut vm = machine_with(&[(1, 5)]);
    let mut io = Script::new(&[9, 8]);
    assert_eq!(Instruction::OUT(0).execute(&mut vm, &mut io), Ok(()));
    assert_eq!(io.cursor, 0);
    assert_eq!(Instruction::INP(0).execute(&mut vm, &mut io), Ok(()));
    assert_eq!(io.cursor, 1);
    assert_eq!(Instruction::ERR(0).execute(&mut vm, &mut io), Ok(()));
    assert_eq!(Instruction::INP(3).execute(&mut vm, &mut io), Err(RuntimeError::InvalidRing(3)));
    assert_eq!(io.cursor, 2);
    assert_eq!(Instruction::INP(0).execute(&mut vm, &mut io), Err(RuntimeError::InputFailure));
    assert_eq!(Instruction::JMP(4).execute(&mut vm, &mut io), Ok(()));
    assert_eq!(vm.pc, 4);
    assert_eq!(Instruction::HLT(2).execute(&mut vm, &mut io), Ok(()));
    assert_eq!(vm.exit_code, Some(2));
    assert_eq!(io.output, vec![5]);
    assert_eq!(io.errors, vec![9]);
}

#[test]
fn ring_helpers_of_the_machine() {
    let mut vm = machine_with(&[(1, 5), (2, 6)]);
    assert_eq!(vm.read_current(1), Ok(6));
    assert_eq!(vm.read_current(2), Err(RuntimeError::InvalidRing(2)));
    assert_eq!(vm.write_current(0, 9), Ok(()));
    assert_eq!(vm.write_current(2, 9), Err(RuntimeError::InvalidRing(2)));
    assert_eq!(currents(&vm), vec![9, 6]);
    vm.get_ring(1).unwrap().rotate(1);
    assert_eq!(currents(&vm), vec![9, 0]);
    assert_eq!(vm.get_ring(2).err(), Some(RuntimeError::InvalidRing(2)));
}

#[test]
fn program_that_runs_off_its_end_exits_with_zero() {
    let program = assemble("mkr 1\nput 0 65\nout 0\nerr 0\n");
    let mut io = Script::new(&[]);
    assert_eq!(
        RingsVM::execute(&program, &mut io, 100),
        MaybeLocalized::General(Ok(Some(0)))
    );
    assert_eq!(io.output, vec![65]);
    assert_eq!(io.errors, vec![65]);
    let empty = assemble("");
    assert_eq!(RingsVM::execute(&empty, &mut io, 0), MaybeLocalized::General(Ok(None)));
    assert_eq!(RingsVM::execute(&empty, &mut io, 1), MaybeLocalized::General(Ok(Some(0))));
}

#[test]
fn jump_to_the_end_of_the_program_exits_with_zero() {
    let program = assemble("jmp :end\nhlt 9\n:end\n");
    let mut io = Script::new(&[]);
    assert_eq!(
        RingsVM::execute(&program, &mut io, 100),
        MaybeLocalized::General(Ok(Some(0)))
    );
}

#[test]
fn countdown_loop_prints_and_halts() {
    let source = "mkr 1\nmkr 1\nmkr 1\nput 0 3\nput 1 1\n:again\nout 0\nsub 0 1 0\n\
                  jgt 0 2 :again\nhlt 42\n";
    let program = assemble(source);
    let mut io = Script::new(&[]);
    assert_eq!(
        RingsVM::execute(&program, &mut io, 1000),
        MaybeLocalized::General(Ok(Some(42)))
    );
    assert_eq!(io.output, vec![3, 2, 1]);
}

#[test]
fn echo_program_copies_input_until_it_fails() {
    let program = assemble(":again\nmkr 1\ninp 0\nout 0\njmp :again\n");
    let mut io = Script::new(&[104, 105]);
    let result = RingsVM::execute(&program, &mut io, 1000);
    assert_eq!(
        result,
        MaybeLocalized::Localized(rings::Localized {
            line_number: 3,
            char_number: 1,
            value: Err(RingsError::Runtime(RuntimeError::InputFailure)),
        })
    );
    assert_eq!(io.output, vec![104, 105]);
}

#[test]
fn failure_of_a_program_without_positions_has_none() {
    let program = match ProgramAssembler::assemble(b"out 0\n".to_vec(), false) {
        MaybeLocalized::General(Ok(program)) => program,
        other => panic!("assembly failed: {:?}", other),
    };
    let mut io = Script::new(&[]);
    assert_eq!(
        RingsVM::execute(&program, &mut io, 10),
        MaybeLocalized::General(Err(RingsError::Runtime(RuntimeError::InvalidRing(0))))
    );
}

#[test]
fn run_can_be_resumed_where_the_cycles_ran_out() {
    let program = assemble("mkr 1\nput 0 1\nout 0\nput 0 2\nout 0\nhlt 5\n");
    let mut io = Script::new(&[]);
    let mut vm = RingsVM::new();
    assert_eq!(vm.resume(&program, &mut io, 3), MaybeLocalized::General(Ok(None)));
    assert_eq!(vm.pc, 3);
    assert_eq!(io.output, vec![1]);
    assert_eq!(vm.resume(&program, &mut io, 0), MaybeLocalized::General(Ok(None)));
    assert_eq!(vm.resume(&program, &mut io, 100), MaybeLocalized::General(Ok(Some(5))));
    assert_eq!(vm.pc, 6);
    assert_eq!(vm.exit_code, Some(5));
    assert_eq!(io.output, vec![1, 2]);
    assert_eq!(vm.resume(&program, &mut io, 100), MaybeLocalized::General(Ok(Some(5))));
    assert_eq!(vm.pc, 6);
}

#[test]
fn single_cycles_report_how_the_run_stands() {
    let program = assemble("mkr 2\ninp 0\nout 0\nout 9\n");
    let mut vm = RingsVM::new();
    assert_eq!(vm.advance(&program, None), (MaybeLocalized::General(Ok(None)), Emit::Nothing));
    assert_eq!(vm.advance(&program, Some(7)), (MaybeLocalized::General(Ok(None)), Emit::Nothing));
    assert_eq!(vm.advance(&program, None), (MaybeLocalized::General(Ok(None)), Emit::Output(7)));
    assert_eq!(vm.pc, 3);
    let (result, emit) = vm.advance(&program, None);
    assert_eq!(
        result,
        MaybeLocalized::Localized(rings::Localized {
            line_number: 4,
            char_number: 1,
            value: Err(RingsError::Runtime(RuntimeError::InvalidRing(9))),
        })
    );
    assert_eq!(emit, Emit::Nothing);
    assert_eq!(vm.pc, 4);
    assert_eq!(vm.advance(&program, None), (MaybeLocalized::General(Ok(Some(0))), Emit::Nothing));
    let mut io = Script::new(&[]);
    let mut halted = RingsVM::new();
    let program = assemble("hlt 8\nout 0\n");
    assert_eq!(halted.step(&program, &mut io), MaybeLocalized::General(Ok(Some(8))));
    assert_eq!(halted.step(&program, &mut io), MaybeLocalized::General(Ok(Some(8))));
    assert_eq!(halted.pc, 1);
}

#[test]
fn halt_as_the_sole_instruction_exits_with_its_code_and_no_output() {
    let program = assemble("hlt 3");
    let mut vm = RingsVM::new();
    let played = vm.play(&program, &vec![1, 2, 3], 1000);
    assert_eq!(
        played,
        Playback {
            result: MaybeLocalized::General(Ok(Some(3))),
            consumed: 0,
            output: vec![],
            errors: vec![],
        }
    );
    assert_eq!(vm.exit_code, Some(3));
    assert_eq!(vm.pc, 1);
}

#[test]
fn endless_loop_goes_on_past_the_last_ring() {
    let program = assemble(":start\nmkr 1\nput 0 5\nout 0\njmp :start\n");
    let mut vm = RingsVM::new();
    let played = vm.play(&program, &vec![], 4 * 600);
    assert_eq!(played.result, MaybeLocalized::General(Ok(None)));
    assert_eq!(played.output, vec![5u8; 600]);
    assert!(played.errors.is_empty());
    assert_eq!(vm.rings.len(), 255);
    assert_eq!(vm.pc, 0);
}

#[test]
fn known_input_is_taken_byte_by_byte() {
    let program = assemble("mkr 1\n:again\ninp 0\nout 0\nerr 0\njmp :again\n");
    let mut vm = RingsVM::new();
    assert!(!vm.awaits_input(&program));
    let played = vm.play(&program, &vec![7, 8], 1);
    assert_eq!(played.consumed, 0);
    assert!(vm.awaits_input(&program));
    let played = vm.play(&program, &vec![7, 8], 1000);
    assert_eq!(
        played,
        Playback {
            result: MaybeLocalized::Localized(rings::Localized {
                line_number: 3,
                char_number: 1,
                value: Err(RingsError::Runtime(RuntimeError::InputFailure)),
            }),
            consumed: 3,
            output: vec![7, 8],
            errors: vec![7, 8],
        }
    );
}

#[test]
fn play_with_no_cycles_does_nothing() {
    let program = assemble("hlt 3");
    let mut vm = RingsVM::new();
    let played = vm.play(&program, &vec![], 0);
    assert_eq!(played.result, MaybeLocalized::General(Ok(None)));
    assert_eq!(vm.pc, 0);
    assert_eq!(vm.exit_code, None);
}

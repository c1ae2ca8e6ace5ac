use indexmap::IndexMap;
use urm::instructions::{Condition, Program, Statement};
use urm::parser::parse_urm_code;
use urm::simulator::{
    execute_statement, read_register, run_static_analysis, run_without_debug, simulate_urm,
    statement_fits, ExecutionState, StepOutcome, ValidationError,
};

fn name(text: &str) -> String {
    text.to_string()
}

fn program(inputs: &[&str], statements: Vec<Statement>, output: &str) -> Program {
    Program {
        input_registers: inputs.iter().map(|r| r.to_string()).collect(),
        statements,
        output_register: output.to_string(),
    }
}

fn increment(register: &str) -> Statement {
    Statement::Increment { register: name(register) }
}

fn decrement(register: &str) -> Statement {
    Statement::Decrement { register: name(register) }
}

fn reset(register: &str) -> Statement {
    Statement::ZeroAssignment { register: name(register) }
}

fn goto(target: usize) -> Statement {
    Statement::Goto { target }
}

fn jump_if(register: &str, condition: Condition, target: usize) -> Statement {
    Statement::ConditionalGoto { register: name(register), condition, target }
}

#[test]
fn addition_of_two_inputs() {
    let parsed =
        parse_urm_code("in(R1,R2); if R2==0 goto 5; R2--; R1++; goto 1; out(R1)").unwrap();
    assert_eq!(simulate_urm(&parsed, vec![5, 3]), Ok(8));
    assert_eq!(simulate_urm(&parsed, vec![0, 0]), Ok(0));
    assert_eq!(simulate_urm(&parsed, vec![7, 0]), Ok(7));
}

#[test]
fn duplicate_input_names_are_refused_whatever_the_input() {
    let p = program(&["R1", "R1"], vec![increment("R1")], "R1");
    assert_eq!(run_static_analysis(&p, &vec![]), Err(ValidationError::DuplicateInputRegisters));
    assert_eq!(run_static_analysis(&p, &vec![1]), Err(ValidationError::DuplicateInputRegisters));
    assert_eq!(
        run_static_analysis(&p, &vec![1, 2]),
        Err(ValidationError::DuplicateInputRegisters)
    );
    assert_eq!(simulate_urm(&p, vec![1, 2]), Err(ValidationError::DuplicateInputRegisters));
    assert!(ExecutionState::init(&p, &vec![1, 2]).is_err());
}

#[test]
fn duplicates_are_found_when_they_are_not_neighbours() {
    let p = program(&["A", "B", "C", "A"], vec![], "A");
    assert_eq!(
        run_static_analysis(&p, &vec![1, 2, 3, 4]),
        Err(ValidationError::DuplicateInputRegisters)
    );
    let q = program(&["A", "B", "C", "D"], vec![], "A");
    assert_eq!(run_static_analysis(&q, &vec![1, 2, 3, 4]), Ok(()));
}

#[test]
fn arity_mismatch_reports_both_counts() {
    let parsed = parse_urm_code("in(R1,R2) R1++; out(R1)").unwrap();
    let expected = ValidationError::InputCountMismatch { expected: 2, provided: 1 };
    assert_eq!(run_static_analysis(&parsed, &vec![4]), Err(expected));
    assert_eq!(simulate_urm(&parsed, vec![4]), Err(expected));
    assert_eq!(
        run_static_analysis(&parsed, &vec![4, 5, 6]),
        Err(ValidationError::InputCountMismatch { expected: 2, provided: 3 })
    );
}

#[test]
fn validation_messages() {
    assert_eq!(
        ValidationError::DuplicateInputRegisters.message(),
        "Input registers must be unique"
    );
    assert_eq!(
        ValidationError::InputCountMismatch { expected: 2, provided: 10 }.message(),
        "Input vector length does not match input register length. \
         Program expects 2 inputs, but 10 were provided"
    );
}

#[test]
fn duplicates_are_reported_before_the_count() {
    let p = program(&["R1", "R1"], vec![], "R1");
    assert_eq!(
        run_static_analysis(&p, &vec![1, 2, 3]),
        Err(ValidationError::DuplicateInputRegisters)
    );
}

#[test]
fn a_program_without_inputs_runs_on_no_values() {
    let p = program(&[], vec![increment("X"), increment("X")], "X");
    assert_eq!(run_static_analysis(&p, &vec![]), Ok(()));
    assert_eq!(simulate_urm(&p, vec![]), Ok(2));
    assert_eq!(
        simulate_urm(&p, vec![1]),
        Err(ValidationError::InputCountMismatch { expected: 0, provided: 1 })
    );
}

#[test]
fn conditional_jump_on_an_unmentioned_register_is_taken() {
    let p = program(
        &["R1"],
        vec![jump_if("R9", Condition::Equal, 3), increment("R1"), increment("R1")],
        "R1",
    );
    assert_eq!(simulate_urm(&p, vec![10]), Ok(11));
    let q = program(
        &["R1"],
        vec![jump_if("R9", Condition::NotEqual, 3), increment("R1"), increment("R1")],
        "R1",
    );
    assert_eq!(simulate_urm(&q, vec![10]), Ok(12));
}

#[test]
fn jump_past_the_end_halts_at_once() {
    let p = program(&["R1"], vec![goto(7), increment("R1")], "R1");
    assert_eq!(simulate_urm(&p, vec![4]), Ok(4));
    let q = program(&[], vec![goto(100)], "R5");
    assert_eq!(simulate_urm(&q, vec![]), Ok(0));
    let mut state = ExecutionState::init(&p, &vec![4]).unwrap();
    assert_eq!(state.step(), StepOutcome::Terminated(4));
    assert_eq!(state.pc(), 7);
}

#[test]
fn jump_to_position_zero_halts() {
    let p = program(&["R1"], vec![increment("R1"), goto(0), increment("R1")], "R1");
    assert_eq!(simulate_urm(&p, vec![1]), Ok(2));
    let mut state = ExecutionState::init(&p, &vec![1]).unwrap();
    assert_eq!(state.step(), StepOutcome::Continuing);
    assert_eq!(state.step(), StepOutcome::Terminated(2));
    assert_eq!(state.pc(), 0);
    assert!(state.is_halted());
}

#[test]
fn the_empty_program_is_halted_from_the_start() {
    let p = program(&["R1"], vec![], "R1");
    assert_eq!(simulate_urm(&p, vec![9]), Ok(9));
    let mut state = ExecutionState::init(&p, &vec![9]).unwrap();
    assert!(state.is_halted());
    assert_eq!(state.pc(), 1);
    assert_eq!(state.step(), StepOutcome::Terminated(9));
    assert_eq!(state.pc(), 1);
    assert_eq!(state.run_to_completion(), 9);
}

#[test]
fn unwritten_registers_read_zero() {
    let mut registers: IndexMap<String, usize> = IndexMap::new();
    assert_eq!(read_register(&registers, &name("R1")), 0);
    let mut pc = 1;
    execute_statement(&increment("R2"), &mut registers, &mut pc);
    assert_eq!(read_register(&registers, &name("R1")), 0);
    assert_eq!(read_register(&registers, &name("R2")), 1);
    execute_statement(&jump_if("R1", Condition::Equal, 9), &mut registers, &mut pc);
    assert_eq!(registers.get("R1"), None);
    execute_statement(&increment("R1"), &mut registers, &mut pc);
    assert_eq!(read_register(&registers, &name("R1")), 1);
}

#[test]
fn output_register_never_written_yields_zero() {
    let p = program(&["R1"], vec![increment("R1")], "R2");
    assert_eq!(simulate_urm(&p, vec![3]), Ok(0));
}

#[test]
fn decrement_saturates_at_zero() {
    let mut registers: IndexMap<String, usize> = IndexMap::new();
    let mut pc = 1;
    execute_statement(&decrement("R1"), &mut registers, &mut pc);
    assert_eq!(registers.get("R1"), Some(&0));
    assert_eq!(pc, 2);
    execute_statement(&decrement("R1"), &mut registers, &mut pc);
    assert_eq!(read_register(&registers, &name("R1")), 0);
    registers.insert(name("R2"), 2);
    execute_statement(&decrement("R2"), &mut registers, &mut pc);
    assert_eq!(registers.get("R2"), Some(&1));
    execute_statement(&decrement("R2"), &mut registers, &mut pc);
    assert_eq!(registers.get("R2"), Some(&0));
    execute_statement(&decrement("R2"), &mut registers, &mut pc);
    assert_eq!(registers.get("R2"), Some(&0));
    assert_eq!(pc, 6);
}

#[test]
fn each_statement_has_its_effect() {
    let mut registers: IndexMap<String, usize> = IndexMap::new();
    registers.insert(name("A"), 41);
    let mut pc = 3;
    execute_statement(&increment("A"), &mut registers, &mut pc);
    assert_eq!((registers.get("A"), pc), (Some(&42), 4));
    execute_statement(&reset("A"), &mut registers, &mut pc);
    assert_eq!((registers.get("A"), pc), (Some(&0), 5));
    execute_statement(&reset("B"), &mut registers, &mut pc);
    assert_eq!((registers.get("B"), pc), (Some(&0), 6));
    execute_statement(&goto(2), &mut registers, &mut pc);
    assert_eq!(pc, 2);
    execute_statement(&jump_if("A", Condition::NotEqual, 9), &mut registers, &mut pc);
    assert_eq!(pc, 3);
    execute_statement(&jump_if("A", Condition::Equal, 9), &mut registers, &mut pc);
    assert_eq!(pc, 9);
    registers.insert(name("A"), 5);
    execute_statement(&jump_if("A", Condition::Equal, 1), &mut registers, &mut pc);
    assert_eq!(pc, 10);
    execute_statement(&jump_if("A", Condition::NotEqual, 1), &mut registers, &mut pc);
    assert_eq!(pc, 1);
    assert_eq!(registers.len(), 2);
}

#[test]
fn registers_keep_the_order_of_their_first_write() {
    let p = program(
        &["B", "A"],
        vec![increment("C"), increment("A"), reset("D"), decrement("B")],
        "C",
    );
    let mut state = ExecutionState::init(&p, &vec![5, 6]).unwrap();
    assert_eq!(state.run_to_completion(), 1);
    let entries: Vec<(String, usize)> =
        state.registers().iter().map(|(k, v)| (k.clone(), *v)).collect();
    assert_eq!(entries, vec![(name("B"), 4), (name("A"), 7), (name("C"), 1), (name("D"), 0)]);
}

#[test]
fn straight_line_program_takes_one_step_per_statement() {
    let statements = vec![increment("R1"), decrement("R2"), reset("R3"), increment("R1")];
    let count = statements.len();
    let p = program(&["R1"], statements, "R1");
    let mut state = ExecutionState::init(&p, &vec![0]).unwrap();
    let mut steps = 0;
    loop {
        assert_eq!(state.pc(), steps + 1);
        let outcome = state.step();
        steps += 1;
        if outcome != StepOutcome::Continuing {
            assert_eq!(outcome, StepOutcome::Terminated(2));
            break;
        }
    }
    assert_eq!(steps, count);
    assert_eq!(state.pc(), count + 1);
}

#[test]
fn run_without_debug_leaves_the_final_state() {
    let p = parse_urm_code("in(N) if N == 0 goto 5; N--; S++; goto 1; out(S)").unwrap();
    let mut registers: IndexMap<String, usize> = IndexMap::new();
    registers.insert(name("N"), 3);
    let mut pc = 1;
    run_without_debug(&p, &mut registers, &mut pc);
    assert_eq!(pc, 5);
    assert_eq!(registers.get("N"), Some(&0));
    assert_eq!(registers.get("S"), Some(&3));
}

#[test]
fn run_without_debug_continues_from_the_middle() {
    let p = program(&[], vec![increment("X"), increment("X"), increment("X")], "X");
    let mut registers: IndexMap<String, usize> = IndexMap::new();
    let mut pc = 3;
    run_without_debug(&p, &mut registers, &mut pc);
    assert_eq!(pc, 4);
    assert_eq!(registers.get("X"), Some(&1));
}

#[test]
fn stepping_reports_the_output_when_the_run_halts() {
    let p = parse_urm_code("in(R1,R2) if R2==0 goto 5; R2--; R1++; goto 1; out(R1)").unwrap();
    let mut state = ExecutionState::init(&p, &vec![5, 1]).unwrap();
    assert_eq!(state.pc(), 1);
    assert_eq!(state.statements().len(), 4);
    assert!(!state.is_halted());
    assert_eq!(state.step(), StepOutcome::Continuing);
    assert_eq!(state.pc(), 2);
    assert_eq!(state.step(), StepOutcome::Continuing);
    assert_eq!(state.registers().get("R2"), Some(&0));
    assert_eq!(state.step(), StepOutcome::Continuing);
    assert_eq!(state.output(), 6);
    assert_eq!(state.step(), StepOutcome::Continuing);
    assert_eq!(state.pc(), 1);
    assert_eq!(state.step(), StepOutcome::Terminated(6));
    assert_eq!(state.pc(), 5);
    assert_eq!(state.step(), StepOutcome::Terminated(6));
    assert_eq!(state.pc(), 5);
}

#[test]
fn initial_state_holds_the_inputs_in_order() {
    let p = program(&["X", "Y", "Z"], vec![], "Y");
    let state = ExecutionState::init(&p, &vec![7, 8, 9]).unwrap();
    let entries: Vec<(String, usize)> =
        state.registers().iter().map(|(k, v)| (k.clone(), *v)).collect();
    assert_eq!(entries, vec![(name("X"), 7), (name("Y"), 8), (name("Z"), 9)]);
    assert_eq!(state.output(), 8);
}

#[test]
fn multiplication_by_repeated_addition() {
    let text = "in(A, B)
        if A == 0 goto 11;
        A--;
        T = 0;
        if B == 0 goto 9;
        B--;
        T++;
        P++;
        goto 4;
        if T == 0 goto 1;
        goto 12;
        goto 20;
        T--;
        B++;
        goto 9;
        out(P)";
    let p = parse_urm_code(text).unwrap();
    assert_eq!(simulate_urm(&p, vec![3, 4]), Ok(12));
    assert_eq!(simulate_urm(&p, vec![0, 4]), Ok(0));
    assert_eq!(simulate_urm(&p, vec![6, 7]), Ok(42));
}

#[test]
fn checked_step_refuses_an_increment_at_the_largest_value() {
    let p = program(&["R1"], vec![increment("R1"), increment("R1")], "R1");
    let mut state = ExecutionState::init(&p, &vec![usize::MAX - 1]).unwrap();
    assert!(state.step_fits());
    assert_eq!(state.checked_step(), Some(StepOutcome::Continuing));
    assert_eq!(state.output(), usize::MAX);
    assert!(!state.step_fits());
    assert_eq!(state.checked_step(), None);
    assert_eq!(state.pc(), 2);
    assert_eq!(state.output(), usize::MAX);
}

#[test]
fn checked_step_on_a_halted_run_reports_the_output() {
    let p = program(&["R1"], vec![goto(5)], "R1");
    let mut state = ExecutionState::init(&p, &vec![usize::MAX]).unwrap();
    assert_eq!(state.checked_step(), Some(StepOutcome::Terminated(usize::MAX)));
    assert!(state.step_fits());
    assert_eq!(state.checked_step(), Some(StepOutcome::Terminated(usize::MAX)));
    assert_eq!(state.pc(), 5);
}

#[test]
fn a_statement_fits_unless_it_passes_the_largest_integer() {
    let mut registers: IndexMap<String, usize> = IndexMap::new();
    registers.insert(name("full"), usize::MAX);
    registers.insert(name("some"), 3);
    assert!(statement_fits(&increment("some"), &registers, 1));
    assert!(statement_fits(&increment("none"), &registers, 1));
    assert!(!statement_fits(&increment("full"), &registers, 1));
    assert!(!statement_fits(&increment("some"), &registers, usize::MAX));
    assert!(statement_fits(&decrement("full"), &registers, 1));
    assert!(!statement_fits(&decrement("full"), &registers, usize::MAX));
    assert!(!statement_fits(&reset("full"), &registers, usize::MAX));
    assert!(statement_fits(&goto(1), &registers, usize::MAX));
    assert!(statement_fits(&jump_if("full", Condition::NotEqual, 1), &registers, usize::MAX));
    assert!(!statement_fits(&jump_if("full", Condition::Equal, 1), &registers, usize::MAX));
    assert!(statement_fits(&jump_if("none", Condition::Equal, 1), &registers, usize::MAX));
    assert!(statement_fits(&jump_if("full", Condition::Equal, 1), &registers, 7));
}

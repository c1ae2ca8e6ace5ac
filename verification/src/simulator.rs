//! The execution engine: the check of a program against its input values,
//! the single transition, and the run to the end.

use vstd::prelude::*;
use vstd::string::StringExecFns;
use indexmap::IndexMap;
use crate::decimal::{decimal, push_decimal};
use crate::instructions::{
    name_views, statement_views, Condition, Program, ProgramView, Statement,
};
use crate::machine::{
    apply, completes, final_state, fits, halted, lemma_halted_is_final, lemma_run_unfolds, next,
    steps_to_halt, Machine,
};
use crate::registers::{
    empty_registers, is_first_index, lemma_first_index, lookup, read, register_entries, store_value,
    stored_value, Entries,
};

verus! {

/// Why a program cannot be run on the input values it was given.
#[derive(Debug, Clone, Copy, PartialEq, Eq, Structural)]
pub enum ValidationError {
    /// Two input registers have the same name.
    DuplicateInputRegisters,
    /// The program declares `expected` input registers and was given
    /// `provided` values.
    InputCountMismatch { expected: usize, provided: usize },
}

impl ValidationError {
    /// The sentence that reports the error.
    pub open spec fn text(self) -> Seq<char> {
        match self {
            ValidationError::DuplicateInputRegisters => "Input registers must be unique"@,
            ValidationError::InputCountMismatch { expected, provided } =>
                "Input vector length does not match input register length. Program expects "@
                + decimal(expected as nat) + " inputs, but "@ + decimal(provided as nat)
                + " were provided"@,
        }
    }

    /// The error as a sentence for the user.
    pub fn message(&self) -> (text: String)
        ensures
            text@ == self.text(),
    {
        match self {
            ValidationError::DuplicateInputRegisters => String::from_str(
                "Input registers must be unique",
            ),
            ValidationError::InputCountMismatch { expected, provided } => {
                let mut text = String::from_str(
                    "Input vector length does not match input register length. Program expects ",
                );
                push_decimal(&mut text, *expected);
                text.append(" inputs, but ");
                push_decimal(&mut text, *provided);
                text.append(" were provided");
                text
            },
        }
    }
}

/// Whether no name occurs twice in `names`.
pub open spec fn pairwise_distinct(names: Seq<Seq<char>>) -> bool {
    forall|i: int, j: int| 0 <= i < j < names.len() ==> names[i] != names[j]
}

/// The verdict on running a program with input registers `names` on
/// `provided` values. The names are checked first, then the count.
pub open spec fn validation(names: Seq<Seq<char>>, provided: nat) -> Result<(), ValidationError> {
    if !pairwise_distinct(names) {
        Err(ValidationError::DuplicateInputRegisters)
    } else if names.len() != provided {
        Err(
            ValidationError::InputCountMismatch {
                expected: names.len() as usize,
                provided: provided as usize,
            },
        )
    } else {
        Ok(())
    }
}

fn all_distinct(names: &Vec<String>) -> (distinct: bool)
    ensures
        distinct == pairwise_distinct(name_views(names@)),
{
    let mut j: usize = 0;
    while j < names.len()
        invariant
            j <= names.len(),
            forall|a: int, b: int| 0 <= a < b < j ==> names@[a]@ != names@[b]@,
        decreases names.len() - j,
    {
        let mut i: usize = 0;
        while i < j
            invariant
                i <= j < names.len(),
                forall|a: int| 0 <= a < i ==> names@[a]@ != names@[j as int]@,
            decreases j - i,
        {
            if names[i] == names[j] {
                assert(name_views(names@)[i as int] == name_views(names@)[j as int]);
                return false;
            }
            i += 1;
        }
        j += 1;
    }
    true
}

/// Checks a program against the input values of one run: its input
/// registers must be pairwise distinct, and there must be one value for
/// each. Nothing else is checked.
pub fn run_static_analysis(program: &Program, input: &Vec<usize>) -> (result: Result<
    (),
    ValidationError,
>)
    ensures
        result == validation(program@.input_registers, input@.len()),
{
    if !all_distinct(&program.input_registers) {
        return Err(ValidationError::DuplicateInputRegisters);
    }
    if program.input_registers.len() != input.len() {
        return Err(
            ValidationError::InputCountMismatch {
                expected: program.input_registers.len(),
                provided: input.len(),
            },
        );
    }
    Ok(())
}

/// The state that a register store and a program counter make together.
pub open spec fn machine_of(registers: IndexMap<String, usize>, pc: usize) -> Machine {
    Machine { registers: register_entries(registers), pc: pc as nat }
}

/// Reads a register: its stored value, or zero if it was never written.
pub fn read_register(registers: &IndexMap<String, usize>, name: &String) -> (value: usize)
    ensures
        value == read(register_entries(*registers), name@),
{
    match stored_value(registers, name) {
        Some(value) => value,
        None => 0,
    }
}

/// Whether executing `statement` in the given state stays within the
/// machine integers: it neither increments a register that holds
/// `usize::MAX` nor advances a program counter that is `usize::MAX`.
pub fn statement_fits(
    statement: &Statement,
    registers: &IndexMap<String, usize>,
    pc: usize,
) -> (ok: bool)
    ensures
        ok == fits(statement@, machine_of(*registers, pc)),
{
    match statement {
        Statement::Increment { register } => read_register(registers, register) < usize::MAX
            && pc < usize::MAX,
        Statement::Decrement { .. } => pc < usize::MAX,
        Statement::ZeroAssignment { .. } => pc < usize::MAX,
        Statement::Goto { .. } => true,
        Statement::ConditionalGoto { register, condition, .. } => {
            let value = read_register(registers, register);
            let taken = match condition {
                Condition::Equal => value == 0,
                Condition::NotEqual => value != 0,
            };
            taken || pc < usize::MAX
        },
    }
}

/// Executes one statement: updates the register it names, if any, and sets
/// the program counter to the position of the statement to run next.
pub fn execute_statement(
    statement: &Statement,
    registers: &mut IndexMap<String, usize>,
    pc: &mut usize,
)
    requires
        fits(statement@, machine_of(*old(registers), *old(pc))),
    ensures
        machine_of(*final(registers), *final(pc)) == apply(
            statement@,
            machine_of(*old(registers), *old(pc)),
        ),
{
    match statement {
        Statement::Increment { register } => {
            let value = read_register(registers, register) + 1;
            store_value(registers, register.clone(), value);
            *pc += 1;
        },
        Statement::Decrement { register } => {
            let value = read_register(registers, register);
            let value = if value == 0 {
                0
            } else {
                value - 1
            };
            store_value(registers, register.clone(), value);
            *pc += 1;
        },
        Statement::ZeroAssignment { register } => {
            store_value(registers, register.clone(), 0);
            *pc += 1;
        },
        Statement::ConditionalGoto { register, condition, target } => {
            let value = read_register(registers, register);
            let taken = match condition {
                Condition::Equal => value == 0,
                Condition::NotEqual => value != 0,
            };
            if taken {
                *pc = *target;
            } else {
                *pc += 1;
            }
        },
        Statement::Goto { target } => {
            *pc = *target;
        },
    }
}

/// Runs a program from the given state until it halts, and leaves the
/// final state in `registers` and `pc`.
///
/// No step limit is imposed. A run that never halts does not return, which
/// is why only halting runs are admitted here.
pub fn run_without_debug(program: &Program, registers: &mut IndexMap<String, usize>, pc: &mut usize)
    requires
        completes(program@.statements, machine_of(*old(registers), *old(pc))),
    ensures
        machine_of(*final(registers), *final(pc)) == final_state(
            program@.statements,
            machine_of(*old(registers), *old(pc)),
        ),
        halted(program@.statements, *final(pc) as nat),
{
    let count = program.statements.len();
    while 1 <= *pc && *pc <= count
        invariant
            count == program.statements.len(),
            completes(program@.statements, machine_of(*registers, *pc)),
            final_state(program@.statements, machine_of(*registers, *pc)) == final_state(
                program@.statements,
                machine_of(*old(registers), *old(pc)),
            ),
        decreases steps_to_halt(program@.statements, machine_of(*registers, *pc)),
    {
        proof {
            lemma_run_unfolds(program@.statements, machine_of(*registers, *pc));
        }
        execute_statement(&program.statements[*pc - 1], registers, pc);
    }
    proof {
        lemma_halted_is_final(program@.statements, machine_of(*registers, *pc));
    }
}

/// The register store at the start of a run: each input register with the
/// value at its position, in the order of the declaration.
pub open spec fn initial_entries(names: Seq<Seq<char>>, values: Seq<usize>) -> Entries {
    Seq::new(names.len(), |i: int| (names[i], values[i]))
}

/// The state in which a run of `program` on `values` starts: the input
/// registers hold the values, the program counter is 1.
pub open spec fn initial_machine(program: ProgramView, values: Seq<usize>) -> Machine {
    Machine { registers: initial_entries(program.input_registers, values), pc: 1 }
}

/// The value that a run of `program` on `values` produces, where it halts:
/// what the output register holds in the final state.
pub open spec fn result_of(program: ProgramView, values: Seq<usize>) -> usize {
    read(
        final_state(program.statements, initial_machine(program, values)).registers,
        program.output_register,
    )
}

fn load_inputs(names: &Vec<String>, values: &Vec<usize>) -> (registers: IndexMap<String, usize>)
    requires
        pairwise_distinct(name_views(names@)),
        names.len() == values.len(),
    ensures
        register_entries(registers) == initial_entries(name_views(names@), values@),
{
    let mut registers = empty_registers();
    let mut i: usize = 0;
    while i < names.len()
        invariant
            i <= names.len() == values.len(),
            pairwise_distinct(name_views(names@)),
            register_entries(registers) == initial_entries(name_views(names@), values@).take(
                i as int,
            ),
        decreases names.len() - i,
    {
        proof {
            let entries = register_entries(registers);
            let name = names@[i as int]@;
            assert forall|j: int| 0 <= j < entries.len() implies (#[trigger] entries[j]).0
                != name by {
                assert(name_views(names@)[j] != name_views(names@)[i as int]);
            }
            assert(is_first_index(entries, name, entries.len() as int));
            lemma_first_index(entries, name);
        }
        store_value(&mut registers, names[i].clone(), values[i]);
        i += 1;
        assert(register_entries(registers) =~= initial_entries(name_views(names@), values@).take(
            i as int,
        ));
    }
    assert(initial_entries(name_views(names@), values@).take(i as int) =~= initial_entries(
        name_views(names@),
        values@,
    ));
    registers
}

/// Runs a program on the given input values and returns what its output
/// register holds at the end.
///
/// The program is first checked against the values; a program that fails
/// the check is not run. The run starts at position 1 with the input
/// registers holding the values, and has no step limit.
pub fn simulate_urm(program: &Program, input: Vec<usize>) -> (result: Result<
    usize,
    ValidationError,
>)
    requires
        validation(program@.input_registers, input@.len()) is Ok ==> completes(
            program@.statements,
            initial_machine(program@, input@),
        ),
    ensures
        result == match validation(program@.input_registers, input@.len()) {
            Ok(_) => Ok(result_of(program@, input@)),
            Err(error) => Err(error),
        },
{
    match run_static_analysis(program, &input) {
        Ok(_) => {},
        Err(error) => {
            return Err(error);
        },
    }
    let mut registers = load_inputs(&program.input_registers, &input);
    let mut pc: usize = 1;
    run_without_debug(program, &mut registers, &mut pc);
    Ok(read_register(&registers, &program.output_register))
}

/// What one step of a run reports.
#[derive(Debug, Clone, Copy, PartialEq, Eq, Structural)]
pub enum StepOutcome {
    /// The run goes on: the program counter points at a statement.
    Continuing,
    /// The run has halted, and the output register holds this value.
    Terminated(usize),
}

/// What a step that leaves a run of `program` in state `m` reports.
pub open spec fn outcome_in(program: ProgramView, m: Machine) -> StepOutcome {
    if halted(program.statements, m.pc) {
        StepOutcome::Terminated(read(m.registers, program.output_register))
    } else {
        StepOutcome::Continuing
    }
}

/// A run in progress: the program, the register store and the program
/// counter. It is advanced one statement at a time by `step`, at whatever
/// pace the caller chooses.
pub struct ExecutionState<'a> {
    program: &'a Program,
    registers: IndexMap<String, usize>,
    pc: usize,
}

impl<'a> ExecutionState<'a> {
    /// The program that is run.
    pub closed spec fn program(&self) -> ProgramView {
        self.program@
    }

    /// The registers and the program counter.
    pub closed spec fn machine(&self) -> Machine {
        machine_of(self.registers, self.pc)
    }

    /// Starts a run of `program` on `input_values`, if the program passes
    /// the check against them.
    pub fn init(program: &'a Program, input_values: &Vec<usize>) -> (result: Result<
        ExecutionState<'a>,
        ValidationError,
    >)
        ensures
            match result {
                Ok(state) => {
                    &&& validation(program@.input_registers, input_values@.len()) is Ok
                    &&& state.program() == program@
                    &&& state.machine() == initial_machine(program@, input_values@)
                },
                Err(error) => validation(program@.input_registers, input_values@.len()) == Err::<
                    (),
                    ValidationError,
                >(error),
            },
    {
        match run_static_analysis(program, input_values) {
            Ok(_) => {},
            Err(error) => {
                return Err(error);
            },
        }
        let registers = load_inputs(&program.input_registers, input_values);
        Ok(ExecutionState { program, registers, pc: 1 })
    }

    /// The position of the statement to execute next.
    pub fn pc(&self) -> (pc: usize)
        ensures
            pc == self.machine().pc,
    {
        self.pc
    }

    /// The register store.
    pub fn registers(&self) -> (registers: &IndexMap<String, usize>)
        ensures
            register_entries(*registers) == self.machine().registers,
    {
        &self.registers
    }

    /// The statements of the program that is run.
    pub fn statements(&self) -> (statements: &'a Vec<Statement>)
        ensures
            statement_views(statements@) == self.program().statements,
    {
        &self.program.statements
    }

    /// Whether the run has halted.
    pub fn is_halted(&self) -> (done: bool)
        ensures
            done == halted(self.program().statements, self.machine().pc),
    {
        self.pc < 1 || self.pc > self.program.statements.len()
    }

    /// What the output register holds now.
    pub fn output(&self) -> (value: usize)
        ensures
            value == read(self.machine().registers, self.program().output_register),
    {
        read_register(&self.registers, &self.program.output_register)
    }

    /// Executes the statement under the program counter and reports
    /// whether the run has halted. On a run that has halted already it
    /// changes nothing and reports the same again.
    pub fn step(&mut self) -> (outcome: StepOutcome)
        requires
            !halted(old(self).program().statements, old(self).machine().pc) ==> fits(
                old(self).program().statements[old(self).machine().pc - 1],
                old(self).machine(),
            ),
        ensures
            final(self).program() == old(self).program(),
            final(self).machine() == next(old(self).program().statements, old(self).machine()),
            outcome == outcome_in(final(self).program(), final(self).machine()),
    {
        if !self.is_halted() {
            execute_statement(
                &self.program.statements[self.pc - 1],
                &mut self.registers,
                &mut self.pc,
            );
        }
        if self.is_halted() {
            StepOutcome::Terminated(self.output())
        } else {
            StepOutcome::Continuing
        }
    }

    /// Whether the next call of `step` stays within the machine integers:
    /// the run has halted, or the statement under the program counter
    /// fits.
    pub fn step_fits(&self) -> (ok: bool)
        ensures
            ok == (halted(self.program().statements, self.machine().pc) || fits(
                self.program().statements[self.machine().pc - 1],
                self.machine(),
            )),
    {
        self.is_halted() || statement_fits(
            &self.program.statements[self.pc - 1],
            &self.registers,
            self.pc,
        )
    }

    /// Takes one step if it stays within the machine integers, and reports
    /// what `step` reports. Where the step would not, nothing changes and
    /// the result is `None`.
    pub fn checked_step(&mut self) -> (outcome: Option<StepOutcome>)
        ensures
            final(self).program() == old(self).program(),
            outcome is Some <==> (halted(old(self).program().statements, old(self).machine().pc)
                || fits(
                old(self).program().statements[old(self).machine().pc - 1],
                old(self).machine(),
            )),
            outcome is Some ==> final(self).machine() == next(
                old(self).program().statements,
                old(self).machine(),
            ),
            outcome is Some ==> outcome == Some(
                outcome_in(final(self).program(), final(self).machine()),
            ),
            outcome is None ==> final(self).machine() == old(self).machine(),
    {
        if self.step_fits() {
            Some(self.step())
        } else {
            None
        }
    }

    /// Steps until the run halts and returns what the output register
    /// holds then. A run that never halts does not return, which is why
    /// only halting runs are admitted here.
    pub fn run_to_completion(&mut self) -> (value: usize)
        requires
            completes(old(self).program().statements, old(self).machine()),
        ensures
            final(self).program() == old(self).program(),
            final(self).machine() == final_state(
                old(self).program().statements,
                old(self).machine(),
            ),
            value == read(final(self).machine().registers, final(self).program().output_register),
    {
        run_without_debug(self.program, &mut self.registers, &mut self.pc);
        self.output()
    }
}

/// A register that the program does not declare as an input has no entry at
/// the start of a run, so a read of it yields zero.
pub proof fn lemma_undeclared_register_reads_zero(
    program: ProgramView,
    values: Seq<usize>,
    name: Seq<char>,
)
    requires
        forall|i: int|
            0 <= i < program.input_registers.len() ==> program.input_registers[i] != name,
    ensures
        lookup(initial_machine(program, values).registers, name) is None,
        read(initial_machine(program, values).registers, name) == 0,
{
    let entries = initial_entries(program.input_registers, values);
    assert(is_first_index(entries, name, entries.len() as int));
    lemma_first_index(entries, name);
}

/// An input register holds, at the start of a run, the value at its
/// position, provided that the input registers are pairwise distinct.
pub proof fn lemma_input_register_reads_its_value(
    program: ProgramView,
    values: Seq<usize>,
    i: int,
)
    requires
        pairwise_distinct(program.input_registers),
        0 <= i < program.input_registers.len(),
    ensures
        read(initial_machine(program, values).registers, program.input_registers[i]) == values[i],
{
    let entries = initial_entries(program.input_registers, values);
    assert(is_first_index(entries, program.input_registers[i], i));
    lemma_first_index(entries, program.input_registers[i]);
}

} // verus!

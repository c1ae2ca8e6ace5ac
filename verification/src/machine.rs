//! The machine as mathematics: its state, the effect of one statement, and
//! what it means for a run to halt.

use vstd::prelude::*;
use crate::instructions::{Condition, StatementView};
use crate::registers::{assign, lemma_read_other, lemma_read_written, lookup, read, Entries};

verus! {

/// The state of a run: the register store and the program counter, the
/// 1-based position of the statement to execute next.
pub struct Machine {
    pub registers: Entries,
    pub pc: nat,
}

/// Whether a run has ended: the program counter points at no statement. It
/// does so when it has passed the last statement, and also when a jump to
/// position 0 has put it before the first.
pub open spec fn halted(statements: Seq<StatementView>, pc: nat) -> bool {
    pc < 1 || pc > statements.len()
}

/// Whether a conditional jump is taken when its register holds `value`.
pub open spec fn jump_taken(condition: Condition, value: usize) -> bool {
    match condition {
        Condition::Equal => value == 0,
        Condition::NotEqual => value != 0,
    }
}

/// The state after `statement` was executed in state `m`.
///
/// An increment adds one, a decrement takes one away but leaves zero at
/// zero, an assignment stores zero; each then moves on to the next position.
/// A jump leaves the registers alone and sets the program counter.
pub open spec fn apply(statement: StatementView, m: Machine) -> Machine {
    match statement {
        StatementView::Increment { register } => Machine {
            registers: assign(m.registers, register, (read(m.registers, register) + 1) as usize),
            pc: m.pc + 1,
        },
        StatementView::Decrement { register } => Machine {
            registers: assign(
                m.registers,
                register,
                if read(m.registers, register) == 0 {
                    0
                } else {
                    (read(m.registers, register) - 1) as usize
                },
            ),
            pc: m.pc + 1,
        },
        StatementView::ZeroAssignment { register } => Machine {
            registers: assign(m.registers, register, 0),
            pc: m.pc + 1,
        },
        StatementView::Goto { target } => Machine { registers: m.registers, pc: target },
        StatementView::ConditionalGoto { register, condition, target } => Machine {
            registers: m.registers,
            pc: if jump_taken(condition, read(m.registers, register)) {
                target
            } else {
                m.pc + 1
            },
        },
    }
}

/// Whether executing `statement` in state `m` stays within the machine
/// integers: an incremented register and an advanced program counter must
/// not pass `usize::MAX`.
pub open spec fn fits(statement: StatementView, m: Machine) -> bool {
    match statement {
        StatementView::Increment { register } => read(m.registers, register) < usize::MAX && m.pc
            < usize::MAX,
        StatementView::Decrement { .. } => m.pc < usize::MAX,
        StatementView::ZeroAssignment { .. } => m.pc < usize::MAX,
        StatementView::Goto { .. } => true,
        StatementView::ConditionalGoto { register, condition, .. } => jump_taken(
            condition,
            read(m.registers, register),
        ) || m.pc < usize::MAX,
    }
}

/// One step of a run: the statement under the program counter is executed;
/// a halted machine stays as it is.
pub open spec fn next(statements: Seq<StatementView>, m: Machine) -> Machine {
    if halted(statements, m.pc) {
        m
    } else {
        apply(statements[m.pc - 1], m)
    }
}

/// The state after `steps` steps from `m`.
pub open spec fn run(statements: Seq<StatementView>, m: Machine, steps: nat) -> Machine
    decreases steps,
{
    if steps == 0 {
        m
    } else {
        run(statements, next(statements, m), (steps - 1) as nat)
    }
}

/// Whether the run from `m` halts after exactly `steps` steps and not
/// before.
pub open spec fn halts_in(statements: Seq<StatementView>, m: Machine, steps: nat) -> bool
    decreases steps,
{
    if halted(statements, m.pc) {
        steps == 0
    } else {
        steps > 0 && halts_in(statements, next(statements, m), (steps - 1) as nat)
    }
}

/// Whether the first `steps` steps from `m` all stay within the machine
/// integers.
pub open spec fn run_fits(statements: Seq<StatementView>, m: Machine, steps: nat) -> bool
    decreases steps,
{
    if steps == 0 || halted(statements, m.pc) {
        true
    } else {
        fits(statements[m.pc - 1], m) && run_fits(
            statements,
            next(statements, m),
            (steps - 1) as nat,
        )
    }
}

/// Whether the run from `m` ever halts.
pub open spec fn terminates(statements: Seq<StatementView>, m: Machine) -> bool {
    exists|steps: nat| halts_in(statements, m, steps)
}

/// The number of steps after which the run from `m` halts, where it does.
pub open spec fn steps_to_halt(statements: Seq<StatementView>, m: Machine) -> nat {
    choose|steps: nat| halts_in(statements, m, steps)
}

/// The state in which the run from `m` halts, where it does.
pub open spec fn final_state(statements: Seq<StatementView>, m: Machine) -> Machine {
    run(statements, m, steps_to_halt(statements, m))
}

/// Whether the run from `m` halts and every step of it stays within the
/// machine integers.
pub open spec fn completes(statements: Seq<StatementView>, m: Machine) -> bool {
    terminates(statements, m) && run_fits(statements, m, steps_to_halt(statements, m))
}

/// A run halts after one number of steps only.
pub proof fn lemma_halts_in_unique(
    statements: Seq<StatementView>,
    m: Machine,
    steps: nat,
    other: nat,
)
    requires
        halts_in(statements, m, steps),
        halts_in(statements, m, other),
    ensures
        steps == other,
    decreases steps,
{
    if !halted(statements, m.pc) {
        lemma_halts_in_unique(
            statements,
            next(statements, m),
            (steps - 1) as nat,
            (other - 1) as nat,
        );
    }
}

/// A run that halts after `steps` steps takes that many steps to halt, and
/// the state it halts in is the one after that many steps.
pub proof fn lemma_halts_in_steps(statements: Seq<StatementView>, m: Machine, steps: nat)
    requires
        halts_in(statements, m, steps),
    ensures
        terminates(statements, m),
        steps_to_halt(statements, m) == steps,
        final_state(statements, m) == run(statements, m, steps),
{
    lemma_halts_in_unique(statements, m, steps, steps_to_halt(statements, m));
}

/// A halted machine is its own final state.
pub proof fn lemma_halted_is_final(statements: Seq<StatementView>, m: Machine)
    requires
        halted(statements, m.pc),
    ensures
        terminates(statements, m),
        steps_to_halt(statements, m) == 0,
        final_state(statements, m) == m,
{
    assert(halts_in(statements, m, 0));
    lemma_halts_in_steps(statements, m, 0);
}

/// A run that halts, seen one step later: it still halts, in the same final
/// state, and one step sooner. If the whole run stays within the machine
/// integers, so do its first step and the rest.
pub proof fn lemma_run_unfolds(statements: Seq<StatementView>, m: Machine)
    requires
        terminates(statements, m),
        !halted(statements, m.pc),
    ensures
        terminates(statements, next(statements, m)),
        steps_to_halt(statements, m) == steps_to_halt(statements, next(statements, m)) + 1,
        final_state(statements, m) == final_state(statements, next(statements, m)),
        completes(statements, m) ==> fits(statements[m.pc - 1], m) && completes(
            statements,
            next(statements, m),
        ),
{
    let steps = steps_to_halt(statements, m);
    assert(halts_in(statements, m, steps));
    lemma_halts_in_steps(statements, next(statements, m), (steps - 1) as nat);
}

/// The final state of a run that halts is a halted state.
pub proof fn lemma_final_state_halted(statements: Seq<StatementView>, m: Machine)
    requires
        terminates(statements, m),
    ensures
        halted(statements, final_state(statements, m).pc),
    decreases steps_to_halt(statements, m),
{
    if halted(statements, m.pc) {
        lemma_halted_is_final(statements, m);
    } else {
        lemma_run_unfolds(statements, m);
        lemma_final_state_halted(statements, next(statements, m));
    }
}

/// Whether `statement` writes to the register called `name`.
pub open spec fn writes_to(statement: StatementView, name: Seq<char>) -> bool {
    match statement {
        StatementView::Increment { register } => register == name,
        StatementView::Decrement { register } => register == name,
        StatementView::ZeroAssignment { register } => register == name,
        StatementView::Goto { .. } => false,
        StatementView::ConditionalGoto { .. } => false,
    }
}

/// Whether `statement` is a jump, conditional or not.
pub open spec fn is_jump(statement: StatementView) -> bool {
    statement is Goto || statement is ConditionalGoto
}

/// A statement leaves every register alone that it does not write to: one
/// without an entry still has none, and one with an entry keeps its value.
pub proof fn lemma_apply_keeps_other_registers(
    statement: StatementView,
    m: Machine,
    name: Seq<char>,
)
    requires
        !writes_to(statement, name),
    ensures
        lookup(apply(statement, m).registers, name) == lookup(m.registers, name),
        read(apply(statement, m).registers, name) == read(m.registers, name),
{
    match statement {
        StatementView::Increment { register } => {
            lemma_read_other(
                m.registers,
                register,
                (read(m.registers, register) + 1) as usize,
                name,
            );
        },
        StatementView::Decrement { register } => {
            let value: usize = if read(m.registers, register) == 0 {
                0
            } else {
                (read(m.registers, register) - 1) as usize
            };
            lemma_read_other(m.registers, register, value, name);
        },
        StatementView::ZeroAssignment { register } => {
            lemma_read_other(m.registers, register, 0, name);
        },
        StatementView::Goto { .. } => {},
        StatementView::ConditionalGoto { .. } => {},
    }
}

/// A register reads as zero until it is first written: if it has no entry
/// in state `m` and none of the first `steps` steps from `m` executes a
/// statement that writes to it, then it still has no entry after those
/// steps, and a read of it yields zero.
pub proof fn lemma_unwritten_register_reads_zero(
    statements: Seq<StatementView>,
    m: Machine,
    name: Seq<char>,
    steps: nat,
)
    requires
        lookup(m.registers, name) is None,
        forall|k: nat|
            k < steps && !halted(statements, run(statements, m, k).pc) ==> !writes_to(
                statements[#[trigger] run(statements, m, k).pc - 1],
                name,
            ),
    ensures
        lookup(run(statements, m, steps).registers, name) is None,
        read(run(statements, m, steps).registers, name) == 0,
    decreases steps,
{
    if steps > 0 {
        let after = next(statements, m);
        assert(run(statements, m, 0) == m);
        if !halted(statements, m.pc) {
            assert(!writes_to(statements[run(statements, m, 0).pc - 1], name));
            lemma_apply_keeps_other_registers(statements[m.pc - 1], m, name);
        }
        assert forall|k: nat|
            k < steps - 1 && !halted(statements, run(statements, after, k).pc) implies !writes_to(
            statements[#[trigger] run(statements, after, k).pc - 1],
            name,
        ) by {
            assert(run(statements, after, k) == run(statements, m, k + 1));
        }
        lemma_unwritten_register_reads_zero(statements, after, name, (steps - 1) as nat);
    }
}

/// A decrement is saturating: it takes one from a register that holds more
/// than zero, and leaves a register at zero that holds zero, whether it has
/// an entry or not.
pub proof fn lemma_decrement_saturates(register: Seq<char>, m: Machine)
    ensures
        read(apply(StatementView::Decrement { register }, m).registers, register) == if read(
            m.registers,
            register,
        ) == 0 {
            0
        } else {
            read(m.registers, register) - 1
        },
        read(m.registers, register) == 0 ==> read(
            apply(StatementView::Decrement { register }, m).registers,
            register,
        ) == 0,
{
    let value: usize = if read(m.registers, register) == 0 {
        0
    } else {
        (read(m.registers, register) - 1) as usize
    };
    lemma_read_written(m.registers, register, value);
}

proof fn lemma_straight_line_from(statements: Seq<StatementView>, m: Machine)
    requires
        forall|i: int| 0 <= i < statements.len() ==> !is_jump(#[trigger] statements[i]),
        1 <= m.pc <= statements.len() + 1,
    ensures
        halts_in(statements, m, (statements.len() + 1 - m.pc) as nat),
        run(statements, m, (statements.len() + 1 - m.pc) as nat).pc == statements.len() + 1,
    decreases statements.len() + 1 - m.pc,
{
    if m.pc <= statements.len() {
        assert(!is_jump(statements[m.pc - 1]));
        lemma_straight_line_from(statements, next(statements, m));
    }
}

/// A program without jumps, started at position 1, halts after exactly as
/// many steps as it has statements, with the program counter one past the
/// last of them.
pub proof fn lemma_straight_line_program(statements: Seq<StatementView>, registers: Entries)
    requires
        forall|i: int| 0 <= i < statements.len() ==> !is_jump(#[trigger] statements[i]),
    ensures
        halts_in(statements, Machine { registers, pc: 1 }, statements.len()),
        steps_to_halt(statements, Machine { registers, pc: 1 }) == statements.len(),
        final_state(statements, Machine { registers, pc: 1 }).pc == statements.len() + 1,
{
    let m = Machine { registers, pc: 1 };
    lemma_straight_line_from(statements, m);
    lemma_halts_in_steps(statements, m, statements.len());
}

} // verus!

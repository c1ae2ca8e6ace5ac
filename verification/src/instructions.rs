//! The instruction model: conditions, statements and the program that holds
//! them, each with its mathematical view, and the canonical text of a
//! statement.

use vstd::prelude::*;
use vstd::string::StringExecFns;
use crate::decimal::{decimal, push_decimal};

verus! {

/// How a conditional jump compares its register with zero.
#[derive(Debug, Clone, Copy, PartialEq, Eq, Structural)]
pub enum Condition {
    Equal,
    NotEqual,
}

/// One instruction. A `target` is the 1-based position of the statement to
/// run next.
#[derive(Debug, Clone, PartialEq, Eq)]
pub enum Statement {
    ConditionalGoto { register: String, condition: Condition, target: usize },
    Increment { register: String },
    Decrement { register: String },
    ZeroAssignment { register: String },
    Goto { target: usize },
}

/// A statement as a mathematical value: register names are sequences of
/// characters, targets are natural numbers.
pub enum StatementView {
    ConditionalGoto { register: Seq<char>, condition: Condition, target: nat },
    Increment { register: Seq<char> },
    Decrement { register: Seq<char> },
    ZeroAssignment { register: Seq<char> },
    Goto { target: nat },
}

impl View for Statement {
    type V = StatementView;

    open spec fn view(&self) -> StatementView {
        match *self {
            Statement::ConditionalGoto { register, condition, target } => {
                StatementView::ConditionalGoto {
                    register: register@,
                    condition,
                    target: target as nat,
                }
            },
            Statement::Increment { register } => StatementView::Increment { register: register@ },
            Statement::Decrement { register } => StatementView::Decrement { register: register@ },
            Statement::ZeroAssignment { register } => StatementView::ZeroAssignment {
                register: register@,
            },
            Statement::Goto { target } => StatementView::Goto { target: target as nat },
        }
    }
}

/// The text of a comparison with zero: `" == 0 goto "` or `" != 0 goto "`.
pub open spec fn condition_text(condition: Condition) -> Seq<char> {
    match condition {
        Condition::Equal => seq![' ', '=', '=', ' ', '0', ' ', 'g', 'o', 't', 'o', ' '],
        Condition::NotEqual => seq![' ', '!', '=', ' ', '0', ' ', 'g', 'o', 't', 'o', ' '],
    }
}

impl StatementView {
    /// The statement as program text, ending in its semicolon.
    pub open spec fn text(self) -> Seq<char> {
        match self {
            StatementView::ConditionalGoto { register, condition, target } => seq!['i', 'f', ' ']
                + register + condition_text(condition) + decimal(target) + seq![';'],
            StatementView::Increment { register } => register + seq!['+', '+', ';'],
            StatementView::Decrement { register } => register + seq!['-', '-', ';'],
            StatementView::ZeroAssignment { register } => register + seq![' ', '=', ' ', '0', ';'],
            StatementView::Goto { target } => seq!['g', 'o', 't', 'o', ' '] + decimal(target)
                + seq![';'],
        }
    }

    /// The canonical line of the statement at position `number`: the
    /// position, a colon, a space, and the statement's text.
    pub open spec fn rendered(self, number: nat) -> Seq<char> {
        decimal(number) + seq![':', ' '] + self.text()
    }
}

impl Statement {
    /// Renders the statement as the line that stands at the 1-based
    /// position `instr_number`, such as `3: R1++;` or `2: if R2 == 0 goto 5;`.
    pub fn to_string(&self, instr_number: usize) -> (line: String)
        ensures
            line@ == self@.rendered(instr_number as nat),
    {
        proof {
            reveal_strlit(": ");
            reveal_strlit("if ");
            reveal_strlit(" == 0 goto ");
            reveal_strlit(" != 0 goto ");
            reveal_strlit(";");
            reveal_strlit("++;");
            reveal_strlit("--;");
            reveal_strlit(" = 0;");
            reveal_strlit("goto ");
        }
        let mut line = String::new();
        push_decimal(&mut line, instr_number);
        line.append(": ");
        match self {
            Statement::ConditionalGoto { register, condition, target } => {
                line.append("if ");
                line.append(register.as_str());
                match condition {
                    Condition::Equal => line.append(" == 0 goto "),
                    Condition::NotEqual => line.append(" != 0 goto "),
                }
                push_decimal(&mut line, *target);
                line.append(";");
            },
            Statement::Increment { register } => {
                line.append(register.as_str());
                line.append("++;");
            },
            Statement::Decrement { register } => {
                line.append(register.as_str());
                line.append("--;");
            },
            Statement::ZeroAssignment { register } => {
                line.append(register.as_str());
                line.append(" = 0;");
            },
            Statement::Goto { target } => {
                line.append("goto ");
                push_decimal(&mut line, *target);
                line.append(";");
            },
        }
        assert(line@ =~= self@.rendered(instr_number as nat));
        line
    }
}

/// A parsed program: the registers that receive the input values, in order;
/// the statements, the first of which stands at position 1; and the register
/// whose value is the result.
#[derive(Debug, Clone, PartialEq, Eq)]
pub struct Program {
    pub input_registers: Vec<String>,
    pub statements: Vec<Statement>,
    pub output_register: String,
}

/// The names in `names`, each as its sequence of characters.
pub open spec fn name_views(names: Seq<String>) -> Seq<Seq<char>> {
    Seq::new(names.len(), |i: int| names[i]@)
}

/// The statements in `statements`, each as its view.
pub open spec fn statement_views(statements: Seq<Statement>) -> Seq<StatementView> {
    Seq::new(statements.len(), |i: int| statements[i]@)
}

/// A program as a mathematical value.
pub struct ProgramView {
    pub input_registers: Seq<Seq<char>>,
    pub statements: Seq<StatementView>,
    pub output_register: Seq<char>,
}

impl View for Program {
    type V = ProgramView;

    open spec fn view(&self) -> ProgramView {
        ProgramView {
            input_registers: name_views(self.input_registers@),
            statements: statement_views(self.statements@),
            output_register: self.output_register@,
        }
    }
}

} // verus!

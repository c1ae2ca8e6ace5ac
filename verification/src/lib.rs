//! An Unlimited Register Machine: a parser from program text to an
//! instruction list, and an engine that runs such a list on named registers.
//!
//! A program names its input registers, lists its statements and names its
//! output register:
//!
//! ```text
//! in(R1, R2)
//! if R2 == 0 goto 5;
//! R2--;
//! R1++;
//! goto 1;
//! out(R1)
//! ```
//!
//! Registers hold natural numbers and read as zero until they are written.
//! Statements are numbered from 1 in the order of the text, and a run ends
//! when the program counter points at no statement.
//!
//! The modules, leaves first:
//!
//! - [`decimal`]: decimal numerals.
//! - [`instructions`]: statements and programs, and the canonical text of a
//!   statement.
//! - [`lexer`]: the tokens of program text.
//! - [`grammar`]: what a text denotes, as mathematics.
//! - [`parser`]: the parser, and its errors.
//! - [`roundtrip`]: canonical text reads back as what it was written from.
//! - [`registers`]: the register store.
//! - [`machine`]: the machine as mathematics, and what holds of its runs.
//! - [`simulator`]: the check of a program against its input, the single
//!   step and the run to the end.
//!
//! Two choices are made where the language leaves them open. A jump to
//! position 0 ends the run, as a jump past the last statement does. And
//! the words `in`, `out`, `if` and `goto` cannot name a register.

pub mod decimal;
pub mod grammar;
pub mod instructions;
pub mod lexer;
pub mod machine;
pub mod parser;
pub mod registers;
pub mod roundtrip;
pub mod simulator;

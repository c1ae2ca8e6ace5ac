//! The grammar of program text, as functions from a text and a position to
//! what stands there.
//!
//! A program is an optional input declaration `in(R1, R2, ...)`, a sequence
//! of statements, and an output declaration `out(R)`. Either declaration may
//! be followed by a semicolon. The statements are
//!
//! ```text
//! R++;                 R--;                 R = 0;
//! if R == 0 goto N;    if R != 0 goto N;    goto N;
//! ```
//!
//! Each rule reads from a position and yields either what it has read,
//! with the position behind it, or the error at the first token that does
//! not fit.

use vstd::prelude::*;
use crate::decimal::numeral_value;
use crate::instructions::{Condition, ProgramView, StatementView};
use crate::lexer::{lemma_lexeme_bounds, lexeme_at, Lexeme, TokenKind};
use crate::parser::{syntax_error, ParseError, SyntaxErrorKind};

verus! {

/// The error for a token that the grammar does not allow where it stands.
pub open spec fn unexpected(s: Seq<char>, token: Lexeme) -> ParseError {
    syntax_error(
        s,
        match token.kind {
            TokenKind::Unknown => SyntaxErrorKind::UnexpectedCharacter,
            TokenKind::End => SyntaxErrorKind::UnexpectedEnd,
            _ => SyntaxErrorKind::UnexpectedToken,
        },
        token.start,
    )
}

/// A token of kind `kind`: the position behind it.
pub open spec fn expect(s: Seq<char>, at: int, kind: TokenKind) -> Result<int, ParseError> {
    let token = lexeme_at(s, at);
    if token.kind == kind {
        Ok(token.end)
    } else {
        Err(unexpected(s, token))
    }
}

/// A register name.
pub open spec fn name_at(s: Seq<char>, at: int) -> Result<(Seq<char>, int), ParseError> {
    let token = lexeme_at(s, at);
    if token.kind == TokenKind::Name {
        Ok((s.subrange(token.start, token.end), token.end))
    } else {
        Err(unexpected(s, token))
    }
}

/// A number that fits a machine integer: its value.
pub open spec fn number_at(s: Seq<char>, at: int) -> Result<(nat, int), ParseError> {
    let token = lexeme_at(s, at);
    if token.kind != TokenKind::Number {
        Err(unexpected(s, token))
    } else if numeral_value(s.subrange(token.start, token.end)) > usize::MAX {
        Err(syntax_error(s, SyntaxErrorKind::NumberTooLarge, token.start))
    } else {
        Ok((numeral_value(s.subrange(token.start, token.end)), token.end))
    }
}

/// The number `0`, written with one digit.
pub open spec fn zero_at(s: Seq<char>, at: int) -> Result<int, ParseError> {
    let token = lexeme_at(s, at);
    if token.kind == TokenKind::Number && token.end == token.start + 1 && s[token.start] == '0' {
        Ok(token.end)
    } else {
        Err(unexpected(s, token))
    }
}

/// The semicolon that ends `statement`.
pub open spec fn end_of_statement(s: Seq<char>, at: int, statement: StatementView) -> Result<
    (StatementView, int),
    ParseError,
> {
    match expect(s, at, TokenKind::Semicolon) {
        Ok(end) => Ok((statement, end)),
        Err(error) => Err(error),
    }
}

/// `goto N;`: the target `N`.
pub open spec fn jump_at(s: Seq<char>, at: int) -> Result<(nat, int), ParseError> {
    match expect(s, at, TokenKind::Goto) {
        Err(error) => Err(error),
        Ok(a) => match number_at(s, a) {
            Err(error) => Err(error),
            Ok((target, b)) => match expect(s, b, TokenKind::Semicolon) {
                Err(error) => Err(error),
                Ok(end) => Ok((target, end)),
            },
        },
    }
}

/// What follows the keyword `if`: `R == 0 goto N;` or `R != 0 goto N;`.
pub open spec fn conditional_at(s: Seq<char>, at: int) -> Result<(StatementView, int), ParseError> {
    match name_at(s, at) {
        Err(error) => Err(error),
        Ok((register, a)) => {
            let relation = lexeme_at(s, a);
            if relation.kind != TokenKind::EqualsEquals && relation.kind != TokenKind::NotEquals {
                Err(unexpected(s, relation))
            } else {
                match zero_at(s, relation.end) {
                    Err(error) => Err(error),
                    Ok(b) => match jump_at(s, b) {
                        Err(error) => Err(error),
                        Ok((target, end)) => Ok(
                            (
                                StatementView::ConditionalGoto {
                                    register,
                                    condition: if relation.kind == TokenKind::EqualsEquals {
                                        Condition::Equal
                                    } else {
                                        Condition::NotEqual
                                    },
                                    target,
                                },
                                end,
                            ),
                        ),
                    },
                }
            }
        },
    }
}

/// What follows the name `register` at the start of a statement: `++;`,
/// `--;` or `= 0;`.
pub open spec fn register_statement_at(s: Seq<char>, register: Seq<char>, at: int) -> Result<
    (StatementView, int),
    ParseError,
> {
    let operator = lexeme_at(s, at);
    match operator.kind {
        TokenKind::PlusPlus => end_of_statement(
            s,
            operator.end,
            StatementView::Increment { register },
        ),
        TokenKind::MinusMinus => end_of_statement(
            s,
            operator.end,
            StatementView::Decrement { register },
        ),
        TokenKind::Assign => match zero_at(s, operator.end) {
            Err(error) => Err(error),
            Ok(a) => end_of_statement(s, a, StatementView::ZeroAssignment { register }),
        },
        _ => Err(unexpected(s, operator)),
    }
}

/// One statement, with its semicolon.
pub open spec fn statement_at(s: Seq<char>, at: int) -> Result<(StatementView, int), ParseError> {
    let token = lexeme_at(s, at);
    match token.kind {
        TokenKind::Name => register_statement_at(
            s,
            s.subrange(token.start, token.end),
            token.end,
        ),
        TokenKind::If => conditional_at(s, token.end),
        TokenKind::Goto => match jump_at(s, at) {
            Err(error) => Err(error),
            Ok((target, end)) => Ok((StatementView::Goto { target }, end)),
        },
        _ => Err(unexpected(s, token)),
    }
}

/// Whether a token of kind `kind` begins a statement.
pub open spec fn begins_statement(kind: TokenKind) -> bool {
    kind == TokenKind::Name || kind == TokenKind::If || kind == TokenKind::Goto
}

/// A statement that was read ends behind the place from which it was read,
/// and within the text.
pub proof fn lemma_statement_advances(s: Seq<char>, at: int)
    requires
        0 <= at <= s.len(),
    ensures
        statement_at(s, at) matches Ok((_, end)) ==> at < end <= s.len(),
{
    lemma_lexeme_bounds(s, at);
    let token = lexeme_at(s, at);
    if token.kind == TokenKind::Name {
        let operator = lexeme_at(s, token.end);
        lemma_lexeme_bounds(s, token.end);
        lemma_lexeme_bounds(s, operator.end);
        if operator.kind == TokenKind::Assign {
            let zero = lexeme_at(s, operator.end);
            lemma_lexeme_bounds(s, zero.end);
        }
    } else if token.kind == TokenKind::If {
        let name = lexeme_at(s, token.end);
        lemma_lexeme_bounds(s, token.end);
        let relation = lexeme_at(s, name.end);
        lemma_lexeme_bounds(s, name.end);
        let zero = lexeme_at(s, relation.end);
        lemma_lexeme_bounds(s, relation.end);
        lemma_jump_advances(s, zero.end);
    } else if token.kind == TokenKind::Goto {
        lemma_jump_advances(s, at);
    }
}

proof fn lemma_jump_advances(s: Seq<char>, at: int)
    requires
        0 <= at <= s.len(),
    ensures
        jump_at(s, at) matches Ok((_, end)) ==> at < end <= s.len(),
{
    lemma_lexeme_bounds(s, at);
    let keyword = lexeme_at(s, at);
    lemma_lexeme_bounds(s, keyword.end);
    let number = lexeme_at(s, keyword.end);
    lemma_lexeme_bounds(s, number.end);
}

/// The statements from `at` on, as many as there are: the sequence ends
/// before the first token that begins no statement.
pub open spec fn statements_from(s: Seq<char>, at: int) -> Result<
    (Seq<StatementView>, int),
    ParseError,
>
    decreases s.len() - at,
    when 0 <= at <= s.len()
{
    if begins_statement(lexeme_at(s, at).kind) {
        match statement_at(s, at) {
            Err(error) => Err(error),
            Ok((statement, a)) => {
                proof {
                    lemma_statement_advances(s, at);
                }
                match statements_from(s, a) {
                    Err(error) => Err(error),
                    Ok((rest, end)) => Ok((seq![statement] + rest, end)),
                }
            },
        }
    } else {
        Ok((Seq::empty(), at))
    }
}

/// What follows a name in an input declaration: `)`, or a comma, another
/// name and the same again.
pub open spec fn more_names(s: Seq<char>, at: int) -> Result<(Seq<Seq<char>>, int), ParseError>
    decreases s.len() - at,
    when 0 <= at <= s.len()
{
    let token = lexeme_at(s, at);
    if token.kind == TokenKind::RightParen {
        Ok((Seq::empty(), token.end))
    } else if token.kind == TokenKind::Comma {
        match name_at(s, token.end) {
            Err(error) => Err(error),
            Ok((name, a)) => {
                proof {
                    lemma_lexeme_bounds(s, at);
                    lemma_lexeme_bounds(s, token.end);
                }
                match more_names(s, a) {
                    Err(error) => Err(error),
                    Ok((rest, end)) => Ok((seq![name] + rest, end)),
                }
            },
        }
    } else {
        Err(unexpected(s, token))
    }
}

/// What follows the `(` of an input declaration: `)`, or names separated
/// by commas and then `)`.
pub open spec fn names_at(s: Seq<char>, at: int) -> Result<(Seq<Seq<char>>, int), ParseError> {
    let token = lexeme_at(s, at);
    if token.kind == TokenKind::RightParen {
        Ok((Seq::empty(), token.end))
    } else {
        match name_at(s, at) {
            Err(error) => Err(error),
            Ok((name, a)) => match more_names(s, a) {
                Err(error) => Err(error),
                Ok((rest, end)) => Ok((seq![name] + rest, end)),
            },
        }
    }
}

/// The position behind a semicolon at `at`, or `at` if none stands there.
pub open spec fn past_semicolon(s: Seq<char>, at: int) -> int {
    let token = lexeme_at(s, at);
    if token.kind == TokenKind::Semicolon {
        token.end
    } else {
        at
    }
}

/// The input declaration at the start of the text, with the semicolon that
/// may follow it. A text that does not begin with `in` declares no input
/// register.
pub open spec fn inputs_at(s: Seq<char>) -> Result<(Seq<Seq<char>>, int), ParseError> {
    let token = lexeme_at(s, 0);
    if token.kind == TokenKind::In {
        match expect(s, token.end, TokenKind::LeftParen) {
            Err(error) => Err(error),
            Ok(a) => match names_at(s, a) {
                Err(error) => Err(error),
                Ok((names, b)) => Ok((names, past_semicolon(s, b))),
            },
        }
    } else {
        Ok((Seq::empty(), 0))
    }
}

/// What follows the keyword `out`: `(R)`.
pub open spec fn output_name_at(s: Seq<char>, at: int) -> Result<(Seq<char>, int), ParseError> {
    match expect(s, at, TokenKind::LeftParen) {
        Err(error) => Err(error),
        Ok(a) => match name_at(s, a) {
            Err(error) => Err(error),
            Ok((name, b)) => match expect(s, b, TokenKind::RightParen) {
                Err(error) => Err(error),
                Ok(end) => Ok((name, end)),
            },
        },
    }
}

/// The output declaration behind the statements, with the semicolon that
/// may follow it, and then the end of the text. Where the text ends
/// without the declaration, the program has no output register.
pub open spec fn output_at(s: Seq<char>, at: int) -> Result<Seq<char>, ParseError> {
    let token = lexeme_at(s, at);
    match token.kind {
        TokenKind::Out => match output_name_at(s, token.end) {
            Err(error) => Err(error),
            Ok((name, a)) => {
                let last = lexeme_at(s, past_semicolon(s, a));
                if last.kind == TokenKind::End {
                    Ok(name)
                } else {
                    Err(unexpected(s, last))
                }
            },
        },
        TokenKind::End => Err(ParseError::NoOutputRegister),
        _ => Err(unexpected(s, token)),
    }
}

/// The program that the text `s` denotes, or the reason why it denotes
/// none.
pub open spec fn parse_program(s: Seq<char>) -> Result<ProgramView, ParseError> {
    match inputs_at(s) {
        Err(error) => Err(error),
        Ok((input_registers, a)) => match statements_from(s, a) {
            Err(error) => Err(error),
            Ok((statements, b)) => match output_at(s, b) {
                Err(error) => Err(error),
                Ok(output_register) => Ok(
                    ProgramView { input_registers, statements, output_register },
                ),
            },
        },
    }
}

} // verus!

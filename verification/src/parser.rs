//! The parser: from program text to a program.

use vstd::prelude::*;
use vstd::string::StringExecFns;
use crate::decimal::{decimal, digit_value, numeral_value, push_successor};
use crate::grammar::{
    conditional_at, end_of_statement, expect, inputs_at, jump_at, lemma_statement_advances,
    more_names, name_at, names_at, number_at, output_at, output_name_at, parse_program,
    past_semicolon, register_statement_at, statement_at, statements_from, unexpected, zero_at,
};
use crate::instructions::{
    name_views, statement_views, Condition, Program, ProgramView, Statement, StatementView,
};
use crate::lexer::{lemma_lexeme_bounds, next_token, Token, TokenKind};

verus! {

/// What is wrong at the place of a syntax error.
#[derive(Debug, Clone, Copy, PartialEq, Eq, Structural)]
pub enum SyntaxErrorKind {
    /// A character stands there that begins no token.
    UnexpectedCharacter,
    /// A token stands there that the grammar does not allow at that place.
    UnexpectedToken,
    /// The text ends there, and the grammar asks for more.
    UnexpectedEnd,
    /// A number stands there that is too large for a jump target.
    NumberTooLarge,
}

/// Why a text is no program.
#[derive(Debug, Clone, Copy, PartialEq, Eq, Structural)]
pub enum ParseError {
    /// The text does not follow the grammar. `offset` counts the characters
    /// before the offending one, `line` the line breaks among them, and
    /// `column` the characters between the last of these line breaks and
    /// the offending character; all three start at zero.
    Syntax { kind: SyntaxErrorKind, offset: usize, line: usize, column: usize },
    /// The text follows the grammar as far as it goes, but declares no
    /// output register.
    NoOutputRegister,
}

/// The number of line breaks among the first `offset` characters of `s`.
pub open spec fn line_of(s: Seq<char>, offset: int) -> int
    decreases offset,
{
    if offset <= 0 {
        0
    } else if s[offset - 1] == '\n' {
        line_of(s, offset - 1) + 1
    } else {
        line_of(s, offset - 1)
    }
}

/// The position at which the line begins that holds position `offset` of
/// `s`: behind the last line break before `offset`, or at 0.
pub open spec fn line_start(s: Seq<char>, offset: int) -> int
    decreases offset,
{
    if offset <= 0 {
        0
    } else if s[offset - 1] == '\n' {
        offset
    } else {
        line_start(s, offset - 1)
    }
}

/// The syntax error of kind `kind` at position `offset` of `s`.
pub open spec fn syntax_error(s: Seq<char>, kind: SyntaxErrorKind, offset: int) -> ParseError {
    ParseError::Syntax {
        kind,
        offset: offset as usize,
        line: line_of(s, offset) as usize,
        column: (offset - line_start(s, offset)) as usize,
    }
}

impl SyntaxErrorKind {
    /// The words that name the kind.
    pub open spec fn text(self) -> Seq<char> {
        match self {
            SyntaxErrorKind::UnexpectedCharacter => "unexpected character"@,
            SyntaxErrorKind::UnexpectedToken => "unexpected token"@,
            SyntaxErrorKind::UnexpectedEnd => "unexpected end of input"@,
            SyntaxErrorKind::NumberTooLarge => "number too large"@,
        }
    }
}

impl ParseError {
    /// The sentence that reports the error. Lines and columns are counted
    /// from 1 in it.
    pub open spec fn text(self) -> Seq<char> {
        match self {
            ParseError::Syntax { kind, offset, line, column } => "Parsing error: line "@ + decimal(
                line as nat + 1,
            ) + ", column "@ + decimal(column as nat + 1) + ": "@ + kind.text(),
            ParseError::NoOutputRegister => "No output register found"@,
        }
    }

    /// The error as a sentence for the user, with the place of a syntax
    /// error as line and column.
    pub fn message(&self) -> (text: String)
        ensures
            text@ == self.text(),
    {
        match self {
            ParseError::Syntax { kind, offset, line, column } => {
                let mut text = String::from_str("Parsing error: line ");
                push_successor(&mut text, *line);
                text.append(", column ");
                push_successor(&mut text, *column);
                text.append(": ");
                match kind {
                    SyntaxErrorKind::UnexpectedCharacter => text.append("unexpected character"),
                    SyntaxErrorKind::UnexpectedToken => text.append("unexpected token"),
                    SyntaxErrorKind::UnexpectedEnd => text.append("unexpected end of input"),
                    SyntaxErrorKind::NumberTooLarge => text.append("number too large"),
                }
                text
            },
            ParseError::NoOutputRegister => String::from_str("No output register found"),
        }
    }
}

fn error_at(chars: &Vec<char>, kind: SyntaxErrorKind, offset: usize) -> (error: ParseError)
    requires
        offset <= chars.len(),
    ensures
        error == syntax_error(chars@, kind, offset as int),
{
    let mut line: usize = 0;
    let mut start: usize = 0;
    let mut i: usize = 0;
    while i < offset
        invariant
            i <= offset <= chars.len(),
            line == line_of(chars@, i as int),
            start == line_start(chars@, i as int),
            line <= i,
            start <= i,
        decreases offset - i,
    {
        if chars[i] == '\n' {
            line += 1;
            start = i + 1;
        }
        i += 1;
    }
    ParseError::Syntax { kind, offset, line, column: offset - start }
}

fn characters(input: &str) -> (chars: Vec<char>)
    ensures
        chars@ == input@,
{
    let mut chars: Vec<char> = Vec::new();
    for c in it: input.chars()
        invariant
            it.seq() == input@,
            chars@ == it.seq().take(it.index()),
    {
        chars.push(c);
        assert(chars@ =~= it.seq().take(it.index() + 1));
    }
    assert(chars@ =~= input@);
    chars
}

spec fn same_position(
    result: Result<usize, ParseError>,
    expected: Result<int, ParseError>,
    length: usize,
) -> bool {
    match result {
        Ok(end) => expected == Ok::<int, ParseError>(end as int) && end <= length,
        Err(error) => expected == Err::<int, ParseError>(error),
    }
}

spec fn same_name(
    result: Result<(String, usize), ParseError>,
    expected: Result<(Seq<char>, int), ParseError>,
    length: usize,
) -> bool {
    match result {
        Ok((name, end)) => expected == Ok::<(Seq<char>, int), ParseError>((name@, end as int))
            && end <= length,
        Err(error) => expected == Err::<(Seq<char>, int), ParseError>(error),
    }
}

spec fn same_number(
    result: Result<(usize, usize), ParseError>,
    expected: Result<(nat, int), ParseError>,
    length: usize,
) -> bool {
    match result {
        Ok((value, end)) => expected == Ok::<(nat, int), ParseError>((value as nat, end as int))
            && end <= length,
        Err(error) => expected == Err::<(nat, int), ParseError>(error),
    }
}

spec fn same_statement(
    result: Result<(Statement, usize), ParseError>,
    expected: Result<(StatementView, int), ParseError>,
    length: usize,
) -> bool {
    match result {
        Ok((statement, end)) => expected == Ok::<(StatementView, int), ParseError>(
            (statement@, end as int),
        ) && end <= length,
        Err(error) => expected == Err::<(StatementView, int), ParseError>(error),
    }
}

spec fn same_statements(
    result: Result<(Vec<Statement>, usize), ParseError>,
    expected: Result<(Seq<StatementView>, int), ParseError>,
    length: usize,
) -> bool {
    match result {
        Ok((statements, end)) => expected == Ok::<(Seq<StatementView>, int), ParseError>(
            (statement_views(statements@), end as int),
        ) && end <= length,
        Err(error) => expected == Err::<(Seq<StatementView>, int), ParseError>(error),
    }
}

spec fn same_names(
    result: Result<(Vec<String>, usize), ParseError>,
    expected: Result<(Seq<Seq<char>>, int), ParseError>,
    length: usize,
) -> bool {
    match result {
        Ok((names, end)) => expected == Ok::<(Seq<Seq<char>>, int), ParseError>(
            (name_views(names@), end as int),
        ) && end <= length,
        Err(error) => expected == Err::<(Seq<Seq<char>>, int), ParseError>(error),
    }
}

spec fn after_statements(
    front: Seq<StatementView>,
    rest: Result<(Seq<StatementView>, int), ParseError>,
) -> Result<(Seq<StatementView>, int), ParseError> {
    match rest {
        Ok((statements, end)) => Ok((front + statements, end)),
        Err(error) => Err(error),
    }
}

spec fn after_names(
    front: Seq<Seq<char>>,
    rest: Result<(Seq<Seq<char>>, int), ParseError>,
) -> Result<(Seq<Seq<char>>, int), ParseError> {
    match rest {
        Ok((names, end)) => Ok((front + names, end)),
        Err(error) => Err(error),
    }
}

fn unexpected_token(chars: &Vec<char>, token: Token) -> (error: ParseError)
    requires
        token.start <= chars.len(),
    ensures
        error == unexpected(chars@, token@),
{
    let kind = match token.kind {
        TokenKind::Unknown => SyntaxErrorKind::UnexpectedCharacter,
        TokenKind::End => SyntaxErrorKind::UnexpectedEnd,
        _ => SyntaxErrorKind::UnexpectedToken,
    };
    error_at(chars, kind, token.start)
}

fn expect_token(chars: &Vec<char>, at: usize, kind: TokenKind) -> (result: Result<
    usize,
    ParseError,
>)
    requires
        at <= chars.len(),
    ensures
        same_position(result, expect(chars@, at as int, kind), chars.len()),
{
    let token = next_token(chars, at);
    if token.kind == kind {
        Ok(token.end)
    } else {
        Err(unexpected_token(chars, token))
    }
}

fn read_name(input: &str, chars: &Vec<char>, at: usize) -> (result: Result<
    (String, usize),
    ParseError,
>)
    requires
        chars@ == input@,
        at <= chars.len(),
    ensures
        same_name(result, name_at(chars@, at as int), chars.len()),
{
    let token = next_token(chars, at);
    if token.kind == TokenKind::Name {
        Ok((String::from_str(input.substring_char(token.start, token.end)), token.end))
    } else {
        Err(unexpected_token(chars, token))
    }
}

fn digit_of(c: char) -> (digit: usize)
    ensures
        digit == digit_value(c),
        digit <= 9,
{
    if c == '1' {
        1
    } else if c == '2' {
        2
    } else if c == '3' {
        3
    } else if c == '4' {
        4
    } else if c == '5' {
        5
    } else if c == '6' {
        6
    } else if c == '7' {
        7
    } else if c == '8' {
        8
    } else if c == '9' {
        9
    } else {
        0
    }
}

proof fn lemma_numeral_grows(s: Seq<char>, start: int, middle: int, end: int)
    requires
        0 <= start <= middle <= end <= s.len(),
    ensures
        numeral_value(s.subrange(start, middle)) <= numeral_value(s.subrange(start, end)),
    decreases end - middle,
{
    if middle < end {
        lemma_numeral_grows(s, start, middle, end - 1);
        assert(s.subrange(start, end).drop_last() =~= s.subrange(start, end - 1));
    }
}

fn numeral(chars: &Vec<char>, start: usize, end: usize) -> (value: Option<usize>)
    requires
        start <= end <= chars.len(),
    ensures
        match value {
            Some(value) => value == numeral_value(chars@.subrange(start as int, end as int)),
            None => numeral_value(chars@.subrange(start as int, end as int)) > usize::MAX,
        },
{
    let mut value: usize = 0;
    let mut i = start;
    assert(chars@.subrange(start as int, start as int) =~= Seq::<char>::empty());
    while i < end
        invariant
            start <= i <= end <= chars.len(),
            value == numeral_value(chars@.subrange(start as int, i as int)),
        decreases end - i,
    {
        let digit = digit_of(chars[i]);
        proof {
            assert(chars@.subrange(start as int, i + 1).drop_last() =~= chars@.subrange(
                start as int,
                i as int,
            ));
            lemma_numeral_grows(chars@, start as int, i + 1, end as int);
        }
        if value > (usize::MAX - digit) / 10 {
            return None;
        }
        value = value * 10 + digit;
        i += 1;
    }
    Some(value)
}

fn read_number(chars: &Vec<char>, at: usize) -> (result: Result<(usize, usize), ParseError>)
    requires
        at <= chars.len(),
    ensures
        same_number(result, number_at(chars@, at as int), chars.len()),
{
    let token = next_token(chars, at);
    if token.kind != TokenKind::Number {
        return Err(unexpected_token(chars, token));
    }
    match numeral(chars, token.start, token.end) {
        Some(value) => Ok((value, token.end)),
        None => Err(error_at(chars, SyntaxErrorKind::NumberTooLarge, token.start)),
    }
}

fn read_zero(chars: &Vec<char>, at: usize) -> (result: Result<usize, ParseError>)
    requires
        at <= chars.len(),
    ensures
        same_position(result, zero_at(chars@, at as int), chars.len()),
{
    let token = next_token(chars, at);
    if token.kind == TokenKind::Number && token.end - token.start == 1 && chars[token.start]
        == '0' {
        Ok(token.end)
    } else {
        Err(unexpected_token(chars, token))
    }
}

fn read_jump(chars: &Vec<char>, at: usize) -> (result: Result<(usize, usize), ParseError>)
    requires
        at <= chars.len(),
    ensures
        same_number(result, jump_at(chars@, at as int), chars.len()),
{
    let a = match expect_token(chars, at, TokenKind::Goto) {
        Ok(a) => a,
        Err(error) => {
            return Err(error);
        },
    };
    let (target, b) = match read_number(chars, a) {
        Ok(number) => number,
        Err(error) => {
            return Err(error);
        },
    };
    match expect_token(chars, b, TokenKind::Semicolon) {
        Ok(end) => Ok((target, end)),
        Err(error) => Err(error),
    }
}

fn read_conditional(input: &str, chars: &Vec<char>, at: usize) -> (result: Result<
    (Statement, usize),
    ParseError,
>)
    requires
        chars@ == input@,
        at <= chars.len(),
    ensures
        same_statement(result, conditional_at(chars@, at as int), chars.len()),
{
    let (register, a) = match read_name(input, chars, at) {
        Ok(name) => name,
        Err(error) => {
            return Err(error);
        },
    };
    let relation = next_token(chars, a);
    let condition = match relation.kind {
        TokenKind::EqualsEquals => Condition::Equal,
        TokenKind::NotEquals => Condition::NotEqual,
        _ => {
            return Err(unexpected_token(chars, relation));
        },
    };
    let b = match read_zero(chars, relation.end) {
        Ok(b) => b,
        Err(error) => {
            return Err(error);
        },
    };
    match read_jump(chars, b) {
        Ok((target, end)) => Ok((Statement::ConditionalGoto { register, condition, target }, end)),
        Err(error) => Err(error),
    }
}

fn end_statement(chars: &Vec<char>, at: usize, statement: Statement) -> (result: Result<
    (Statement, usize),
    ParseError,
>)
    requires
        at <= chars.len(),
    ensures
        same_statement(result, end_of_statement(chars@, at as int, statement@), chars.len()),
{
    match expect_token(chars, at, TokenKind::Semicolon) {
        Ok(end) => Ok((statement, end)),
        Err(error) => Err(error),
    }
}

fn read_register_statement(chars: &Vec<char>, register: String, at: usize) -> (result: Result<
    (Statement, usize),
    ParseError,
>)
    requires
        at <= chars.len(),
    ensures
        same_statement(
            result,
            register_statement_at(chars@, register@, at as int),
            chars.len(),
        ),
{
    let operator = next_token(chars, at);
    match operator.kind {
        TokenKind::PlusPlus => end_statement(
            chars,
            operator.end,
            Statement::Increment { register },
        ),
        TokenKind::MinusMinus => end_statement(
            chars,
            operator.end,
            Statement::Decrement { register },
        ),
        TokenKind::Assign => match read_zero(chars, operator.end) {
            Ok(a) => end_statement(chars, a, Statement::ZeroAssignment { register }),
            Err(error) => Err(error),
        },
        _ => Err(unexpected_token(chars, operator)),
    }
}

fn read_statement(input: &str, chars: &Vec<char>, at: usize) -> (result: Result<
    (Statement, usize),
    ParseError,
>)
    requires
        chars@ == input@,
        at <= chars.len(),
    ensures
        same_statement(result, statement_at(chars@, at as int), chars.len()),
{
    let token = next_token(chars, at);
    match token.kind {
        TokenKind::Name => {
            let register = String::from_str(input.substring_char(token.start, token.end));
            read_register_statement(chars, register, token.end)
        },
        TokenKind::If => read_conditional(input, chars, token.end),
        TokenKind::Goto => match read_jump(chars, at) {
            Ok((target, end)) => Ok((Statement::Goto { target }, end)),
            Err(error) => Err(error),
        },
        _ => Err(unexpected_token(chars, token)),
    }
}

fn read_statements(input: &str, chars: &Vec<char>, at: usize) -> (result: Result<
    (Vec<Statement>, usize),
    ParseError,
>)
    requires
        chars@ == input@,
        at <= chars.len(),
    ensures
        same_statements(result, statements_from(chars@, at as int), chars.len()),
{
    let mut statements: Vec<Statement> = Vec::new();
    let mut position = at;
    assert(statement_views(statements@) + Seq::<StatementView>::empty() =~= Seq::<
        StatementView,
    >::empty());
    loop
        invariant
            chars@ == input@,
            position <= chars.len(),
            statements_from(chars@, at as int) == after_statements(
                statement_views(statements@),
                statements_from(chars@, position as int),
            ),
        decreases chars.len() - position,
    {
        let token = next_token(chars, position);
        let begins = match token.kind {
            TokenKind::Name => true,
            TokenKind::If => true,
            TokenKind::Goto => true,
            _ => false,
        };
        if !begins {
            assert(statement_views(statements@) + Seq::<StatementView>::empty()
                =~= statement_views(statements@));
            return Ok((statements, position));
        }
        match read_statement(input, chars, position) {
            Err(error) => {
                return Err(error);
            },
            Ok((statement, next)) => {
                proof {
                    lemma_statement_advances(chars@, position as int);
                    let front = statement_views(statements@);
                    let pushed = statement_views(statements@.push(statement));
                    assert(pushed =~= front + seq![statement@]);
                    match statements_from(chars@, next as int) {
                        Ok((rest, end)) => {
                            assert(front + (seq![statement@] + rest) =~= pushed + rest);
                        },
                        Err(_) => {},
                    }
                }
                statements.push(statement);
                position = next;
            },
        }
    }
}

fn read_names(input: &str, chars: &Vec<char>, at: usize) -> (result: Result<
    (Vec<String>, usize),
    ParseError,
>)
    requires
        chars@ == input@,
        at <= chars.len(),
    ensures
        same_names(result, names_at(chars@, at as int), chars.len()),
{
    let mut names: Vec<String> = Vec::new();
    let first = next_token(chars, at);
    if first.kind == TokenKind::RightParen {
        assert(name_views(names@) =~= Seq::<Seq<char>>::empty());
        return Ok((names, first.end));
    }
    let (name, after_first) = match read_name(input, chars, at) {
        Ok(name) => name,
        Err(error) => {
            return Err(error);
        },
    };
    names.push(name);
    let mut position = after_first;
    assert(name_views(names@) =~= seq![name@]);
    loop
        invariant
            chars@ == input@,
            position <= chars.len(),
            names_at(chars@, at as int) == after_names(
                name_views(names@),
                more_names(chars@, position as int),
            ),
        decreases chars.len() - position,
    {
        let token = next_token(chars, position);
        if token.kind == TokenKind::RightParen {
            assert(name_views(names@) + Seq::<Seq<char>>::empty() =~= name_views(names@));
            return Ok((names, token.end));
        }
        if token.kind != TokenKind::Comma {
            return Err(unexpected_token(chars, token));
        }
        match read_name(input, chars, token.end) {
            Err(error) => {
                return Err(error);
            },
            Ok((name, next)) => {
                proof {
                    lemma_lexeme_bounds(chars@, token.end as int);
                    let front = name_views(names@);
                    let pushed = name_views(names@.push(name));
                    assert(pushed =~= front + seq![name@]);
                    match more_names(chars@, next as int) {
                        Ok((rest, end)) => {
                            assert(front + (seq![name@] + rest) =~= pushed + rest);
                        },
                        Err(_) => {},
                    }
                }
                names.push(name);
                position = next;
            },
        }
    }
}

fn skip_semicolon(chars: &Vec<char>, at: usize) -> (end: usize)
    requires
        at <= chars.len(),
    ensures
        end == past_semicolon(chars@, at as int),
        at <= end <= chars.len(),
{
    let token = next_token(chars, at);
    if token.kind == TokenKind::Semicolon {
        token.end
    } else {
        at
    }
}

fn read_inputs(input: &str, chars: &Vec<char>) -> (result: Result<
    (Vec<String>, usize),
    ParseError,
>)
    requires
        chars@ == input@,
    ensures
        same_names(result, inputs_at(chars@), chars.len()),
{
    let token = next_token(chars, 0);
    if token.kind != TokenKind::In {
        let names: Vec<String> = Vec::new();
        assert(name_views(names@) =~= Seq::<Seq<char>>::empty());
        return Ok((names, 0));
    }
    let a = match expect_token(chars, token.end, TokenKind::LeftParen) {
        Ok(a) => a,
        Err(error) => {
            return Err(error);
        },
    };
    match read_names(input, chars, a) {
        Ok((names, b)) => Ok((names, skip_semicolon(chars, b))),
        Err(error) => Err(error),
    }
}

fn read_output_name(input: &str, chars: &Vec<char>, at: usize) -> (result: Result<
    (String, usize),
    ParseError,
>)
    requires
        chars@ == input@,
        at <= chars.len(),
    ensures
        same_name(result, output_name_at(chars@, at as int), chars.len()),
{
    let a = match expect_token(chars, at, TokenKind::LeftParen) {
        Ok(a) => a,
        Err(error) => {
            return Err(error);
        },
    };
    let (name, b) = match read_name(input, chars, a) {
        Ok(name) => name,
        Err(error) => {
            return Err(error);
        },
    };
    match expect_token(chars, b, TokenKind::RightParen) {
        Ok(end) => Ok((name, end)),
        Err(error) => Err(error),
    }
}

fn read_output(input: &str, chars: &Vec<char>, at: usize) -> (result: Result<String, ParseError>)
    requires
        chars@ == input@,
        at <= chars.len(),
    ensures
        match result {
            Ok(name) => output_at(chars@, at as int) == Ok::<Seq<char>, ParseError>(name@),
            Err(error) => output_at(chars@, at as int) == Err::<Seq<char>, ParseError>(error),
        },
{
    let token = next_token(chars, at);
    match token.kind {
        TokenKind::Out => {
            let (name, a) = match read_output_name(input, chars, token.end) {
                Ok(name) => name,
                Err(error) => {
                    return Err(error);
                },
            };
            let last = next_token(chars, skip_semicolon(chars, a));
            if last.kind == TokenKind::End {
                Ok(name)
            } else {
                Err(unexpected_token(chars, last))
            }
        },
        TokenKind::End => Err(ParseError::NoOutputRegister),
        _ => Err(unexpected_token(chars, token)),
    }
}

/// Parses program text into a program.
///
/// The result is the program that the grammar reads from the text. A text
/// that does not follow the grammar is refused with the place of the first
/// token that does not fit, and a text that ends without an output
/// declaration with `NoOutputRegister`. Register names are not compared
/// with each other here.
pub fn parse_urm_code(input: &str) -> (result: Result<Program, ParseError>)
    ensures
        match result {
            Ok(program) => parse_program(input@) == Ok::<ProgramView, ParseError>(program@),
            Err(error) => parse_program(input@) == Err::<ProgramView, ParseError>(error),
        },
{
    let chars = characters(input);
    let (input_registers, a) = match read_inputs(input, &chars) {
        Ok(inputs) => inputs,
        Err(error) => {
            return Err(error);
        },
    };
    let (statements, b) = match read_statements(input, &chars, a) {
        Ok(statements) => statements,
        Err(error) => {
            return Err(error);
        },
    };
    match read_output(input, &chars, b) {
        Ok(output_register) => Ok(Program { input_registers, statements, output_register }),
        Err(error) => Err(error),
    }
}

} // verus!

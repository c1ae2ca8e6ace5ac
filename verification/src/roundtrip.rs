//! Canonical text reads back as what it was written from: a statement as
//! that statement, a program as that program.

use vstd::prelude::*;
use crate::decimal::{decimal, is_digit, lemma_decimal_is_digits, lemma_numeral_value_of_decimal};
use crate::grammar::{
    begins_statement, end_of_statement, expect, inputs_at, jump_at, lemma_statement_advances,
    more_names, name_at, names_at, output_at, output_name_at, parse_program, past_semicolon,
    register_statement_at, statement_at, statements_from, zero_at,
};
use crate::instructions::{condition_text, Condition, ProgramView, StatementView};
use crate::lexer::{
    in_class, is_letter, is_space, lemma_lexeme_bounds, lemma_scan, lemma_scan_run, lexeme_at, scan,
    word_kind, CharClass, Lexeme, TokenKind,
};
use crate::parser::ParseError;

verus! {

/// Whether `word` is written as a word: a letter or underscore first, and
/// letters, digits and underscores throughout.
pub open spec fn is_word(word: Seq<char>) -> bool {
    &&& word.len() >= 1
    &&& is_letter(word[0])
    &&& forall|i: int| 0 <= i < word.len() ==> in_class(CharClass::Word, #[trigger] word[i])
}

/// Whether `word` can name a register: it is a word and no keyword.
pub open spec fn is_register_name(word: Seq<char>) -> bool {
    is_word(word) && word_kind(word) == TokenKind::Name
}

/// Whether `statement` is one that program text can denote: its register,
/// if it has one, has a name that can be written, and its target, if it
/// has one, is a machine integer.
pub open spec fn writable(statement: StatementView) -> bool {
    match statement {
        StatementView::ConditionalGoto { register, target, .. } => is_register_name(register)
            && target <= usize::MAX,
        StatementView::Increment { register } => is_register_name(register),
        StatementView::Decrement { register } => is_register_name(register),
        StatementView::ZeroAssignment { register } => is_register_name(register),
        StatementView::Goto { target } => target <= usize::MAX,
    }
}

/// Whether the characters of `text` stand in `s` from position `at` on.
pub open spec fn stands_at(s: Seq<char>, at: int, text: Seq<char>) -> bool {
    &&& 0 <= at
    &&& at + text.len() <= s.len()
    &&& forall|k: int| 0 <= k < text.len() ==> s[at + k] == #[trigger] text[k]
}

proof fn lemma_word_lexeme(s: Seq<char>, at: int, word: Seq<char>)
    requires
        is_word(word),
        stands_at(s, at, word),
        at + word.len() < s.len() ==> !in_class(CharClass::Word, s[at + word.len()]),
    ensures
        lexeme_at(s, at) == (Lexeme { kind: word_kind(word), start: at, end: at + word.len() }),
        s.subrange(at, at + word.len()) == word,
{
    assert(s[at] == word[0]);
    assert(scan(s, at, CharClass::Space) == at);
    assert forall|k: int| at <= k < at + word.len() implies in_class(
        CharClass::Word,
        #[trigger] s[k],
    ) by {
        assert(s[k] == word[k - at]);
    }
    lemma_scan_run(s, at, at + word.len(), CharClass::Word);
    assert(s.subrange(at, at + word.len()) =~= word);
}

proof fn lemma_number_lexeme(s: Seq<char>, at: int, digits: Seq<char>)
    requires
        digits.len() >= 1,
        forall|i: int| 0 <= i < digits.len() ==> is_digit(#[trigger] digits[i]),
        stands_at(s, at, digits),
        at + digits.len() < s.len() ==> !is_digit(s[at + digits.len()]),
    ensures
        lexeme_at(s, at) == (Lexeme {
            kind: TokenKind::Number,
            start: at,
            end: at + digits.len(),
        }),
        s.subrange(at, at + digits.len()) == digits,
{
    assert(s[at] == digits[0]);
    assert(scan(s, at, CharClass::Space) == at);
    assert forall|k: int| at <= k < at + digits.len() implies in_class(
        CharClass::Digit,
        #[trigger] s[k],
    ) by {
        assert(s[k] == digits[k - at]);
    }
    lemma_scan_run(s, at, at + digits.len(), CharClass::Digit);
    assert(s.subrange(at, at + digits.len()) =~= digits);
}

proof fn lemma_jump_round_trip(s: Seq<char>, at: int, target: nat)
    requires
        target <= usize::MAX,
        stands_at(s, at, seq!['g', 'o', 't', 'o', ' '] + decimal(target) + seq![';']),
    ensures
        jump_at(s, at) == Ok::<(nat, int), ParseError>(
            (target, at + 6 + decimal(target).len()),
        ),
{
    let keyword = seq!['g', 'o', 't', 'o'];
    let digits = decimal(target);
    let text = seq!['g', 'o', 't', 'o', ' '] + digits + seq![';'];
    let width = digits.len() as int;
    lemma_decimal_is_digits(target);
    lemma_numeral_value_of_decimal(target);
    assert(text.len() == 6 + width);
    assert forall|k: int| 0 <= k < 4 implies s[at + k] == #[trigger] keyword[k] by {
        assert(text[k] == keyword[k]);
    }
    assert(s[at + 4] == ' ') by {
        assert(text[4] == ' ');
    }
    lemma_word_lexeme(s, at, keyword);
    assert(word_kind(keyword) == TokenKind::Goto);
    let from = at + 5;
    assert forall|k: int| 0 <= k < width implies s[from + k] == #[trigger] digits[k] by {
        assert(text[5 + k] == digits[k]);
    }
    assert(s[from + width] == ';') by {
        assert(text[5 + width] == ';');
    }
    lemma_number_lexeme(s, from, digits);
    assert(scan(s, at + 4, CharClass::Space) == from) by {
        assert(s[from] == digits[0]);
        assert(scan(s, from, CharClass::Space) == from);
    }
    assert(lexeme_at(s, at + 4) == lexeme_at(s, from));
    let end = from + width;
    assert(scan(s, end, CharClass::Space) == end);
    assert(lexeme_at(s, end) == (Lexeme { kind: TokenKind::Semicolon, start: end, end: end + 1 }));
}

proof fn lemma_skip_space(s: Seq<char>, at: int)
    requires
        0 <= at < s.len(),
        is_space(s[at]),
    ensures
        lexeme_at(s, at) == lexeme_at(s, at + 1),
{
    assert(scan(s, at, CharClass::Space) == scan(s, at + 1, CharClass::Space));
}

proof fn lemma_semicolon_lexeme(s: Seq<char>, at: int)
    requires
        0 <= at < s.len(),
        s[at] == ';',
    ensures
        expect(s, at, TokenKind::Semicolon) == Ok::<int, ParseError>(at + 1),
{
    assert(scan(s, at, CharClass::Space) == at);
}

proof fn lemma_zero_lexeme(s: Seq<char>, at: int)
    requires
        0 <= at,
        at + 1 < s.len(),
        s[at] == '0',
        !is_digit(s[at + 1]),
    ensures
        zero_at(s, at) == Ok::<int, ParseError>(at + 1),
{
    assert(scan(s, at, CharClass::Space) == at);
    lemma_scan_run(s, at, at + 1, CharClass::Digit);
}

proof fn lemma_step_round_trip(s: Seq<char>, at: int, register: Seq<char>, sign: char)
    requires
        is_register_name(register),
        sign == '+' || sign == '-',
        stands_at(s, at, register + seq![sign, sign, ';']),
    ensures
        lexeme_at(s, at) == (Lexeme {
            kind: TokenKind::Name,
            start: at,
            end: at + register.len(),
        }),
        s.subrange(at, at + register.len()) == register,
        register_statement_at(s, register, at + register.len()) == end_of_statement(
            s,
            at + register.len() + 2,
            if sign == '+' {
                StatementView::Increment { register }
            } else {
                StatementView::Decrement { register }
            },
        ),
        expect(s, at + register.len() + 2, TokenKind::Semicolon) == Ok::<int, ParseError>(
            at + register.len() + 3,
        ),
{
    let text = register + seq![sign, sign, ';'];
    let n = register.len() as int;
    assert(text.len() == n + 3);
    assert forall|k: int| 0 <= k < n implies s[at + k] == #[trigger] register[k] by {
        assert(text[k] == register[k]);
    }
    assert(s[at + n] == sign && s[at + n + 1] == sign && s[at + n + 2] == ';') by {
        assert(text[n] == sign && text[n + 1] == sign && text[n + 2] == ';');
    }
    lemma_word_lexeme(s, at, register);
    assert(scan(s, at + n, CharClass::Space) == at + n);
    lemma_semicolon_lexeme(s, at + n + 2);
}

proof fn lemma_assignment_round_trip(s: Seq<char>, at: int, register: Seq<char>)
    requires
        is_register_name(register),
        stands_at(s, at, register + seq![' ', '=', ' ', '0', ';']),
    ensures
        statement_at(s, at) == Ok::<(StatementView, int), ParseError>(
            (StatementView::ZeroAssignment { register }, at + register.len() + 5),
        ),
{
    let text = register + seq![' ', '=', ' ', '0', ';'];
    let n = register.len() as int;
    assert(text.len() == n + 5);
    assert forall|k: int| 0 <= k < n implies s[at + k] == #[trigger] register[k] by {
        assert(text[k] == register[k]);
    }
    assert(s[at + n] == ' ' && s[at + n + 1] == '=' && s[at + n + 2] == ' ' && s[at + n + 3]
        == '0' && s[at + n + 4] == ';') by {
        assert(text[n] == ' ' && text[n + 1] == '=' && text[n + 2] == ' ' && text[n + 3] == '0'
            && text[n + 4] == ';');
    }
    lemma_word_lexeme(s, at, register);
    lemma_skip_space(s, at + n);
    assert(scan(s, at + n + 1, CharClass::Space) == at + n + 1);
    assert(lexeme_at(s, at + n + 1) == (Lexeme {
        kind: TokenKind::Assign,
        start: at + n + 1,
        end: at + n + 2,
    }));
    lemma_skip_space(s, at + n + 2);
    lemma_zero_lexeme(s, at + n + 3);
    assert(zero_at(s, at + n + 2) == zero_at(s, at + n + 3));
    lemma_semicolon_lexeme(s, at + n + 4);
}

proof fn lemma_goto_round_trip(s: Seq<char>, at: int, target: nat)
    requires
        target <= usize::MAX,
        stands_at(s, at, seq!['g', 'o', 't', 'o', ' '] + decimal(target) + seq![';']),
    ensures
        statement_at(s, at) == Ok::<(StatementView, int), ParseError>(
            (StatementView::Goto { target }, at + 6 + decimal(target).len()),
        ),
{
    let text = seq!['g', 'o', 't', 'o', ' '] + decimal(target) + seq![';'];
    lemma_jump_round_trip(s, at, target);
    let keyword = seq!['g', 'o', 't', 'o'];
    assert forall|k: int| 0 <= k < 4 implies s[at + k] == #[trigger] keyword[k] by {
        assert(text[k] == keyword[k]);
    }
    assert(s[at + 4] == ' ') by {
        assert(text[4] == ' ');
    }
    lemma_word_lexeme(s, at, keyword);
    assert(word_kind(keyword) == TokenKind::Goto);
}

proof fn lemma_relation_round_trip(s: Seq<char>, at: int, condition: Condition, target: nat)
    requires
        target <= usize::MAX,
        stands_at(s, at, condition_text(condition) + decimal(target) + seq![';']),
    ensures
        lexeme_at(s, at) == (Lexeme {
            kind: if condition == Condition::Equal {
                TokenKind::EqualsEquals
            } else {
                TokenKind::NotEquals
            },
            start: at + 1,
            end: at + 3,
        }),
        zero_at(s, at + 3) == Ok::<int, ParseError>(at + 5),
        jump_at(s, at + 5) == Ok::<(nat, int), ParseError>(
            (target, at + 12 + decimal(target).len()),
        ),
        s[at] == ' ',
{
    let relation = condition_text(condition);
    let digits = decimal(target);
    let text = relation + digits + seq![';'];
    let width = digits.len() as int;
    assert(relation.len() == 11);
    assert(text.len() == 12 + width);
    assert forall|k: int| 0 <= k < 11 implies s[at + k] == #[trigger] relation[k] by {
        assert(text[k] == relation[k]);
    }
    assert(s[at] == ' ' && s[at + 2] == '=' && s[at + 3] == ' ' && s[at + 4] == '0' && s[at + 5]
        == ' ') by {
        assert(relation[0] == ' ' && relation[2] == '=' && relation[3] == ' ' && relation[4]
            == '0' && relation[5] == ' ');
    }
    assert(s[at + 1] == (if condition == Condition::Equal {
        '='
    } else {
        '!'
    })) by {
        assert(relation[1] == (if condition == Condition::Equal {
            '='
        } else {
            '!'
        }));
    }
    lemma_skip_space(s, at);
    assert(scan(s, at + 1, CharClass::Space) == at + 1);
    lemma_skip_space(s, at + 3);
    lemma_zero_lexeme(s, at + 4);
    assert(zero_at(s, at + 3) == zero_at(s, at + 4));
    let jump = seq!['g', 'o', 't', 'o', ' '] + digits + seq![';'];
    assert(stands_at(s, at + 6, jump)) by {
        assert forall|k: int| 0 <= k < jump.len() implies s[at + 6 + k] == #[trigger] jump[k] by {
            assert(text[6 + k] == jump[k]);
        }
    }
    lemma_jump_round_trip(s, at + 6, target);
    lemma_skip_space(s, at + 5);
    assert(jump_at(s, at + 5) == jump_at(s, at + 6));
}

proof fn lemma_conditional_round_trip(
    s: Seq<char>,
    at: int,
    register: Seq<char>,
    condition: Condition,
    target: nat,
)
    requires
        is_register_name(register),
        target <= usize::MAX,
        stands_at(
            s,
            at,
            seq!['i', 'f', ' '] + register + condition_text(condition) + decimal(target)
                + seq![';'],
        ),
    ensures
        statement_at(s, at) == Ok::<(StatementView, int), ParseError>(
            (
                StatementView::ConditionalGoto { register, condition, target },
                at + 3 + register.len() + 12 + decimal(target).len(),
            ),
        ),
{
    let n = register.len() as int;
    let digits = decimal(target);
    let relation = condition_text(condition);
    let keyword = seq!['i', 'f'];
    let text = seq!['i', 'f', ' '] + register + relation + digits + seq![';'];
    let tail = relation + digits + seq![';'];
    assert(relation.len() == 11);
    assert(text.len() == 3 + n + 12 + digits.len());
    assert forall|k: int| 0 <= k < 2 implies s[at + k] == #[trigger] keyword[k] by {
        assert(text[k] == keyword[k]);
    }
    assert(s[at + 2] == ' ') by {
        assert(text[2] == ' ');
    }
    lemma_word_lexeme(s, at, keyword);
    assert(word_kind(keyword) == TokenKind::If);
    let name = at + 3;
    assert forall|k: int| 0 <= k < n implies s[name + k] == #[trigger] register[k] by {
        assert(text[3 + k] == register[k]);
    }
    let after = name + n;
    assert(stands_at(s, after, tail)) by {
        assert forall|k: int| 0 <= k < tail.len() implies s[after + k] == #[trigger] tail[k] by {
            assert(text[3 + n + k] == tail[k]);
        }
    }
    lemma_relation_round_trip(s, after, condition, target);
    lemma_word_lexeme(s, name, register);
    lemma_skip_space(s, at + 2);
    assert(name_at(s, at + 2) == Ok::<(Seq<char>, int), ParseError>((register, after)));
}

/// Wherever the text of a statement stands in a text, the grammar reads
/// that statement there, and ends behind its semicolon.
pub proof fn lemma_statement_round_trip(s: Seq<char>, at: int, statement: StatementView)
    requires
        writable(statement),
        stands_at(s, at, statement.text()),
    ensures
        statement_at(s, at) == Ok::<(StatementView, int), ParseError>(
            (statement, at + statement.text().len()),
        ),
{
    match statement {
        StatementView::Increment { register } => {
            lemma_step_round_trip(s, at, register, '+');
        },
        StatementView::Decrement { register } => {
            lemma_step_round_trip(s, at, register, '-');
        },
        StatementView::ZeroAssignment { register } => {
            lemma_assignment_round_trip(s, at, register);
        },
        StatementView::Goto { target } => {
            lemma_goto_round_trip(s, at, target);
        },
        StatementView::ConditionalGoto { register, condition, target } => {
            lemma_conditional_round_trip(s, at, register, condition, target);
        },
    }
}

proof fn lemma_name_is_register_name(s: Seq<char>, at: int)
    requires
        0 <= at <= s.len(),
        lexeme_at(s, at).kind == TokenKind::Name,
    ensures
        is_register_name(s.subrange(lexeme_at(s, at).start, lexeme_at(s, at).end)),
{
    lemma_scan(s, at, CharClass::Space);
    let start = scan(s, at, CharClass::Space);
    lemma_scan(s, start, CharClass::Word);
    let end = scan(s, start, CharClass::Word);
    let word = s.subrange(start, end);
    assert(is_letter(s[start]));
    assert(start < end);
    assert forall|i: int| 0 <= i < word.len() implies in_class(
        CharClass::Word,
        #[trigger] word[i],
    ) by {
        assert(word[i] == s[start + i]);
    }
}

/// Every statement that the grammar reads from a text is one that text
/// can denote.
pub proof fn lemma_parsed_statement_writable(s: Seq<char>, at: int)
    requires
        0 <= at <= s.len(),
        statement_at(s, at) is Ok,
    ensures
        writable(statement_at(s, at)->Ok_0.0),
{
    lemma_lexeme_bounds(s, at);
    let token = lexeme_at(s, at);
    if token.kind == TokenKind::Name {
        lemma_name_is_register_name(s, at);
    } else if token.kind == TokenKind::If {
        lemma_name_is_register_name(s, token.end);
    }
}

/// The canonical line of a statement, read from behind its label, gives
/// the statement back, and nothing is left over.
pub proof fn lemma_rendered_round_trip(statement: StatementView, number: nat)
    requires
        writable(statement),
    ensures
        statement_at(statement.rendered(number), decimal(number).len() as int + 2) == Ok::<
            (StatementView, int),
            ParseError,
        >((statement, statement.rendered(number).len() as int)),
{
    let line = statement.rendered(number);
    let label = decimal(number) + seq![':', ' '];
    let text = statement.text();
    assert(line =~= label + text);
    assert(stands_at(line, label.len() as int, text)) by {
        assert forall|k: int| 0 <= k < text.len() implies line[label.len() + k]
            == #[trigger] text[k] by {}
    }
    lemma_statement_round_trip(line, label.len() as int, statement);
}

/// Rendering a statement that was parsed, and parsing the line again from
/// behind its label, yields the same statement.
pub proof fn lemma_round_trip(s: Seq<char>, at: int, number: nat)
    requires
        0 <= at <= s.len(),
        statement_at(s, at) is Ok,
    ensures
        ({
            let statement = statement_at(s, at)->Ok_0.0;
            let line = statement.rendered(number);
            statement_at(line, decimal(number).len() as int + 2) == Ok::<
                (StatementView, int),
                ParseError,
            >((statement, line.len() as int))
        }),
{
    lemma_parsed_statement_writable(s, at);
    lemma_rendered_round_trip(statement_at(s, at)->Ok_0.0, number);
}

/// The names behind the first of an input declaration, each with the comma
/// and the space before it.
pub open spec fn more_names_text(names: Seq<Seq<char>>) -> Seq<char>
    decreases names.len(),
{
    if names.len() == 0 {
        Seq::empty()
    } else {
        seq![',', ' '] + names[0] + more_names_text(names.drop_first())
    }
}

/// The names of an input declaration, separated by a comma and a space.
pub open spec fn names_text(names: Seq<Seq<char>>) -> Seq<char> {
    if names.len() == 0 {
        Seq::empty()
    } else {
        names[0] + more_names_text(names.drop_first())
    }
}

/// The statements, each on a line of its own.
pub open spec fn lines_text(statements: Seq<StatementView>) -> Seq<char>
    decreases statements.len(),
{
    if statements.len() == 0 {
        Seq::empty()
    } else {
        seq!['\n'] + statements[0].text() + lines_text(statements.drop_first())
    }
}

/// The canonical text of a program: the input declaration, the statements
/// line by line, and the output declaration.
pub open spec fn program_text(program: ProgramView) -> Seq<char> {
    seq!['i', 'n', '('] + names_text(program.input_registers) + seq![')'] + lines_text(
        program.statements,
    ) + seq!['\n', 'o', 'u', 't', '('] + program.output_register + seq![')']
}

/// Whether `program` is one that program text can denote: its registers
/// have names that can be written, and so have its statements.
pub open spec fn writable_program(program: ProgramView) -> bool {
    &&& forall|i: int|
        0 <= i < program.input_registers.len() ==> is_register_name(
            #[trigger] program.input_registers[i],
        )
    &&& forall|i: int|
        0 <= i < program.statements.len() ==> writable(#[trigger] program.statements[i])
    &&& is_register_name(program.output_register)
}

proof fn lemma_stands_split(s: Seq<char>, at: int, front: Seq<char>, back: Seq<char>)
    requires
        stands_at(s, at, front + back),
    ensures
        stands_at(s, at, front),
        stands_at(s, at + front.len(), back),
{
    let text = front + back;
    assert forall|k: int| 0 <= k < front.len() implies s[at + k] == #[trigger] front[k] by {
        assert(text[k] == front[k]);
    }
    assert forall|k: int| 0 <= k < back.len() implies s[at + front.len() + k]
        == #[trigger] back[k] by {
        assert(text[front.len() + k] == back[k]);
    }
}

proof fn lemma_more_names_round_trip(s: Seq<char>, at: int, names: Seq<Seq<char>>)
    requires
        forall|i: int| 0 <= i < names.len() ==> is_register_name(#[trigger] names[i]),
        stands_at(s, at, more_names_text(names) + seq![')']),
    ensures
        more_names(s, at) == Ok::<(Seq<Seq<char>>, int), ParseError>(
            (names, at + more_names_text(names).len() + 1),
        ),
    decreases names.len(),
{
    if names.len() == 0 {
        assert((more_names_text(names) + seq![')'])[0] == ')');
        assert(s[at] == ')');
        assert(scan(s, at, CharClass::Space) == at);
        assert(names =~= Seq::<Seq<char>>::empty());
    } else {
        let name = names[0];
        let rest = names.drop_first();
        let tail = more_names_text(rest) + seq![')'];
        let n = name.len() as int;
        assert(is_register_name(name));
        assert(more_names_text(names) + seq![')'] =~= seq![',', ' '] + (name + tail));
        lemma_stands_split(s, at, seq![',', ' '], name + tail);
        lemma_stands_split(s, at + 2, name, tail);
        assert(s[at] == ',' && s[at + 1] == ' ') by {
            assert(seq![',', ' '][0] == ',' && seq![',', ' '][1] == ' ');
        }
        assert(s[at + 2 + n] == tail[0]);
        assert(tail[0] == ')' || tail[0] == ',') by {
            if rest.len() > 0 {
                assert(more_names_text(rest)[0] == ',');
            }
        }
        lemma_word_lexeme(s, at + 2, name);
        lemma_skip_space(s, at + 1);
        assert(scan(s, at, CharClass::Space) == at);
        assert(lexeme_at(s, at) == (Lexeme { kind: TokenKind::Comma, start: at, end: at + 1 }));
        assert(name_at(s, at + 1) == Ok::<(Seq<char>, int), ParseError>((name, at + 2 + n)));
        assert forall|i: int| 0 <= i < rest.len() implies is_register_name(
            #[trigger] rest[i],
        ) by {
            assert(rest[i] == names[i + 1]);
        }
        lemma_more_names_round_trip(s, at + 2 + n, rest);
        assert(seq![name] + rest =~= names);
        assert(more_names_text(names).len() == 2 + n + more_names_text(rest).len());
    }
}

proof fn lemma_names_round_trip(s: Seq<char>, at: int, names: Seq<Seq<char>>)
    requires
        forall|i: int| 0 <= i < names.len() ==> is_register_name(#[trigger] names[i]),
        stands_at(s, at, names_text(names) + seq![')']),
    ensures
        names_at(s, at) == Ok::<(Seq<Seq<char>>, int), ParseError>(
            (names, at + names_text(names).len() + 1),
        ),
{
    if names.len() == 0 {
        assert((names_text(names) + seq![')'])[0] == ')');
        assert(s[at] == ')');
        assert(scan(s, at, CharClass::Space) == at);
        assert(names =~= Seq::<Seq<char>>::empty());
    } else {
        let name = names[0];
        let rest = names.drop_first();
        let tail = more_names_text(rest) + seq![')'];
        let n = name.len() as int;
        assert(is_register_name(name));
        assert(names_text(names) + seq![')'] =~= name + tail);
        lemma_stands_split(s, at, name, tail);
        assert(s[at + n] == tail[0]);
        assert(tail[0] == ')' || tail[0] == ',') by {
            if rest.len() > 0 {
                assert(more_names_text(rest)[0] == ',');
            }
        }
        lemma_word_lexeme(s, at, name);
        assert forall|i: int| 0 <= i < rest.len() implies is_register_name(
            #[trigger] rest[i],
        ) by {
            assert(rest[i] == names[i + 1]);
        }
        lemma_more_names_round_trip(s, at + n, rest);
        assert(seq![name] + rest =~= names);
    }
}

proof fn lemma_lines_round_trip(s: Seq<char>, at: int, statements: Seq<StatementView>)
    requires
        forall|i: int| 0 <= i < statements.len() ==> writable(#[trigger] statements[i]),
        stands_at(s, at, lines_text(statements)),
        !begins_statement(lexeme_at(s, at + lines_text(statements).len()).kind),
    ensures
        statements_from(s, at) == Ok::<(Seq<StatementView>, int), ParseError>(
            (statements, at + lines_text(statements).len()),
        ),
    decreases statements.len(),
{
    if statements.len() == 0 {
        assert(statements =~= Seq::<StatementView>::empty());
    } else {
        let first = statements[0];
        let rest = statements.drop_first();
        let text = first.text();
        assert(writable(first));
        assert(lines_text(statements) =~= seq!['\n'] + (text + lines_text(rest)));
        lemma_stands_split(s, at, seq!['\n'], text + lines_text(rest));
        lemma_stands_split(s, at + 1, text, lines_text(rest));
        assert(s[at] == '\n') by {
            assert(seq!['\n'][0] == '\n');
        }
        lemma_statement_round_trip(s, at + 1, first);
        lemma_skip_space(s, at);
        assert(statement_at(s, at) == statement_at(s, at + 1));
        assert forall|i: int| 0 <= i < rest.len() implies writable(#[trigger] rest[i]) by {
            assert(rest[i] == statements[i + 1]);
        }
        assert(lines_text(statements).len() == 1 + text.len() + lines_text(rest).len());
        lemma_lines_round_trip(s, at + 1 + text.len(), rest);
        assert(seq![first] + rest =~= statements);
    }
}

proof fn lemma_output_round_trip(s: Seq<char>, at: int, name: Seq<char>)
    requires
        is_register_name(name),
        stands_at(s, at, seq!['\n', 'o', 'u', 't', '('] + name + seq![')']),
        s.len() == at + 6 + name.len(),
    ensures
        lexeme_at(s, at).kind == TokenKind::Out,
        output_at(s, at) == Ok::<Seq<char>, ParseError>(name),
{
    let head = seq!['\n', 'o', 'u', 't', '('];
    let keyword = seq!['o', 'u', 't'];
    let n = name.len() as int;
    assert(head + name + seq![')'] =~= head + (name + seq![')']));
    lemma_stands_split(s, at, head, name + seq![')']);
    lemma_stands_split(s, at + 5, name, seq![')']);
    assert(s[at] == '\n' && s[at + 4] == '(') by {
        assert(head[0] == '\n' && head[4] == '(');
    }
    assert forall|k: int| 0 <= k < 3 implies s[at + 1 + k] == #[trigger] keyword[k] by {
        assert(head[1 + k] == keyword[k]);
    }
    assert(s[at + 5 + n] == ')') by {
        assert(seq![')'][0] == ')');
    }
    lemma_word_lexeme(s, at + 1, keyword);
    assert(word_kind(keyword) == TokenKind::Out);
    lemma_skip_space(s, at);
    assert(scan(s, at + 4, CharClass::Space) == at + 4);
    lemma_word_lexeme(s, at + 5, name);
    assert(scan(s, at + 5 + n, CharClass::Space) == at + 5 + n);
    assert(output_name_at(s, at + 4) == Ok::<(Seq<char>, int), ParseError>((name, at + 6 + n)));
    assert(scan(s, at + 6 + n, CharClass::Space) == at + 6 + n);
    assert(lexeme_at(s, at + 6 + n).kind == TokenKind::End);
    assert(past_semicolon(s, at + 6 + n) == at + 6 + n);
}

proof fn lemma_inputs_round_trip(s: Seq<char>, names: Seq<Seq<char>>)
    requires
        forall|i: int| 0 <= i < names.len() ==> is_register_name(#[trigger] names[i]),
        stands_at(s, 0, seq!['i', 'n', '('] + (names_text(names) + seq![')'])),
        lexeme_at(s, 4 + names_text(names).len() as int).kind != TokenKind::Semicolon,
    ensures
        inputs_at(s) == Ok::<(Seq<Seq<char>>, int), ParseError>(
            (names, 4 + names_text(names).len() as int),
        ),
{
    let head = seq!['i', 'n', '('];
    let keyword = seq!['i', 'n'];
    lemma_stands_split(s, 0, head, names_text(names) + seq![')']);
    assert forall|k: int| 0 <= k < 2 implies s[0 + k] == #[trigger] keyword[k] by {
        assert(head[k] == keyword[k]);
    }
    assert(s[2] == '(') by {
        assert(head[2] == '(');
    }
    lemma_word_lexeme(s, 0, keyword);
    assert(word_kind(keyword) == TokenKind::In);
    assert(scan(s, 2, CharClass::Space) == 2);
    lemma_names_round_trip(s, 3, names);
}

proof fn lemma_program_text_parts(program: ProgramView)
    ensures
        ({
            let s = program_text(program);
            let names = names_text(program.input_registers);
            let lines = lines_text(program.statements);
            let ending = seq!['\n', 'o', 'u', 't', '('] + program.output_register + seq![')'];
            &&& stands_at(s, 0, seq!['i', 'n', '('] + (names + seq![')']))
            &&& stands_at(s, 4 + names.len() as int, lines)
            &&& stands_at(s, 4 + names.len() as int + lines.len() as int, ending)
            &&& s.len() == 4 + names.len() + lines.len() + 6 + program.output_register.len()
        }),
{
    let s = program_text(program);
    let names = names_text(program.input_registers);
    let lines = lines_text(program.statements);
    let ending = seq!['\n', 'o', 'u', 't', '('] + program.output_register + seq![')'];
    let opening = seq!['i', 'n', '('] + (names + seq![')']);
    assert(s =~= opening + (lines + ending));
    assert(stands_at(s, 0, s));
    lemma_stands_split(s, 0, opening, lines + ending);
    lemma_stands_split(s, opening.len() as int, lines, ending);
}

/// The canonical text of a program reads back as that program.
pub proof fn lemma_program_round_trip(program: ProgramView)
    requires
        writable_program(program),
    ensures
        parse_program(program_text(program)) == Ok::<ProgramView, ParseError>(program),
{
    let s = program_text(program);
    let a: int = 4 + names_text(program.input_registers).len() as int;
    let b: int = a + lines_text(program.statements).len() as int;
    lemma_program_text_parts(program);
    lemma_output_round_trip(s, b, program.output_register);
    lemma_lines_round_trip(s, a, program.statements);
    assert(lexeme_at(s, a).kind != TokenKind::Semicolon) by {
        if program.statements.len() > 0 {
            assert(begins_statement(lexeme_at(s, a).kind));
        } else {
            assert(a == b);
        }
    }
    lemma_inputs_round_trip(s, program.input_registers);
}

proof fn lemma_more_names_writable(s: Seq<char>, at: int)
    requires
        0 <= at <= s.len(),
        more_names(s, at) is Ok,
    ensures
        forall|i: int|
            0 <= i < more_names(s, at)->Ok_0.0.len() ==> is_register_name(
                #[trigger] more_names(s, at)->Ok_0.0[i],
            ),
    decreases s.len() - at,
{
    let token = lexeme_at(s, at);
    lemma_lexeme_bounds(s, at);
    if token.kind == TokenKind::Comma {
        lemma_lexeme_bounds(s, token.end);
        lemma_name_is_register_name(s, token.end);
        let (name, a) = name_at(s, token.end)->Ok_0;
        lemma_more_names_writable(s, a);
        let rest = more_names(s, a)->Ok_0.0;
        let names = more_names(s, at)->Ok_0.0;
        assert(names == seq![name] + rest);
        assert forall|i: int| 0 <= i < names.len() implies is_register_name(
            #[trigger] names[i],
        ) by {
            if i > 0 {
                assert(names[i] == rest[i - 1]);
            }
        }
    }
}

proof fn lemma_statements_writable(s: Seq<char>, at: int)
    requires
        0 <= at <= s.len(),
        statements_from(s, at) is Ok,
    ensures
        forall|i: int|
            0 <= i < statements_from(s, at)->Ok_0.0.len() ==> writable(
                #[trigger] statements_from(s, at)->Ok_0.0[i],
            ),
    decreases s.len() - at,
{
    if begins_statement(lexeme_at(s, at).kind) {
        lemma_statement_advances(s, at);
        lemma_parsed_statement_writable(s, at);
        let (first, a) = statement_at(s, at)->Ok_0;
        lemma_statements_writable(s, a);
        let rest = statements_from(s, a)->Ok_0.0;
        let statements = statements_from(s, at)->Ok_0.0;
        assert(statements == seq![first] + rest);
        assert forall|i: int| 0 <= i < statements.len() implies writable(
            #[trigger] statements[i],
        ) by {
            if i > 0 {
                assert(statements[i] == rest[i - 1]);
            }
        }
    }
}

proof fn lemma_more_names_end(s: Seq<char>, at: int)
    requires
        0 <= at <= s.len(),
        more_names(s, at) is Ok,
    ensures
        at <= more_names(s, at)->Ok_0.1 <= s.len(),
    decreases s.len() - at,
{
    let token = lexeme_at(s, at);
    lemma_lexeme_bounds(s, at);
    if token.kind == TokenKind::Comma {
        lemma_lexeme_bounds(s, token.end);
        lemma_more_names_end(s, name_at(s, token.end)->Ok_0.1);
    }
}

proof fn lemma_statements_end(s: Seq<char>, at: int)
    requires
        0 <= at <= s.len(),
        statements_from(s, at) is Ok,
    ensures
        at <= statements_from(s, at)->Ok_0.1 <= s.len(),
    decreases s.len() - at,
{
    if begins_statement(lexeme_at(s, at).kind) {
        lemma_statement_advances(s, at);
        lemma_statements_end(s, statement_at(s, at)->Ok_0.1);
    }
}

/// Every program that the grammar reads from a text is one that text can
/// denote.
pub proof fn lemma_parsed_program_writable(s: Seq<char>)
    requires
        parse_program(s) is Ok,
    ensures
        writable_program(parse_program(s)->Ok_0),
{
    let program = parse_program(s)->Ok_0;
    let (names, a) = inputs_at(s)->Ok_0;
    let first = lexeme_at(s, 0);
    lemma_lexeme_bounds(s, 0);
    if first.kind == TokenKind::In {
        let open = lexeme_at(s, first.end);
        lemma_lexeme_bounds(s, first.end);
        let inner = lexeme_at(s, open.end);
        lemma_lexeme_bounds(s, open.end);
        if inner.kind != TokenKind::RightParen {
            lemma_name_is_register_name(s, open.end);
            let (name, after) = name_at(s, open.end)->Ok_0;
            lemma_more_names_writable(s, after);
            let rest = more_names(s, after)->Ok_0.0;
            assert(names == seq![name] + rest);
            assert forall|i: int| 0 <= i < names.len() implies is_register_name(
                #[trigger] names[i],
            ) by {
                if i > 0 {
                    assert(names[i] == rest[i - 1]);
                }
            }
            lemma_more_names_end(s, after);
        }
        let b = names_at(s, open.end)->Ok_0.1;
        lemma_lexeme_bounds(s, b);
    }
    lemma_statements_writable(s, a);
    lemma_statements_end(s, a);
    let end = statements_from(s, a)->Ok_0.1;
    let keyword = lexeme_at(s, end);
    lemma_lexeme_bounds(s, end);
    let open = lexeme_at(s, keyword.end);
    lemma_lexeme_bounds(s, keyword.end);
    lemma_name_is_register_name(s, open.end);
}

/// Parsing a text, writing the program out in canonical form and parsing
/// that again yields the same program.
pub proof fn lemma_parse_round_trip(s: Seq<char>)
    requires
        parse_program(s) is Ok,
    ensures
        parse_program(program_text(parse_program(s)->Ok_0)) == parse_program(s),
{
    lemma_parsed_program_writable(s);
    lemma_program_round_trip(parse_program(s)->Ok_0);
}

} // verus!

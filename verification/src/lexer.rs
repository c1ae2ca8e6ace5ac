//! The tokens of program text, and where they stand.
//!
//! White space separates tokens and is otherwise ignored. A word is a
//! letter or underscore followed by letters, digits and underscores, taken
//! as long as it goes; the words `in`, `out`, `if` and `goto` are keywords,
//! every other word is a register name. A number is a run of digits, taken
//! as long as it goes.

use vstd::prelude::*;
use crate::decimal::is_digit;

verus! {

/// The kinds of token.
#[derive(Debug, Clone, Copy, PartialEq, Eq, Structural)]
pub enum TokenKind {
    /// The keyword `in`.
    In,
    /// The keyword `out`.
    Out,
    /// The keyword `if`.
    If,
    /// The keyword `goto`.
    Goto,
    /// A register name.
    Name,
    /// A run of digits.
    Number,
    /// `(`
    LeftParen,
    /// `)`
    RightParen,
    /// `,`
    Comma,
    /// `;`
    Semicolon,
    /// `++`
    PlusPlus,
    /// `--`
    MinusMinus,
    /// `=`
    Assign,
    /// `==`
    EqualsEquals,
    /// `!=`
    NotEquals,
    /// The end of the text.
    End,
    /// A character that begins no token.
    Unknown,
}

/// The classes of character that make up runs.
#[derive(Debug, Clone, Copy, PartialEq, Eq, Structural)]
pub enum CharClass {
    /// Space, tab, line feed and carriage return.
    Space,
    /// Letters, digits and the underscore.
    Word,
    /// The ten digits.
    Digit,
}

/// Whether `c` is white space.
pub open spec fn is_space(c: char) -> bool {
    c == ' ' || c == '\t' || c == '\n' || c == '\r'
}

/// Whether `c` can begin a word: an ASCII letter or the underscore.
pub open spec fn is_letter(c: char) -> bool {
    ('a' <= c && c <= 'z') || ('A' <= c && c <= 'Z') || c == '_'
}

/// Whether `c` belongs to `class`.
pub open spec fn in_class(class: CharClass, c: char) -> bool {
    match class {
        CharClass::Space => is_space(c),
        CharClass::Word => is_letter(c) || is_digit(c),
        CharClass::Digit => is_digit(c),
    }
}

/// Where the run of characters of `class` that begins at `at` ends: the
/// position of the first character from `at` on that is not of the class,
/// or the end of the text.
pub open spec fn scan(s: Seq<char>, at: int, class: CharClass) -> int
    decreases s.len() - at,
{
    if 0 <= at < s.len() && in_class(class, s[at]) {
        scan(s, at + 1, class)
    } else {
        at
    }
}

/// A token in a text: its kind, the position of its first character and
/// the position behind its last.
pub struct Lexeme {
    pub kind: TokenKind,
    pub start: int,
    pub end: int,
}

/// The kind of the word `word`: one of the keywords, or a name.
pub open spec fn word_kind(word: Seq<char>) -> TokenKind {
    if word == seq!['i', 'n'] {
        TokenKind::In
    } else if word == seq!['o', 'u', 't'] {
        TokenKind::Out
    } else if word == seq!['i', 'f'] {
        TokenKind::If
    } else if word == seq!['g', 'o', 't', 'o'] {
        TokenKind::Goto
    } else {
        TokenKind::Name
    }
}

/// Whether the character `c` stands at position `at` of `s`.
pub open spec fn has_char(s: Seq<char>, at: int, c: char) -> bool {
    0 <= at < s.len() && s[at] == c
}

/// The token that begins at `start`, where a character that is no white
/// space stands.
pub open spec fn lexeme_from(s: Seq<char>, start: int) -> Lexeme {
    let c = s[start];
    if is_letter(c) {
        let end = scan(s, start, CharClass::Word);
        Lexeme { kind: word_kind(s.subrange(start, end)), start, end }
    } else if is_digit(c) {
        Lexeme { kind: TokenKind::Number, start, end: scan(s, start, CharClass::Digit) }
    } else if c == '(' {
        Lexeme { kind: TokenKind::LeftParen, start, end: start + 1 }
    } else if c == ')' {
        Lexeme { kind: TokenKind::RightParen, start, end: start + 1 }
    } else if c == ',' {
        Lexeme { kind: TokenKind::Comma, start, end: start + 1 }
    } else if c == ';' {
        Lexeme { kind: TokenKind::Semicolon, start, end: start + 1 }
    } else if c == '+' && has_char(s, start + 1, '+') {
        Lexeme { kind: TokenKind::PlusPlus, start, end: start + 2 }
    } else if c == '-' && has_char(s, start + 1, '-') {
        Lexeme { kind: TokenKind::MinusMinus, start, end: start + 2 }
    } else if c == '=' && has_char(s, start + 1, '=') {
        Lexeme { kind: TokenKind::EqualsEquals, start, end: start + 2 }
    } else if c == '=' {
        Lexeme { kind: TokenKind::Assign, start, end: start + 1 }
    } else if c == '!' && has_char(s, start + 1, '=') {
        Lexeme { kind: TokenKind::NotEquals, start, end: start + 2 }
    } else {
        Lexeme { kind: TokenKind::Unknown, start, end: start + 1 }
    }
}

/// The first token at or behind position `at`: white space is passed over,
/// and what follows is read as far as it goes. Behind the last token the
/// result is `End`.
pub open spec fn lexeme_at(s: Seq<char>, at: int) -> Lexeme {
    let start = scan(s, at, CharClass::Space);
    if 0 <= start < s.len() {
        lexeme_from(s, start)
    } else {
        Lexeme { kind: TokenKind::End, start, end: start }
    }
}

/// A run begins where the scan begins, ends within the text, holds only
/// characters of its class, and is not followed by one.
pub proof fn lemma_scan(s: Seq<char>, at: int, class: CharClass)
    requires
        0 <= at <= s.len(),
    ensures
        at <= scan(s, at, class) <= s.len(),
        forall|k: int| at <= k < scan(s, at, class) ==> in_class(class, #[trigger] s[k]),
        scan(s, at, class) < s.len() ==> !in_class(class, s[scan(s, at, class)]),
    decreases s.len() - at,
{
    if at < s.len() && in_class(class, s[at]) {
        lemma_scan(s, at + 1, class);
    }
}

/// A stretch of characters of one class that is followed by a character of
/// another, or by the end of the text, is a whole run.
pub proof fn lemma_scan_run(s: Seq<char>, at: int, end: int, class: CharClass)
    requires
        0 <= at <= end <= s.len(),
        forall|k: int| at <= k < end ==> in_class(class, #[trigger] s[k]),
        end < s.len() ==> !in_class(class, s[end]),
    ensures
        scan(s, at, class) == end,
    decreases end - at,
{
    if at < end {
        lemma_scan_run(s, at + 1, end, class);
    }
}

/// A token lies within the text, at or behind the position from which it
/// was looked for, and every token but `End` has at least one character.
pub proof fn lemma_lexeme_bounds(s: Seq<char>, at: int)
    requires
        0 <= at <= s.len(),
    ensures
        at <= lexeme_at(s, at).start <= lexeme_at(s, at).end <= s.len(),
        lexeme_at(s, at).kind != TokenKind::End ==> lexeme_at(s, at).start < lexeme_at(s, at).end,
        lexeme_at(s, at).kind == TokenKind::End ==> lexeme_at(s, at).end == s.len(),
{
    lemma_scan(s, at, CharClass::Space);
    let start = scan(s, at, CharClass::Space);
    if start < s.len() {
        lemma_scan(s, start, CharClass::Word);
        lemma_scan(s, start, CharClass::Digit);
    }
}

/// A token with its positions as machine integers.
#[derive(Debug, Clone, Copy, PartialEq, Eq, Structural)]
pub struct Token {
    pub kind: TokenKind,
    pub start: usize,
    pub end: usize,
}

impl View for Token {
    type V = Lexeme;

    open spec fn view(&self) -> Lexeme {
        Lexeme { kind: self.kind, start: self.start as int, end: self.end as int }
    }
}

fn has_class(class: CharClass, c: char) -> (member: bool)
    ensures
        member == in_class(class, c),
{
    let letter = ('a' <= c && c <= 'z') || ('A' <= c && c <= 'Z') || c == '_';
    let digit = '0' <= c && c <= '9';
    match class {
        CharClass::Space => c == ' ' || c == '\t' || c == '\n' || c == '\r',
        CharClass::Word => letter || digit,
        CharClass::Digit => digit,
    }
}

fn scan_run(chars: &Vec<char>, at: usize, class: CharClass) -> (end: usize)
    requires
        at <= chars.len(),
    ensures
        end == scan(chars@, at as int, class),
        at <= end <= chars.len(),
{
    let mut end = at;
    while end < chars.len() && has_class(class, chars[end])
        invariant
            at <= end <= chars.len(),
            scan(chars@, at as int, class) == scan(chars@, end as int, class),
        decreases chars.len() - end,
    {
        end += 1;
    }
    end
}

fn classify_word(chars: &Vec<char>, start: usize, end: usize) -> (kind: TokenKind)
    requires
        start <= end <= chars.len(),
    ensures
        kind == word_kind(chars@.subrange(start as int, end as int)),
{
    let word = Ghost(chars@.subrange(start as int, end as int));
    let length = end - start;
    if length == 2 && chars[start] == 'i' && chars[start + 1] == 'n' {
        assert(word@ =~= seq!['i', 'n']);
        TokenKind::In
    } else if length == 3 && chars[start] == 'o' && chars[start + 1] == 'u' && chars[start + 2]
        == 't' {
        assert(word@ =~= seq!['o', 'u', 't']);
        TokenKind::Out
    } else if length == 2 && chars[start] == 'i' && chars[start + 1] == 'f' {
        assert(word@ =~= seq!['i', 'f']);
        TokenKind::If
    } else if length == 4 && chars[start] == 'g' && chars[start + 1] == 'o' && chars[start + 2]
        == 't' && chars[start + 3] == 'o' {
        assert(word@ =~= seq!['g', 'o', 't', 'o']);
        TokenKind::Goto
    } else {
        assert(word@ != seq!['i', 'n']) by {
            if word@ == seq!['i', 'n'] {
                assert(seq!['i', 'n'].len() == 2);
                assert(word@[0] == 'i' && word@[1] == 'n');
            }
        }
        assert(word@ != seq!['o', 'u', 't']) by {
            if word@ == seq!['o', 'u', 't'] {
                assert(seq!['o', 'u', 't'].len() == 3);
                assert(word@[0] == 'o' && word@[1] == 'u' && word@[2] == 't');
            }
        }
        assert(word@ != seq!['i', 'f']) by {
            if word@ == seq!['i', 'f'] {
                assert(seq!['i', 'f'].len() == 2);
                assert(word@[0] == 'i' && word@[1] == 'f');
            }
        }
        assert(word@ != seq!['g', 'o', 't', 'o']) by {
            if word@ == seq!['g', 'o', 't', 'o'] {
                assert(seq!['g', 'o', 't', 'o'].len() == 4);
                assert(word@[0] == 'g' && word@[1] == 'o' && word@[2] == 't' && word@[3] == 'o');
            }
        }
        TokenKind::Name
    }
}

fn follows(chars: &Vec<char>, at: usize, c: char) -> (found: bool)
    requires
        at < chars.len(),
    ensures
        found == has_char(chars@, at + 1, c),
{
    at + 1 < chars.len() && chars[at + 1] == c
}

/// Reads the first token at or behind position `at`.
pub fn next_token(chars: &Vec<char>, at: usize) -> (token: Token)
    requires
        at <= chars.len(),
    ensures
        token@ == lexeme_at(chars@, at as int),
        at <= token.start <= token.end <= chars.len(),
        token.kind != TokenKind::End ==> token.start < token.end,
{
    proof {
        lemma_lexeme_bounds(chars@, at as int);
    }
    let start = scan_run(chars, at, CharClass::Space);
    if start >= chars.len() {
        return Token { kind: TokenKind::End, start, end: start };
    }
    let c = chars[start];
    if has_class(CharClass::Word, c) && !has_class(CharClass::Digit, c) {
        let end = scan_run(chars, start, CharClass::Word);
        Token { kind: classify_word(chars, start, end), start, end }
    } else if has_class(CharClass::Digit, c) {
        Token { kind: TokenKind::Number, start, end: scan_run(chars, start, CharClass::Digit) }
    } else if c == '(' {
        Token { kind: TokenKind::LeftParen, start, end: start + 1 }
    } else if c == ')' {
        Token { kind: TokenKind::RightParen, start, end: start + 1 }
    } else if c == ',' {
        Token { kind: TokenKind::Comma, start, end: start + 1 }
    } else if c == ';' {
        Token { kind: TokenKind::Semicolon, start, end: start + 1 }
    } else if c == '+' && follows(chars, start, '+') {
        Token { kind: TokenKind::PlusPlus, start, end: start + 2 }
    } else if c == '-' && follows(chars, start, '-') {
        Token { kind: TokenKind::MinusMinus, start, end: start + 2 }
    } else if c == '=' && follows(chars, start, '=') {
        Token { kind: TokenKind::EqualsEquals, start, end: start + 2 }
    } else if c == '=' {
        Token { kind: TokenKind::Assign, start, end: start + 1 }
    } else if c == '!' && follows(chars, start, '=') {
        Token { kind: TokenKind::NotEquals, start, end: start + 2 }
    } else {
        Token { kind: TokenKind::Unknown, start, end: start + 1 }
    }
}

} // verus!

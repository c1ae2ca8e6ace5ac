use urm::decimal::{push_decimal, push_successor};
use urm::lexer::{next_token, Token, TokenKind};

fn chars(text: &str) -> Vec<char> {
    text.chars().collect()
}

fn tokens(text: &str) -> Vec<(TokenKind, usize, usize)> {
    let chars = chars(text);
    let mut found = Vec::new();
    let mut at = 0;
    loop {
        let token = next_token(&chars, at);
        found.push((token.kind, token.start, token.end));
        if token.kind == TokenKind::End {
            return found;
        }
        at = token.end;
    }
}

#[test]
fn decimal_numerals_are_appended() {
    let mut out = String::from("n=");
    push_decimal(&mut out, 0);
    assert_eq!(out, "n=0");
    push_decimal(&mut out, 7);
    push_decimal(&mut out, 10);
    push_decimal(&mut out, 1234567890);
    assert_eq!(out, "n=07101234567890");
    let mut max = String::new();
    push_decimal(&mut max, usize::MAX);
    assert_eq!(max, usize::MAX.to_string());
}

#[test]
fn successor_numerals_are_appended() {
    let mut out = String::new();
    push_successor(&mut out, 0);
    out.push(' ');
    push_successor(&mut out, 8);
    out.push(' ');
    push_successor(&mut out, 9);
    out.push(' ');
    push_successor(&mut out, 99);
    out.push(' ');
    push_successor(&mut out, 1098);
    out.push(' ');
    push_successor(&mut out, 1099);
    assert_eq!(out, "1 9 10 100 1099 1100");
    let mut max = String::new();
    push_successor(&mut max, usize::MAX);
    assert_eq!(max, (usize::MAX as u128 + 1).to_string());
}

#[test]
fn tokens_are_read_as_far_as_they_go() {
    assert_eq!(
        tokens("if R2==0 goto 15;"),
        vec![
            (TokenKind::If, 0, 2),
            (TokenKind::Name, 3, 5),
            (TokenKind::EqualsEquals, 5, 7),
            (TokenKind::Number, 7, 8),
            (TokenKind::Goto, 9, 13),
            (TokenKind::Number, 14, 16),
            (TokenKind::Semicolon, 16, 17),
            (TokenKind::End, 17, 17),
        ]
    );
    assert_eq!(
        tokens("in(a,b)out"),
        vec![
            (TokenKind::In, 0, 2),
            (TokenKind::LeftParen, 2, 3),
            (TokenKind::Name, 3, 4),
            (TokenKind::Comma, 4, 5),
            (TokenKind::Name, 5, 6),
            (TokenKind::RightParen, 6, 7),
            (TokenKind::Out, 7, 10),
            (TokenKind::End, 10, 10),
        ]
    );
}

#[test]
fn operators_are_told_apart() {
    assert_eq!(
        tokens("++ -- = == != === + - !"),
        vec![
            (TokenKind::PlusPlus, 0, 2),
            (TokenKind::MinusMinus, 3, 5),
            (TokenKind::Assign, 6, 7),
            (TokenKind::EqualsEquals, 8, 10),
            (TokenKind::NotEquals, 11, 13),
            (TokenKind::EqualsEquals, 14, 16),
            (TokenKind::Assign, 16, 17),
            (TokenKind::Unknown, 18, 19),
            (TokenKind::Unknown, 20, 21),
            (TokenKind::Unknown, 22, 23),
            (TokenKind::End, 23, 23),
        ]
    );
}

#[test]
fn words_and_numbers_end_where_their_characters_end() {
    assert_eq!(
        tokens("ifx goto1 12ab _ in_ OUT"),
        vec![
            (TokenKind::Name, 0, 3),
            (TokenKind::Name, 4, 9),
            (TokenKind::Number, 10, 12),
            (TokenKind::Name, 12, 14),
            (TokenKind::Name, 15, 16),
            (TokenKind::Name, 17, 20),
            (TokenKind::Name, 21, 24),
            (TokenKind::End, 24, 24),
        ]
    );
}

#[test]
fn white_space_is_passed_over_and_the_end_is_reported() {
    let text = chars(" \t\r\n x \n");
    assert_eq!(next_token(&text, 0), Token { kind: TokenKind::Name, start: 5, end: 6 });
    assert_eq!(next_token(&text, 5), Token { kind: TokenKind::Name, start: 5, end: 6 });
    assert_eq!(next_token(&text, 6), Token { kind: TokenKind::End, start: 8, end: 8 });
    assert_eq!(next_token(&text, 8), Token { kind: TokenKind::End, start: 8, end: 8 });
    let empty = chars("");
    assert_eq!(next_token(&empty, 0), Token { kind: TokenKind::End, start: 0, end: 0 });
}

#[test]
fn characters_outside_the_language_are_unknown() {
    assert_eq!(
        tokens("\u{e9}#"),
        vec![(TokenKind::Unknown, 0, 1), (TokenKind::Unknown, 1, 2), (TokenKind::End, 2, 2)]
    );
}

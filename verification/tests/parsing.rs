use urm::instructions::{Condition, Program, Statement};
use urm::parser::{parse_urm_code, ParseError, SyntaxErrorKind};

fn name(text: &str) -> String {
    text.to_string()
}

fn syntax(kind: SyntaxErrorKind, offset: usize, line: usize, column: usize) -> ParseError {
    ParseError::Syntax { kind, offset, line, column }
}

#[test]
fn parses_every_kind_of_statement_in_text_order() {
    let text = "in(R1, R2)\nR1++;\nR2--;\nR3 = 0;\nif R1 == 0 goto 7;\n\
                if R2 != 0 goto 1;\ngoto 12;\nout(R3)\n";
    let expected = Program {
        input_registers: vec![name("R1"), name("R2")],
        statements: vec![
            Statement::Increment { register: name("R1") },
            Statement::Decrement { register: name("R2") },
            Statement::ZeroAssignment { register: name("R3") },
            Statement::ConditionalGoto {
                register: name("R1"),
                condition: Condition::Equal,
                target: 7,
            },
            Statement::ConditionalGoto {
                register: name("R2"),
                condition: Condition::NotEqual,
                target: 1,
            },
            Statement::Goto { target: 12 },
        ],
        output_register: name("R3"),
    };
    assert_eq!(parse_urm_code(text), Ok(expected));
}

#[test]
fn white_space_between_tokens_is_insignificant() {
    let dense = parse_urm_code("in(a,b)a++;if b==0goto 3;b=0;out(a)").unwrap();
    let loose = parse_urm_code(
        "  in ( a ,\tb )\r\n a ++ ;\n\n if   b == 0   goto 3 ; b\n=\n0 ;\n out ( a ) \n",
    )
    .unwrap();
    assert_eq!(dense, loose);
    assert_eq!(dense.statements.len(), 3);
}

#[test]
fn input_declaration_is_optional() {
    let p = parse_urm_code("X++; out(X)").unwrap();
    assert!(p.input_registers.is_empty());
    assert_eq!(p.statements, vec![Statement::Increment { register: name("X") }]);
    assert_eq!(p.output_register, "X");
    let q = parse_urm_code("in() out(X)").unwrap();
    assert!(q.input_registers.is_empty());
    assert!(q.statements.is_empty());
}

#[test]
fn declarations_may_end_in_a_semicolon() {
    let with = parse_urm_code("in(R1); R1++; out(R1);").unwrap();
    let without = parse_urm_code("in(R1) R1++; out(R1)").unwrap();
    assert_eq!(with, without);
}

#[test]
fn duplicate_input_names_are_not_checked_by_the_parser() {
    let p = parse_urm_code("in(R1, R1) out(R1)").unwrap();
    assert_eq!(p.input_registers, vec![name("R1"), name("R1")]);
}

#[test]
fn jump_targets_have_no_lower_or_upper_bound_in_the_grammar() {
    let p = parse_urm_code("goto 0; goto 007; if x != 0 goto 18446744073709551615; out(x)");
    let max = usize::MAX;
    if max as u128 == 18446744073709551615u128 {
        assert_eq!(
            p.unwrap().statements,
            vec![
                Statement::Goto { target: 0 },
                Statement::Goto { target: 7 },
                Statement::ConditionalGoto {
                    register: name("x"),
                    condition: Condition::NotEqual,
                    target: max,
                },
            ]
        );
    }
}

#[test]
fn names_may_hold_letters_digits_and_underscores() {
    let p = parse_urm_code("in(_a1, Zz_9) input++; gotoX--; iff = 0; out(output)").unwrap();
    assert_eq!(p.input_registers, vec![name("_a1"), name("Zz_9")]);
    assert_eq!(
        p.statements,
        vec![
            Statement::Increment { register: name("input") },
            Statement::Decrement { register: name("gotoX") },
            Statement::ZeroAssignment { register: name("iff") },
        ]
    );
    assert_eq!(p.output_register, "output");
}

#[test]
fn missing_output_declaration_is_a_semantic_error() {
    assert_eq!(parse_urm_code("in(R1) R1++;"), Err(ParseError::NoOutputRegister));
    assert_eq!(parse_urm_code(""), Err(ParseError::NoOutputRegister));
    assert_eq!(parse_urm_code("  \n\t "), Err(ParseError::NoOutputRegister));
    assert_eq!(ParseError::NoOutputRegister.message(), "No output register found");
}

#[test]
fn unexpected_character_is_located() {
    let result = parse_urm_code("in(R1)\nR1++;\n  R1 # 0;\nout(R1)");
    let expected = syntax(SyntaxErrorKind::UnexpectedCharacter, 18, 2, 5);
    assert_eq!(result, Err(expected));
    assert_eq!(expected.message(), "Parsing error: line 3, column 6: unexpected character");
    assert_eq!(
        parse_urm_code("R1+;out(R1)"),
        Err(syntax(SyntaxErrorKind::UnexpectedCharacter, 2, 0, 2))
    );
    assert_eq!(
        parse_urm_code("if R1 ! 0 goto 1; out(R1)"),
        Err(syntax(SyntaxErrorKind::UnexpectedCharacter, 6, 0, 6))
    );
    assert_eq!(
        parse_urm_code("R1-;out(R1)"),
        Err(syntax(SyntaxErrorKind::UnexpectedCharacter, 2, 0, 2))
    );
}

#[test]
fn unexpected_token_is_located() {
    assert_eq!(
        parse_urm_code("R1++ out(R1)"),
        Err(syntax(SyntaxErrorKind::UnexpectedToken, 5, 0, 5))
    );
    assert_eq!(
        parse_urm_code("in(R1,) out(R1)"),
        Err(syntax(SyntaxErrorKind::UnexpectedToken, 6, 0, 6))
    );
    assert_eq!(
        parse_urm_code("R1 = 1; out(R1)"),
        Err(syntax(SyntaxErrorKind::UnexpectedToken, 5, 0, 5))
    );
    assert_eq!(
        parse_urm_code("R1 = 00; out(R1)"),
        Err(syntax(SyntaxErrorKind::UnexpectedToken, 5, 0, 5))
    );
    assert_eq!(
        parse_urm_code("if R1 == 0 R1++; out(R1)"),
        Err(syntax(SyntaxErrorKind::UnexpectedToken, 11, 0, 11))
    );
    assert_eq!(
        parse_urm_code("goto R1; out(R1)"),
        Err(syntax(SyntaxErrorKind::UnexpectedToken, 5, 0, 5))
    );
    assert_eq!(
        parse_urm_code("R1 == 0; out(R1)"),
        Err(syntax(SyntaxErrorKind::UnexpectedToken, 3, 0, 3))
    );
    assert_eq!(
        syntax(SyntaxErrorKind::UnexpectedToken, 5, 0, 5).message(),
        "Parsing error: line 1, column 6: unexpected token"
    );
}

#[test]
fn keywords_are_no_register_names() {
    assert_eq!(
        parse_urm_code("goto++; out(R1)"),
        Err(syntax(SyntaxErrorKind::UnexpectedToken, 4, 0, 4))
    );
    assert_eq!(
        parse_urm_code("in(if) out(R1)"),
        Err(syntax(SyntaxErrorKind::UnexpectedToken, 3, 0, 3))
    );
    assert_eq!(
        parse_urm_code("R1++; out(out)"),
        Err(syntax(SyntaxErrorKind::UnexpectedToken, 10, 0, 10))
    );
    assert_eq!(
        parse_urm_code("R1++; in(R1) out(R1)"),
        Err(syntax(SyntaxErrorKind::UnexpectedToken, 6, 0, 6))
    );
}

#[test]
fn only_one_output_declaration_is_read() {
    assert_eq!(
        parse_urm_code("out(R1) out(R2)"),
        Err(syntax(SyntaxErrorKind::UnexpectedToken, 8, 0, 8))
    );
    assert_eq!(
        parse_urm_code("out(R1)\nR1++;"),
        Err(syntax(SyntaxErrorKind::UnexpectedToken, 8, 1, 0))
    );
}

#[test]
fn unexpected_end_is_located() {
    let result = parse_urm_code("in(R1)\nR1++");
    let expected = syntax(SyntaxErrorKind::UnexpectedEnd, 11, 1, 4);
    assert_eq!(result, Err(expected));
    assert_eq!(expected.message(), "Parsing error: line 2, column 5: unexpected end of input");
    assert_eq!(
        parse_urm_code("in(R1"),
        Err(syntax(SyntaxErrorKind::UnexpectedEnd, 5, 0, 5))
    );
    assert_eq!(
        parse_urm_code("out(R1"),
        Err(syntax(SyntaxErrorKind::UnexpectedEnd, 6, 0, 6))
    );
    assert_eq!(
        parse_urm_code("goto 3 \n "),
        Err(syntax(SyntaxErrorKind::UnexpectedEnd, 9, 1, 1))
    );
}

#[test]
fn number_too_large_is_located() {
    let result = parse_urm_code("R1++;\ngoto 999999999999999999999999999999999999999999; out(R1)");
    let expected = syntax(SyntaxErrorKind::NumberTooLarge, 11, 1, 5);
    assert_eq!(result, Err(expected));
    assert_eq!(expected.message(), "Parsing error: line 2, column 6: number too large");
    if usize::MAX as u128 == 18446744073709551615u128 {
        assert_eq!(
            parse_urm_code("goto 18446744073709551616; out(R1)"),
            Err(syntax(SyntaxErrorKind::NumberTooLarge, 5, 0, 5))
        );
    }
}

#[test]
fn positions_count_characters_not_bytes() {
    assert_eq!(
        parse_urm_code("R1++;\n\u{e9}\u{e9} R1++; out(R1)"),
        Err(syntax(SyntaxErrorKind::UnexpectedCharacter, 6, 1, 0))
    );
    assert_eq!(
        parse_urm_code("R1++; \u{4e16}"),
        Err(syntax(SyntaxErrorKind::UnexpectedCharacter, 6, 0, 6))
    );
}

#[test]
fn statements_render_in_canonical_form() {
    let inc = Statement::Increment { register: name("R1") };
    assert_eq!(inc.to_string(3), "3: R1++;");
    let jump = Statement::ConditionalGoto {
        register: name("R2"),
        condition: Condition::Equal,
        target: 5,
    };
    assert_eq!(jump.to_string(2), "2: if R2 == 0 goto 5;");
    let other = Statement::ConditionalGoto {
        register: name("x"),
        condition: Condition::NotEqual,
        target: 120,
    };
    assert_eq!(other.to_string(10), "10: if x != 0 goto 120;");
    assert_eq!(Statement::Decrement { register: name("R7") }.to_string(1), "1: R7--;");
    assert_eq!(Statement::ZeroAssignment { register: name("R7") }.to_string(99), "99: R7 = 0;");
    assert_eq!(Statement::Goto { target: 1 }.to_string(4), "4: goto 1;");
    assert_eq!(Statement::Goto { target: 0 }.to_string(0), "0: goto 0;");
    assert_eq!(
        Statement::Goto { target: usize::MAX }.to_string(usize::MAX),
        format!("{}: goto {};", usize::MAX, usize::MAX)
    );
}

#[test]
fn rendered_statements_parse_back_to_themselves() {
    let text = "in(R1, R2) R1++; R2--; R3 = 0; if R1 == 0 goto 7; if R2 != 0 goto 1; \
                goto 12; goto 0; long_name_1++; out(R3)";
    let parsed = parse_urm_code(text).unwrap();
    assert_eq!(parsed.statements.len(), 8);
    let mut body = String::new();
    for (i, statement) in parsed.statements.iter().enumerate() {
        let line = statement.to_string(i + 1);
        let label = format!("{}: ", i + 1);
        assert!(line.starts_with(&label));
        let single = parse_urm_code(&format!("{} out(X)", &line[label.len()..])).unwrap();
        assert_eq!(single.statements, vec![statement.clone()]);
        body.push_str(&line[label.len()..]);
        body.push('\n');
    }
    let again = parse_urm_code(&format!("in(R1,R2)\n{}out(R3)", body)).unwrap();
    assert_eq!(again, parsed);
}

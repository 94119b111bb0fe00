use minilang::repl::{respond, turn};

fn lines(expected: &[&str]) -> Vec<String> {
    expected.iter().map(|line| line.to_string()).collect()
}

#[test]
fn values_in_source_order() {
    assert_eq!(respond("1 + 2; 10 / 3; !false".to_string()), lines(&["3", "3", "true"]));
}

#[test]
fn diagnostics_stand_where_their_statements_stood() {
    assert_eq!(
        respond("let x = 5; 1 + 2; let y = ; 7 / 0; 3".to_string()),
        lines(&[
            "unsupported statement",
            "3",
            "statement 2: expected an expression, found SEMICOLON `;`",
            "division by zero",
            "3",
        ])
    );
}

#[test]
fn a_malformed_first_statement() {
    assert_eq!(
        respond("let = 1; 2".to_string()),
        lines(&["statement 0: expected an identifier, found ASSIGN `=`", "2"])
    );
}

#[test]
fn a_malformed_last_statement() {
    assert_eq!(
        respond("2; (3".to_string()),
        lines(&["2", "statement 1: expected `)`, found the end of the input"])
    );
}

#[test]
fn failures_of_evaluation() {
    assert_eq!(
        respond("x; 1 < 2; -true; 9223372036854775807 + 1; return 1".to_string()),
        lines(&[
            "unsupported expression",
            "unknown operator",
            "operand of the wrong type",
            "integer overflow",
            "unsupported statement",
        ])
    );
}

#[test]
fn nothing_to_answer() {
    assert!(respond(String::new()).is_empty());
    assert!(respond(" \n".to_string()).is_empty());
}

#[test]
fn end_of_input_ends_the_loop() {
    let next = turn(None, false);
    assert!(next.done);
    assert!(next.lines.is_empty());
    assert!(turn(None, true).done);
}

#[test]
fn blank_lines_are_passed_over() {
    for line in ["\n", "  \t \r\n", "\u{a0}\u{3000}\u{2003}\n"] {
        for is_file in [false, true] {
            let next = turn(Some(line.to_string()), is_file);
            assert!(!next.done, "line {:?}", line);
            assert!(next.lines.is_empty(), "line {:?}", line);
        }
    }
}

#[test]
fn a_session_goes_on_and_a_file_ends_after_one_unit() {
    let next = turn(Some("1 + 1\n".to_string()), false);
    assert!(!next.done);
    assert_eq!(next.lines, lines(&["2"]));
    let next = turn(Some("1 + 1\n".to_string()), true);
    assert!(next.done);
    assert_eq!(next.lines, lines(&["2"]));
}

#[test]
fn a_line_with_an_illegal_character_is_answered() {
    let next = turn(Some("\u{feff}".to_string()), true);
    assert!(next.done);
    assert_eq!(
        next.lines,
        lines(&["statement 0: expected an expression, found ILLEGAL `\u{feff}`"])
    );
}

#[test]
fn a_number_answers_itself() {
    for text in ["0", "7", "42", "9223372036854775807"] {
        assert_eq!(respond(text.to_string()), lines(&[text]));
    }
}

#[test]
fn one_malformed_statement_gives_one_line() {
    assert_eq!(
        respond("if x { 1; }".to_string()),
        lines(&["statement 0: expected a truth value, a unary operation or a comparison as condition, found IDENT `x`"])
    );
}

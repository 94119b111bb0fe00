use minilang::decimal::{format_decimal, format_natural, parse_decimal};
use minilang::diagnostic::{Diagnostic, Expected, ParseError};
use minilang::evaluator::EvalError;
use minilang::token::{same_text, Token, TokenType};

#[test]
fn decimal_literals_are_read() {
    assert_eq!(parse_decimal("0"), Some(0));
    assert_eq!(parse_decimal("5"), Some(5));
    assert_eq!(parse_decimal("0042"), Some(42));
    assert_eq!(parse_decimal("9223372036854775807"), Some(i64::MAX));
}

#[test]
fn what_is_no_literal_or_does_not_fit_is_refused() {
    assert_eq!(parse_decimal(""), None);
    assert_eq!(parse_decimal("-1"), None);
    assert_eq!(parse_decimal("+1"), None);
    assert_eq!(parse_decimal("12a"), None);
    assert_eq!(parse_decimal("1 2"), None);
    assert_eq!(parse_decimal("9223372036854775808"), None);
    assert_eq!(parse_decimal("99999999999999999999999999"), None);
}

#[test]
fn numbers_are_written_in_decimal() {
    assert_eq!(format_decimal(0), "0");
    assert_eq!(format_decimal(9), "9");
    assert_eq!(format_decimal(10), "10");
    assert_eq!(format_decimal(-1), "-1");
    assert_eq!(format_decimal(i64::MIN), "-9223372036854775808");
    assert_eq!(format_natural(0), "0");
    assert_eq!(format_natural(u64::MAX), "18446744073709551615");
}

#[test]
fn what_is_written_is_read_back() {
    for n in [0, 1, 9, 10, 99, 100, 12345, i64::MAX] {
        assert_eq!(parse_decimal(&format_decimal(n)), Some(n));
    }
}

#[test]
fn texts_are_compared_character_by_character() {
    assert!(same_text("", ""));
    assert!(same_text("let", "let"));
    assert!(!same_text("let", "le"));
    assert!(!same_text("let", "lot"));
    assert!(same_text("\u{e9}t\u{e9}", "\u{e9}t\u{e9}"));
}

#[test]
fn kinds_have_names() {
    assert_eq!(TokenType::SEMICOLON.name(), "SEMICOLON");
    assert_eq!(TokenType::EOF.name(), "EOF");
    assert_eq!(TokenType::RETURN.name(), "RETURN");
}

#[test]
fn a_token_is_copied_with_its_text() {
    let token = Token { t: TokenType::IDENT, literal: "name".to_string() };
    let copy = token.clone();
    assert_eq!(copy.t, TokenType::IDENT);
    assert_eq!(copy.literal, "name");
}

#[test]
fn messages_of_parse_failures() {
    let error = ParseError {
        expected: Expected::Assign,
        found: Token { t: TokenType::INT, literal: "3".to_string() },
    };
    assert_eq!(error.message(), "expected `=`, found INT `3`");
    let diagnostic = Diagnostic {
        statement: 12,
        error: ParseError {
            expected: Expected::ClosingBrace,
            found: Token { t: TokenType::EOF, literal: "\0".to_string() },
        },
    };
    assert_eq!(diagnostic.message(), "statement 12: expected `}`, found the end of the input");
    assert_eq!(Expected::Condition.describe(), "a truth value, a unary operation or a comparison as condition");
}

#[test]
fn messages_of_evaluation_failures() {
    assert_eq!(EvalError::UnsupportedStatement.message(), "unsupported statement");
    assert_eq!(EvalError::UnsupportedExpression.message(), "unsupported expression");
    assert_eq!(EvalError::UnknownOperator.message(), "unknown operator");
    assert_eq!(EvalError::TypeMismatch.message(), "operand of the wrong type");
    assert_eq!(EvalError::DivisionByZero.message(), "division by zero");
    assert_eq!(EvalError::Overflow.message(), "integer overflow");
}

use minilang::ast::{Expression, ExpressionStatement, LetStatement, ReturnStatement, Statement};
use minilang::evaluator::{eval, EvalError};
use minilang::lexer::Lexer;
use minilang::object::{Object, ObjectType};
use minilang::parser::Parser;

fn num(value: i64) -> Expression {
    Expression::INT(value)
}

fn infix(left: Expression, operator: &str, right: Expression) -> Expression {
    Expression::INFEX {
        left: Box::new(left),
        operator: operator.to_string(),
        right: Box::new(right),
    }
}

fn prefix(operator: &str, right: Expression) -> Expression {
    Expression::PREFIX { operator: operator.to_string(), right: Box::new(right) }
}

fn run(expression: Expression) -> Result<ObjectType, EvalError> {
    eval(Statement::Expression(ExpressionStatement { expression }))
}

fn run_source(input: &str) -> Vec<Result<ObjectType, EvalError>> {
    let mut parser = Parser::new(Lexer::new(input.to_string()));
    let program = parser.parse_program().unwrap();
    assert!(parser.diagnostics().is_empty());
    program.statements.into_iter().map(eval).collect()
}

#[test]
fn sum_of_two_integers() {
    assert_eq!(run(infix(num(2), "+", num(3))), Ok(ObjectType::Number(5)));
}

#[test]
fn sum_of_integer_and_boolean_is_a_type_error() {
    assert_eq!(
        run(infix(num(2), "+", Expression::BOOLEAN(true))),
        Err(EvalError::TypeMismatch)
    );
}

#[test]
fn literals_are_their_own_value() {
    assert_eq!(run(num(-7)), Ok(ObjectType::Number(-7)));
    assert_eq!(run(Expression::BOOLEAN(false)), Ok(ObjectType::Boolean(false)));
}

#[test]
fn the_four_operations() {
    assert_eq!(run(infix(num(7), "-", num(9))), Ok(ObjectType::Number(-2)));
    assert_eq!(run(infix(num(6), "*", num(-7))), Ok(ObjectType::Number(-42)));
    assert_eq!(run(infix(num(7), "/", num(2))), Ok(ObjectType::Number(3)));
}

#[test]
fn division_truncates_toward_zero() {
    assert_eq!(run(infix(num(-7), "/", num(2))), Ok(ObjectType::Number(-3)));
    assert_eq!(run(infix(num(7), "/", num(-2))), Ok(ObjectType::Number(-3)));
    assert_eq!(run(infix(num(-7), "/", num(-2))), Ok(ObjectType::Number(3)));
}

#[test]
fn division_by_zero_is_an_error() {
    assert_eq!(run(infix(num(1), "/", num(0))), Err(EvalError::DivisionByZero));
}

#[test]
fn overflow_is_an_error() {
    assert_eq!(run(infix(num(i64::MAX), "+", num(1))), Err(EvalError::Overflow));
    assert_eq!(run(infix(num(i64::MIN), "-", num(1))), Err(EvalError::Overflow));
    assert_eq!(run(infix(num(i64::MAX), "*", num(2))), Err(EvalError::Overflow));
    assert_eq!(run(infix(num(i64::MIN), "/", num(-1))), Err(EvalError::Overflow));
    assert_eq!(run(prefix("-", num(i64::MIN))), Err(EvalError::Overflow));
}

#[test]
fn prefix_operators() {
    assert_eq!(run(prefix("-", num(5))), Ok(ObjectType::Number(-5)));
    assert_eq!(run(prefix("!", Expression::BOOLEAN(true))), Ok(ObjectType::Boolean(false)));
    assert_eq!(run(prefix("-", Expression::BOOLEAN(true))), Err(EvalError::TypeMismatch));
    assert_eq!(run(prefix("!", num(1))), Err(EvalError::TypeMismatch));
    assert_eq!(run(prefix("~", num(1))), Err(EvalError::UnknownOperator));
}

#[test]
fn comparison_is_not_evaluated() {
    assert_eq!(run(infix(num(1), "<", num(2))), Err(EvalError::UnknownOperator));
    assert_eq!(run(infix(num(1), "==", num(1))), Err(EvalError::UnknownOperator));
}

#[test]
fn the_first_failure_is_the_result() {
    let bad_left = infix(num(1), "/", num(0));
    let bad_right = prefix("-", Expression::BOOLEAN(true));
    assert_eq!(run(infix(bad_left, "?", bad_right)), Err(EvalError::DivisionByZero));
    assert_eq!(
        run(infix(num(1), "?", prefix("-", Expression::BOOLEAN(true)))),
        Err(EvalError::TypeMismatch)
    );
}

#[test]
fn unsupported_constructs() {
    assert_eq!(run(Expression::IDENT("x".to_string())), Err(EvalError::UnsupportedExpression));
    assert_eq!(
        run(Expression::IF {
            condition: Box::new(Expression::BOOLEAN(true)),
            consequence: vec![],
            alternative: None
        }),
        Err(EvalError::UnsupportedExpression)
    );
    assert_eq!(
        eval(Statement::Let(LetStatement { name: "x".to_string(), value: num(1) })),
        Err(EvalError::UnsupportedStatement)
    );
    assert_eq!(
        eval(Statement::Return(ReturnStatement { return_value: num(1) })),
        Err(EvalError::UnsupportedStatement)
    );
}

#[test]
fn source_to_value() {
    assert_eq!(
        run_source("1 + 2 * 3; (1 + 2) * 3; -(4 - 10) / 4; !true"),
        vec![
            Ok(ObjectType::Number(7)),
            Ok(ObjectType::Number(9)),
            Ok(ObjectType::Number(1)),
            Ok(ObjectType::Boolean(false)),
        ]
    );
}

#[test]
fn values_are_shown() {
    assert_eq!(ObjectType::Number(0).inspect(), "0");
    assert_eq!(ObjectType::Number(1234567890).inspect(), "1234567890");
    assert_eq!(ObjectType::Number(-42).inspect(), "-42");
    assert_eq!(ObjectType::Number(i64::MAX).inspect(), "9223372036854775807");
    assert_eq!(ObjectType::Number(i64::MIN).inspect(), "-9223372036854775808");
    assert_eq!(ObjectType::String("text".to_string()).inspect(), "text");
    assert_eq!(ObjectType::Boolean(true).inspect(), "true");
    assert_eq!(ObjectType::Boolean(false).inspect(), "false");
    assert_eq!(ObjectType::Null.inspect(), "Null");
    assert_eq!(Object::to_string(&ObjectType::Number(17)), "17");
    assert_eq!(ObjectType::Number(3).get_type(), ObjectType::Number(3));
}

//! The evaluator: walks a statement and computes its value.

use vstd::prelude::*;
use crate::ast::{Expression, ExpressionView, Statement, StatementView};
use crate::object::{ObjectType, ObjectView};
use crate::token::same_text;

verus! {

/// Why a statement has no value.
#[derive(PartialEq, Eq, Structural, Clone, Copy, Debug)]
pub enum EvalError {
    /// The statement is of a kind that is not evaluated: `let` or `return`.
    UnsupportedStatement,
    /// The expression is of a kind that is not evaluated: an identifier, a
    /// conditional, a function literal or a call.
    UnsupportedExpression,
    /// The operator is none of those that are evaluated.
    UnknownOperator,
    /// An operand is not of the type that the operator works on.
    TypeMismatch,
    /// The divisor is zero.
    DivisionByZero,
    /// The result does not fit into 64 bits.
    Overflow,
}

/// The message of an evaluation failure.
pub open spec fn eval_error_text(error: EvalError) -> Seq<char> {
    match error {
        EvalError::UnsupportedStatement => "unsupported statement"@,
        EvalError::UnsupportedExpression => "unsupported expression"@,
        EvalError::UnknownOperator => "unknown operator"@,
        EvalError::TypeMismatch => "operand of the wrong type"@,
        EvalError::DivisionByZero => "division by zero"@,
        EvalError::Overflow => "integer overflow"@,
    }
}

impl EvalError {
    /// The message of the failure.
    pub fn message(self) -> (text: &'static str)
        ensures
            text@ == eval_error_text(self),
    {
        match self {
            EvalError::UnsupportedStatement => "unsupported statement",
            EvalError::UnsupportedExpression => "unsupported expression",
            EvalError::UnknownOperator => "unknown operator",
            EvalError::TypeMismatch => "operand of the wrong type",
            EvalError::DivisionByZero => "division by zero",
            EvalError::Overflow => "integer overflow",
        }
    }
}

/// The quotient of `a` by `b`, rounded toward zero.
pub open spec fn truncated_quotient(a: int, b: int) -> int
    recommends
        b != 0,
{
    let magnitude = (if a < 0 { -a } else { a }) / (if b < 0 { -b } else { b });
    if (a < 0) != (b < 0) {
        -magnitude
    } else {
        magnitude
    }
}

/// An integer result: the number if it fits into 64 bits.
pub open spec fn checked_number(n: int) -> Result<ObjectView, EvalError> {
    if i64::MIN <= n <= i64::MAX {
        Ok(ObjectView::Number(n as i64))
    } else {
        Err(EvalError::Overflow)
    }
}

/// The value of a unary operation on a value: `-` negates an integer, `!` a
/// truth value.
pub open spec fn eval_prefix_spec(operator: Seq<char>, operand: ObjectView) -> Result<
    ObjectView,
    EvalError,
> {
    if operator == "-"@ {
        match operand {
            ObjectView::Number(n) => checked_number(-n),
            _ => Err(EvalError::TypeMismatch),
        }
    } else if operator == "!"@ {
        match operand {
            ObjectView::Boolean(b) => Ok(ObjectView::Boolean(!b)),
            _ => Err(EvalError::TypeMismatch),
        }
    } else {
        Err(EvalError::UnknownOperator)
    }
}

/// Whether the operator is one of the four arithmetic operators.
pub open spec fn is_arithmetic(operator: Seq<char>) -> bool {
    operator == "+"@ || operator == "-"@ || operator == "*"@ || operator == "/"@
}

/// The value of an arithmetic operation on two integers.
pub open spec fn arithmetic_spec(operator: Seq<char>, l: int, r: int) -> Result<
    ObjectView,
    EvalError,
>
    recommends
        is_arithmetic(operator),
{
    if operator == "+"@ {
        checked_number(l + r)
    } else if operator == "-"@ {
        checked_number(l - r)
    } else if operator == "*"@ {
        checked_number(l * r)
    } else if r == 0 {
        Err(EvalError::DivisionByZero)
    } else {
        checked_number(truncated_quotient(l, r))
    }
}

/// The value of a binary operation on two values: the four arithmetic
/// operators work on two integers.
pub open spec fn eval_infix_spec(operator: Seq<char>, left: ObjectView, right: ObjectView) -> Result<
    ObjectView,
    EvalError,
> {
    if is_arithmetic(operator) {
        match (left, right) {
            (ObjectView::Number(l), ObjectView::Number(r)) => arithmetic_spec(
                operator,
                l as int,
                r as int,
            ),
            _ => Err(EvalError::TypeMismatch),
        }
    } else {
        Err(EvalError::UnknownOperator)
    }
}

/// The value of an expression. Literals are their own value; the operand of a
/// unary operation, and the left and then the right operand of a binary one,
/// are evaluated before the operation, and the first failure is the result.
pub open spec fn eval_expression_spec(e: ExpressionView) -> Result<ObjectView, EvalError>
    decreases e,
{
    match e {
        ExpressionView::IntegerLiteral(n) => Ok(ObjectView::Number(n)),
        ExpressionView::BooleanLiteral(b) => Ok(ObjectView::Boolean(b)),
        ExpressionView::Prefix { operator, operand } => match eval_expression_spec(*operand) {
            Ok(value) => eval_prefix_spec(operator, value),
            Err(error) => Err(error),
        },
        ExpressionView::Infix { left, operator, right } => match eval_expression_spec(*left) {
            Ok(l) => match eval_expression_spec(*right) {
                Ok(r) => eval_infix_spec(operator, l, r),
                Err(error) => Err(error),
            },
            Err(error) => Err(error),
        },
        _ => Err(EvalError::UnsupportedExpression),
    }
}

/// The value of a statement: that of its expression, for an expression
/// statement.
pub open spec fn eval_spec(s: StatementView) -> Result<ObjectView, EvalError> {
    match s {
        StatementView::ExpressionStatement { value } => eval_expression_spec(value),
        _ => Err(EvalError::UnsupportedStatement),
    }
}

/// The mathematical value of the result of an evaluation.
pub open spec fn outcome_view(outcome: Result<ObjectType, EvalError>) -> Result<
    ObjectView,
    EvalError,
> {
    match outcome {
        Ok(object) => Ok(object@),
        Err(error) => Err(error),
    }
}

/// The number of nodes of an expression that evaluation visits: what the
/// recursion of the evaluator descends on.
spec fn weight(e: Expression) -> nat
    decreases e,
{
    match e {
        Expression::INFEX { left, operator, right } => 1 + weight(*left) + weight(*right),
        Expression::PREFIX { operator, right } => 1 + weight(*right),
        _ => 1,
    }
}

/// Evaluates a statement.
pub fn eval(statement: Statement) -> (outcome: Result<ObjectType, EvalError>)
    ensures
        outcome_view(outcome) == eval_spec(statement@),
{
    match statement {
        Statement::Expression(expr) => eval_expression(expr.expression),
        _ => Err(EvalError::UnsupportedStatement),
    }
}

/// Evaluates an expression.
fn eval_expression(expr: Expression) -> (outcome: Result<ObjectType, EvalError>)
    ensures
        outcome_view(outcome) == eval_expression_spec(expr@),
    decreases weight(expr), 0nat,
{
    match expr {
        Expression::INT(val) => Ok(ObjectType::Number(val)),
        Expression::BOOLEAN(val) => Ok(bool_to_bool_object(val)),
        Expression::INFEX { left, operator, right } => eval_infex_expression(
            *left,
            operator,
            *right,
        ),
        Expression::PREFIX { operator, right } => eval_prefex_expression(operator, *right),
        _ => Err(EvalError::UnsupportedExpression),
    }
}

/// Evaluates a unary operation: its operand first, then the operation.
fn eval_prefex_expression(operator: String, right: Expression) -> (outcome: Result<
    ObjectType,
    EvalError,
>)
    ensures
        outcome_view(outcome) == match eval_expression_spec(right@) {
            Ok(value) => eval_prefix_spec(operator@, value),
            Err(error) => Err(error),
        },
    decreases weight(right), 1nat,
{
    let right = match eval_expression(right) {
        Ok(value) => value,
        Err(error) => {
            return Err(error);
        },
    };
    if same_text(operator.as_str(), "-") {
        match right {
            ObjectType::Number(val) => if val == i64::MIN {
                Err(EvalError::Overflow)
            } else {
                Ok(ObjectType::Number(-val))
            },
            _ => Err(EvalError::TypeMismatch),
        }
    } else if same_text(operator.as_str(), "!") {
        match right {
            ObjectType::Boolean(val) => Ok(ObjectType::Boolean(!val)),
            _ => Err(EvalError::TypeMismatch),
        }
    } else {
        Err(EvalError::UnknownOperator)
    }
}

/// The arithmetic result, if there is one, as a value.
fn number_or_overflow(result: Option<i64>) -> (outcome: Result<ObjectType, EvalError>)
    ensures
        outcome_view(outcome) == match result {
            Some(n) => Ok::<ObjectView, EvalError>(ObjectView::Number(n)),
            None => Err(EvalError::Overflow),
        },
{
    match result {
        Some(n) => Ok(ObjectType::Number(n)),
        None => Err(EvalError::Overflow),
    }
}

/// Evaluates a binary operation: its left operand, its right operand, then
/// the operation.
fn eval_infex_expression(left: Expression, operator: String, right: Expression) -> (outcome: Result<
    ObjectType,
    EvalError,
>)
    ensures
        outcome_view(outcome) == match eval_expression_spec(left@) {
            Ok(l) => match eval_expression_spec(right@) {
                Ok(r) => eval_infix_spec(operator@, l, r),
                Err(error) => Err(error),
            },
            Err(error) => Err(error),
        },
    decreases weight(left) + weight(right), 1nat,
{
    let left = match eval_expression(left) {
        Ok(value) => value,
        Err(error) => {
            return Err(error);
        },
    };
    let right = match eval_expression(right) {
        Ok(value) => value,
        Err(error) => {
            return Err(error);
        },
    };
    let op = operator.as_str();
    if same_text(op, "+") {
        match (left, right) {
            (ObjectType::Number(l), ObjectType::Number(r)) => number_or_overflow(l.checked_add(r)),
            _ => Err(EvalError::TypeMismatch),
        }
    } else if same_text(op, "-") {
        match (left, right) {
            (ObjectType::Number(l), ObjectType::Number(r)) => number_or_overflow(l.checked_sub(r)),
            _ => Err(EvalError::TypeMismatch),
        }
    } else if same_text(op, "*") {
        match (left, right) {
            (ObjectType::Number(l), ObjectType::Number(r)) => number_or_overflow(l.checked_mul(r)),
            _ => Err(EvalError::TypeMismatch),
        }
    } else if same_text(op, "/") {
        match (left, right) {
            (ObjectType::Number(l), ObjectType::Number(r)) => if r == 0 {
                Err(EvalError::DivisionByZero)
            } else {
                number_or_overflow(l.checked_div(r))
            },
            _ => Err(EvalError::TypeMismatch),
        }
    } else {
        Err(EvalError::UnknownOperator)
    }
}

/// The value of a truth value.
fn bool_to_bool_object(val: bool) -> (object: ObjectType)
    ensures
        object@ == ObjectView::Boolean(val),
{
    if val {
        ObjectType::Boolean(true)
    } else {
        ObjectType::Boolean(false)
    }
}

} // verus!

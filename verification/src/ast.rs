//! The abstract syntax tree: statements and expressions, and their
//! mathematical values.

use vstd::prelude::*;

verus! {

/// A program: its statements in source order.
#[derive(Debug)]
pub struct Program {
    pub statements: Vec<Statement>,
}

#[derive(Debug, PartialEq)]
pub enum Statement {
    Let(LetStatement),
    Return(ReturnStatement),
    Expression(ExpressionStatement),
}

/// `let name = value`.
#[derive(Debug, PartialEq)]
pub struct LetStatement {
    pub name: String,
    pub value: Expression,
}

/// `return value`.
#[derive(Debug, PartialEq)]
pub struct ReturnStatement {
    pub return_value: Expression,
}

/// An expression that stands as a statement.
#[derive(Debug, PartialEq)]
pub enum Expression {
    /// An integer literal.
    INT(i64),
    /// A binary operation; the operator is the text of its token.
    INFEX { left: Box<Expression>, operator: String, right: Box<Expression> },
    /// An identifier.
    IDENT(String),
    /// `true` or `false`.
    BOOLEAN(bool),
    /// A unary operation; the operator is the text of its token.
    PREFIX { operator: String, right: Box<Expression> },
    /// `if condition { consequence } else { alternative }`.
    IF { condition: Box<Expression>, consequence: Vec<Statement>, alternative: Option<Vec<Statement>> },
    /// A function literal.
    FUNCTION { parameters: Vec<String>, body: Box<Statement> },
    /// A call.
    CALL { function: Box<Expression>, arguments: Vec<Expression> },
}

#[derive(Debug, PartialEq)]
pub struct ExpressionStatement {
    pub expression: Expression,
}

/// The mathematical value of a statement.
pub enum StatementView {
    Let { name: Seq<char>, value: ExpressionView },
    Return { value: ExpressionView },
    ExpressionStatement { value: ExpressionView },
}

/// The mathematical value of an expression.
pub enum ExpressionView {
    IntegerLiteral(i64),
    BooleanLiteral(bool),
    Identifier(Seq<char>),
    Prefix { operator: Seq<char>, operand: Box<ExpressionView> },
    Infix { left: Box<ExpressionView>, operator: Seq<char>, right: Box<ExpressionView> },
    Conditional {
        condition: Box<ExpressionView>,
        consequence: Seq<StatementView>,
        alternative: Option<Seq<StatementView>>,
    },
    FunctionLiteral { parameters: Seq<Seq<char>>, body: Box<StatementView> },
    Call { callee: Box<ExpressionView>, arguments: Seq<ExpressionView> },
}

/// The value of a statement.
pub open spec fn statement_view(s: Statement) -> StatementView
    decreases s,
{
    match s {
        Statement::Let(l) => StatementView::Let { name: l.name@, value: expression_view(l.value) },
        Statement::Return(r) => StatementView::Return { value: expression_view(r.return_value) },
        Statement::Expression(e) => StatementView::ExpressionStatement {
            value: expression_view(e.expression),
        },
    }
}

/// The values of a sequence of statements, in order.
pub open spec fn statements_view(b: Seq<Statement>) -> Seq<StatementView>
    decreases b,
{
    if b.len() == 0 {
        Seq::empty()
    } else {
        statements_view(b.drop_last()).push(statement_view(b.last()))
    }
}

/// The values of a sequence of expressions, in order.
pub open spec fn expressions_view(es: Seq<Expression>) -> Seq<ExpressionView>
    decreases es,
{
    if es.len() == 0 {
        Seq::empty()
    } else {
        expressions_view(es.drop_last()).push(expression_view(es.last()))
    }
}

/// The value of an expression.
pub open spec fn expression_view(e: Expression) -> ExpressionView
    decreases e,
{
    match e {
        Expression::INT(value) => ExpressionView::IntegerLiteral(value),
        Expression::BOOLEAN(value) => ExpressionView::BooleanLiteral(value),
        Expression::IDENT(name) => ExpressionView::Identifier(name@),
        Expression::PREFIX { operator, right } => ExpressionView::Prefix {
            operator: operator@,
            operand: Box::new(expression_view(*right)),
        },
        Expression::INFEX { left, operator, right } => ExpressionView::Infix {
            left: Box::new(expression_view(*left)),
            operator: operator@,
            right: Box::new(expression_view(*right)),
        },
        Expression::IF { condition, consequence, alternative } => ExpressionView::Conditional {
            condition: Box::new(expression_view(*condition)),
            consequence: statements_view(consequence@),
            alternative: match alternative {
                Some(block) => Some(statements_view(block@)),
                None => None,
            },
        },
        Expression::FUNCTION { parameters, body } => ExpressionView::FunctionLiteral {
            parameters: parameters@.map_values(|p: String| p@),
            body: Box::new(statement_view(*body)),
        },
        Expression::CALL { function, arguments } => ExpressionView::Call {
            callee: Box::new(expression_view(*function)),
            arguments: expressions_view(arguments@),
        },
    }
}

impl View for Statement {
    type V = StatementView;

    open spec fn view(&self) -> StatementView {
        statement_view(*self)
    }
}

impl View for Expression {
    type V = ExpressionView;

    open spec fn view(&self) -> ExpressionView {
        expression_view(*self)
    }
}

impl View for Program {
    type V = Seq<StatementView>;

    open spec fn view(&self) -> Seq<StatementView> {
        statements_view(self.statements@)
    }
}

/// The values of the statements are those of the sequence, one for one.
pub proof fn lemma_statements_view(b: Seq<Statement>)
    ensures
        statements_view(b).len() == b.len(),
        forall|i: int| 0 <= i < b.len() ==> statements_view(b)[i] == statement_view(#[trigger] b[i]),
    decreases b.len(),
{
    if b.len() > 0 {
        let front = b.drop_last();
        lemma_statements_view(front);
        assert forall|i: int| 0 <= i < b.len() implies statements_view(b)[i] == statement_view(
            #[trigger] b[i],
        ) by {
            if i < front.len() {
                assert(front[i] == b[i]);
            }
        }
    }
}

/// The values of a sequence of statements with one more at its end.
pub proof fn lemma_statements_view_push(b: Seq<Statement>, s: Statement)
    ensures
        statements_view(b.push(s)) == statements_view(b).push(statement_view(s)),
{
    assert(b.push(s).drop_last() =~= b);
}

} // verus!

//! The grammar, as a function from a sequence of tokens to what the parser
//! makes of it.
//!
//! A position is an index into the tokens of the text; behind the last token
//! stands the end marker. Every function below reads a construct that starts
//! at a position and says what it is, or why it is none, and how many tokens
//! were taken.

use vstd::prelude::*;
use crate::ast::{ExpressionView, StatementView};
use crate::decimal::{decimal_value, is_decimal};
use crate::diagnostic::{DiagnosticView, Expected, ParseErrorView};
use crate::lexer::eof_token;
use crate::token::{TokenType, TokenView};

verus! {

/// How binary operators group.
#[derive(PartialEq, Eq, Structural, Clone, Copy, Debug)]
pub enum Grammar {
    /// All binary operators have the same precedence and group from the left:
    /// `1 + 2 * 3` is `(1 + 2) * 3`.
    EqualPrecedence,
    /// Operators group by precedence, and from the left among equals:
    /// `1 + 2 * 3` is `1 + (2 * 3)`.
    PrecedenceClimbing,
}

/// What reading a construct gives: the construct or the failure, and the
/// number of tokens taken before the parser stopped.
pub struct Parsed<T> {
    pub value: Result<T, ParseErrorView>,
    pub consumed: nat,
}

/// What reading a program gives: the well-formed statements in source order,
/// and one diagnostic for each malformed one.
pub struct ProgramOutcome {
    pub statements: Seq<StatementView>,
    pub diagnostics: Seq<DiagnosticView>,
}

/// The token at a position; the end marker outside the tokens.
pub open spec fn token_at(ts: Seq<TokenView>, i: int) -> TokenView {
    if 0 <= i < ts.len() {
        ts[i]
    } else {
        eof_token()
    }
}

/// The kind of the token at a position.
pub open spec fn kind_at(ts: Seq<TokenView>, i: int) -> TokenType {
    token_at(ts, i).t
}

/// The number of tokens from a position to the end.
pub open spec fn remaining(ts: Seq<TokenView>, i: int) -> nat {
    if i < ts.len() {
        (ts.len() - i) as nat
    } else {
        0
    }
}

/// A construct that was read, with the number of tokens it took.
pub open spec fn accept<T>(value: T, consumed: nat) -> Parsed<T> {
    Parsed { value: Ok(value), consumed }
}

/// A failure: what was expected, the token found, and the number of tokens
/// taken before.
pub open spec fn reject<T>(expected: Expected, found: TokenView, consumed: nat) -> Parsed<T> {
    Parsed { value: Err(ParseErrorView { expected, found }), consumed }
}

/// The binary operators.
pub open spec fn is_operator(t: TokenType) -> bool {
    t == TokenType::PLUS || t == TokenType::STAR || t == TokenType::MINUS || t == TokenType::SLASH
        || t == TokenType::GT || t == TokenType::LT || t == TokenType::EQ || t == TokenType::NEQ
}

/// The precedence of a token as a binary operator: zero for a token that is
/// none, and the higher the tighter the operator binds.
pub open spec fn precedence(g: Grammar, t: TokenType) -> nat {
    match g {
        Grammar::EqualPrecedence => if is_operator(t) {
            1
        } else {
            0
        },
        Grammar::PrecedenceClimbing => if t == TokenType::EQ || t == TokenType::NEQ {
            1
        } else if t == TokenType::LT || t == TokenType::GT {
            2
        } else if t == TokenType::PLUS || t == TokenType::MINUS {
            3
        } else if t == TokenType::STAR || t == TokenType::SLASH {
            4
        } else {
            0
        },
    }
}

/// The number that an integer literal denotes, if it fits into 64 bits.
pub open spec fn literal_value(literal: Seq<char>) -> Option<i64> {
    if is_decimal(literal) && decimal_value(literal) <= i64::MAX {
        Some(decimal_value(literal) as i64)
    } else {
        None
    }
}

/// What may stand as the condition of an `if`: a truth value, a unary
/// operation, or a comparison.
pub open spec fn is_condition(e: ExpressionView) -> bool {
    match e {
        ExpressionView::BooleanLiteral(_) => true,
        ExpressionView::Prefix { .. } => true,
        ExpressionView::Infix { operator, .. } => operator == "=="@ || operator == "!="@ || operator
            == ">"@ || operator == "<"@,
        _ => false,
    }
}

/// An integer literal at `i`: its number, if that fits into 64 bits.
pub open spec fn integer_literal_at(ts: Seq<TokenView>, i: int) -> Parsed<ExpressionView> {
    let token = token_at(ts, i);
    if token.t != TokenType::INT {
        reject(Expected::Expression, token, 0)
    } else {
        match literal_value(token.literal) {
            Some(value) => accept(ExpressionView::IntegerLiteral(value), 1),
            None => reject(Expected::IntegerInRange, token, 0),
        }
    }
}

/// A truth value at `i`: `true` or `false`.
pub open spec fn boolean_literal_at(ts: Seq<TokenView>, i: int) -> Parsed<ExpressionView> {
    let token = token_at(ts, i);
    if token.t == TokenType::TRUE {
        accept(ExpressionView::BooleanLiteral(true), 1)
    } else if token.t == TokenType::FALSE {
        accept(ExpressionView::BooleanLiteral(false), 1)
    } else {
        reject(Expected::Expression, token, 0)
    }
}

/// An identifier at `i`. One that is followed by `(` would be a call, which
/// is not accepted: the failure names the parenthesis.
pub open spec fn identifier_at(ts: Seq<TokenView>, i: int) -> Parsed<ExpressionView> {
    let token = token_at(ts, i);
    if token.t != TokenType::IDENT {
        reject(Expected::Expression, token, 0)
    } else if kind_at(ts, i + 1) == TokenType::LPAREN {
        reject(Expected::SupportedConstruct, token_at(ts, i + 1), 1)
    } else {
        accept(ExpressionView::Identifier(token.literal), 1)
    }
}

/// A unary operation at `i`: `!` or `-`, then a primary as its operand.
pub open spec fn prefix_at(g: Grammar, ts: Seq<TokenView>, i: int) -> Parsed<ExpressionView>
    decreases remaining(ts, i), 0nat,
{
    let token = token_at(ts, i);
    if token.t == TokenType::BANG || token.t == TokenType::MINUS {
        let operand = primary_at(g, ts, i + 1);
        match operand.value {
            Ok(e) => accept(
                ExpressionView::Prefix { operator: token.literal, operand: Box::new(e) },
                1 + operand.consumed,
            ),
            Err(error) => Parsed { value: Err(error), consumed: 1 + operand.consumed },
        }
    } else {
        reject(Expected::Expression, token, 0)
    }
}

/// A group at `i`: `(`, an expression, `)`. The group is the expression
/// inside; the parentheses leave no trace.
pub open spec fn grouped_at(g: Grammar, ts: Seq<TokenView>, i: int) -> Parsed<ExpressionView>
    decreases remaining(ts, i), 0nat,
{
    if kind_at(ts, i) == TokenType::LPAREN {
        let inner = expression_at(g, ts, i + 1, 1);
        match inner.value {
            Ok(e) => if kind_at(ts, i + 1 + inner.consumed) == TokenType::RPAREN {
                accept(e, 1 + inner.consumed + 1)
            } else {
                reject(
                    Expected::ClosingParen,
                    token_at(ts, i + 1 + inner.consumed),
                    1 + inner.consumed,
                )
            },
            Err(error) => Parsed { value: Err(error), consumed: 1 + inner.consumed },
        }
    } else {
        reject(Expected::Expression, token_at(ts, i), 0)
    }
}

/// A primary expression at `i`: a literal, an identifier, a group in
/// parentheses, a unary operation, or a conditional. A function literal is
/// not accepted.
pub open spec fn primary_at(g: Grammar, ts: Seq<TokenView>, i: int) -> Parsed<ExpressionView>
    decreases remaining(ts, i), 1nat,
{
    let kind = kind_at(ts, i);
    if kind == TokenType::IF {
        conditional_at(g, ts, i)
    } else if kind == TokenType::INT {
        integer_literal_at(ts, i)
    } else if kind == TokenType::TRUE || kind == TokenType::FALSE {
        boolean_literal_at(ts, i)
    } else if kind == TokenType::BANG || kind == TokenType::MINUS {
        prefix_at(g, ts, i)
    } else if kind == TokenType::LPAREN {
        grouped_at(g, ts, i)
    } else if kind == TokenType::IDENT {
        identifier_at(ts, i)
    } else if kind == TokenType::FUNCTION {
        reject(Expected::SupportedConstruct, token_at(ts, i), 0)
    } else {
        reject(Expected::Expression, token_at(ts, i), 0)
    }
}

/// One binary operation at `i`, where an operator stands: the operator, then
/// its right operand, which holds only operators that bind tighter. The
/// left operand has been read before.
pub open spec fn infix_at(g: Grammar, ts: Seq<TokenView>, i: int, left: ExpressionView) -> Parsed<
    ExpressionView,
>
    decreases remaining(ts, i), 1nat,
{
    if is_operator(kind_at(ts, i)) {
        let right = expression_at(g, ts, i + 1, precedence(g, kind_at(ts, i)) + 1);
        match right.value {
            Ok(r) => accept(
                ExpressionView::Infix {
                    left: Box::new(left),
                    operator: token_at(ts, i).literal,
                    right: Box::new(r),
                },
                1 + right.consumed,
            ),
            Err(error) => Parsed { value: Err(error), consumed: 1 + right.consumed },
        }
    } else {
        reject(Expected::Expression, token_at(ts, i), 0)
    }
}

/// Whether a chain of binary operations goes on at `i`: an operator stands
/// there that binds at least as tightly as `min`.
pub open spec fn continues_at(g: Grammar, ts: Seq<TokenView>, i: int, min: nat) -> bool {
    precedence(g, kind_at(ts, i)) > 0 && precedence(g, kind_at(ts, i)) >= min
}

/// The binary operations that follow the operand `left` at `i`, folded from
/// the left, as long as their operators bind at least as tightly as `min`:
/// each takes what has been built so far as its left operand.
pub open spec fn climb_at(
    g: Grammar,
    ts: Seq<TokenView>,
    i: int,
    min: nat,
    left: ExpressionView,
) -> Parsed<ExpressionView>
    decreases remaining(ts, i), 2nat,
{
    if continues_at(g, ts, i, min) {
        let right = expression_at(g, ts, i + 1, precedence(g, kind_at(ts, i)) + 1);
        match right.value {
            Ok(r) => {
                let folded = ExpressionView::Infix {
                    left: Box::new(left),
                    operator: token_at(ts, i).literal,
                    right: Box::new(r),
                };
                let rest = climb_at(g, ts, i + 1 + right.consumed, min, folded);
                Parsed { value: rest.value, consumed: 1 + right.consumed + rest.consumed }
            },
            Err(error) => Parsed { value: Err(error), consumed: 1 + right.consumed },
        }
    } else {
        accept(left, 0)
    }
}

/// An expression at `i` whose binary operators all bind at least as tightly
/// as `min`: a primary, then the operations that follow it.
pub open spec fn expression_at(g: Grammar, ts: Seq<TokenView>, i: int, min: nat) -> Parsed<
    ExpressionView,
>
    decreases remaining(ts, i), 3nat,
{
    let first = primary_at(g, ts, i);
    match first.value {
        Ok(left) => {
            let rest = climb_at(g, ts, i + first.consumed, min, left);
            Parsed { value: rest.value, consumed: first.consumed + rest.consumed }
        },
        Err(_) => first,
    }
}

/// The condition of an `if` at `i`: an expression of one of the shapes that
/// `is_condition` admits. A failure on the shape names the first token of the
/// expression.
pub open spec fn condition_at(g: Grammar, ts: Seq<TokenView>, i: int) -> Parsed<ExpressionView>
    decreases remaining(ts, i), 4nat,
{
    let e = expression_at(g, ts, i, 1);
    match e.value {
        Ok(condition) => if is_condition(condition) {
            e
        } else {
            reject(Expected::Condition, token_at(ts, i), e.consumed)
        },
        Err(_) => e,
    }
}

/// A conditional at `i`, where `if` stands: the condition, a block, and
/// after `else` a second block.
pub open spec fn conditional_at(g: Grammar, ts: Seq<TokenView>, i: int) -> Parsed<ExpressionView>
    decreases remaining(ts, i), 0nat,
{
    if kind_at(ts, i) == TokenType::IF {
        let c = condition_at(g, ts, i + 1);
        let open = i + 1 + c.consumed;
        match c.value {
            Err(error) => Parsed { value: Err(error), consumed: 1 + c.consumed },
            Ok(condition) => if kind_at(ts, open) != TokenType::LBRACE {
                reject(Expected::OpeningBrace, token_at(ts, open), 1 + c.consumed)
            } else {
                let first = block_at(g, ts, open + 1);
                let behind = open + 1 + first.consumed;
                match first.value {
                    Err(error) => Parsed {
                        value: Err(error),
                        consumed: 1 + c.consumed + 1 + first.consumed,
                    },
                    Ok(consequence) => if kind_at(ts, behind) != TokenType::ELSE {
                        accept(
                            ExpressionView::Conditional {
                                condition: Box::new(condition),
                                consequence,
                                alternative: None,
                            },
                            1 + c.consumed + 1 + first.consumed,
                        )
                    } else if kind_at(ts, behind + 1) != TokenType::LBRACE {
                        reject(
                            Expected::OpeningBrace,
                            token_at(ts, behind + 1),
                            1 + c.consumed + 1 + first.consumed + 1,
                        )
                    } else {
                        let second = block_at(g, ts, behind + 2);
                        match second.value {
                            Err(error) => Parsed {
                                value: Err(error),
                                consumed: 1 + c.consumed + 1 + first.consumed + 2 + second.consumed,
                            },
                            Ok(alternative) => accept(
                                ExpressionView::Conditional {
                                    condition: Box::new(condition),
                                    consequence,
                                    alternative: Some(alternative),
                                },
                                1 + c.consumed + 1 + first.consumed + 2 + second.consumed,
                            ),
                        }
                    },
                }
            },
        }
    } else {
        reject(Expected::Expression, token_at(ts, i), 0)
    }
}

/// The statements of a block from `i`, behind its `{`, to its `}`, which is
/// taken too. Semicolons between the statements are passed over. A statement
/// takes at least one token (`lemma_statement_consumes`), so the case that
/// one took none never arises.
pub open spec fn block_at(g: Grammar, ts: Seq<TokenView>, i: int) -> Parsed<Seq<StatementView>>
    decreases remaining(ts, i), 7nat,
{
    let kind = kind_at(ts, i);
    if kind == TokenType::RBRACE {
        accept(Seq::empty(), 1)
    } else if kind == TokenType::EOF {
        reject(Expected::ClosingBrace, token_at(ts, i), 0)
    } else if kind == TokenType::SEMICOLON {
        let rest = block_at(g, ts, i + 1);
        Parsed { value: rest.value, consumed: 1 + rest.consumed }
    } else {
        let s = statement_at(g, ts, i);
        match s.value {
            Err(error) => Parsed { value: Err(error), consumed: s.consumed },
            Ok(statement) => if s.consumed > 0 {
                let rest = block_at(g, ts, i + s.consumed);
                match rest.value {
                    Ok(more) => accept(seq![statement] + more, s.consumed + rest.consumed),
                    Err(error) => Parsed { value: Err(error), consumed: s.consumed + rest.consumed },
                }
            } else {
                reject(Expected::ClosingBrace, token_at(ts, i), 0)
            },
        }
    }
}

/// A `let` statement at `i`, where `let` stands: a name, `=`, and an
/// expression.
pub open spec fn let_statement_at(g: Grammar, ts: Seq<TokenView>, i: int) -> Parsed<StatementView>
    decreases remaining(ts, i), 5nat,
{
    if kind_at(ts, i) != TokenType::LET {
        reject(Expected::Expression, token_at(ts, i), 0)
    } else if kind_at(ts, i + 1) != TokenType::IDENT {
        reject(Expected::Identifier, token_at(ts, i + 1), 1)
    } else if kind_at(ts, i + 2) != TokenType::ASSIGN {
        reject(Expected::Assign, token_at(ts, i + 2), 2)
    } else {
        let value = expression_at(g, ts, i + 3, 1);
        match value.value {
            Ok(e) => accept(
                StatementView::Let { name: token_at(ts, i + 1).literal, value: e },
                3 + value.consumed,
            ),
            Err(error) => Parsed { value: Err(error), consumed: 3 + value.consumed },
        }
    }
}

/// A return statement at `i`, where the return keyword stands, followed by
/// an expression.
pub open spec fn return_statement_at(g: Grammar, ts: Seq<TokenView>, i: int) -> Parsed<
    StatementView,
>
    decreases remaining(ts, i), 5nat,
{
    if kind_at(ts, i) == TokenType::RETURN {
        let value = expression_at(g, ts, i + 1, 1);
        match value.value {
            Ok(e) => accept(StatementView::Return { value: e }, 1 + value.consumed),
            Err(error) => Parsed { value: Err(error), consumed: 1 + value.consumed },
        }
    } else {
        reject(Expected::Expression, token_at(ts, i), 0)
    }
}

/// An expression that stands as a statement at `i`.
pub open spec fn expression_statement_at(g: Grammar, ts: Seq<TokenView>, i: int) -> Parsed<
    StatementView,
>
    decreases remaining(ts, i), 5nat,
{
    let value = expression_at(g, ts, i, 1);
    match value.value {
        Ok(e) => accept(StatementView::ExpressionStatement { value: e }, value.consumed),
        Err(error) => Parsed { value: Err(error), consumed: value.consumed },
    }
}

/// A statement at `i`: a `let`, a return, or an expression; a semicolon
/// behind it belongs to it.
pub open spec fn statement_at(g: Grammar, ts: Seq<TokenView>, i: int) -> Parsed<StatementView>
    decreases remaining(ts, i), 6nat,
{
    let kind = kind_at(ts, i);
    let s = if kind == TokenType::LET {
        let_statement_at(g, ts, i)
    } else if kind == TokenType::RETURN {
        return_statement_at(g, ts, i)
    } else {
        expression_statement_at(g, ts, i)
    };
    if s.value is Ok && kind_at(ts, i + s.consumed) == TokenType::SEMICOLON {
        Parsed { value: s.value, consumed: s.consumed + 1 }
    } else {
        s
    }
}

/// How deep inside braces and parentheses the parser stands behind a token,
/// if it stood `depth` deep before it: `{` and `(` open a level, `}` and `)`
/// close one if one is open.
pub open spec fn nesting_behind(kind: TokenType, depth: nat) -> nat {
    if kind == TokenType::LBRACE || kind == TokenType::LPAREN {
        depth + 1
    } else if (kind == TokenType::RBRACE || kind == TokenType::RPAREN) && depth > 0 {
        (depth - 1) as nat
    } else {
        depth
    }
}

/// How deep inside braces and parentheses the parser stands behind the `n`
/// tokens from `i` on: the number of those that these tokens open and do not
/// close.
pub open spec fn nesting(ts: Seq<TokenView>, i: int, n: nat) -> nat
    decreases n,
{
    if n == 0 {
        0
    } else {
        nesting_behind(kind_at(ts, i + n - 1), nesting(ts, i, (n - 1) as nat))
    }
}

/// No more levels are open than tokens were taken.
pub proof fn lemma_nesting_bound(ts: Seq<TokenView>, i: int, n: nat)
    ensures
        nesting(ts, i, n) <= n,
    decreases n,
{
    if n > 0 {
        lemma_nesting_bound(ts, i, (n - 1) as nat);
    }
}

/// The kinds of token that start a statement and cannot carry one on: a
/// keyword, a literal, a name, `!` or `(`.
pub open spec fn starts_statement(kind: TokenType) -> bool {
    kind == TokenType::LET || kind == TokenType::RETURN || kind == TokenType::IF || kind
        == TokenType::FUNCTION || kind == TokenType::INT || kind == TokenType::TRUE || kind
        == TokenType::FALSE || kind == TokenType::IDENT || kind == TokenType::BANG || kind
        == TokenType::LPAREN
}

/// Whether the `}` at `i` ends a statement for a parser that stands `depth`
/// deep inside it: the brace closes the outermost level, and behind it a new
/// statement starts.
pub open spec fn closes_statement(ts: Seq<TokenView>, i: int, depth: nat) -> bool {
    kind_at(ts, i) == TokenType::RBRACE && depth == 1 && starts_statement(kind_at(ts, i + 1))
}

/// The boundary of a statement for a parser that stands at `i`, `depth`
/// levels deep inside the statement: where the parser takes up its work
/// after a malformed statement. It is the first position at or behind `i`
/// where the statement is over: a semicolon at the level of the statement
/// itself, inside none of its braces and parentheses; the start of a new
/// statement behind the `}` that closes its outermost block; or the end
/// marker.
pub open spec fn boundary_at(ts: Seq<TokenView>, i: int, depth: nat) -> int
    decreases remaining(ts, i),
{
    let kind = kind_at(ts, i);
    if kind == TokenType::EOF || (kind == TokenType::SEMICOLON && depth == 0) {
        i
    } else if closes_statement(ts, i, depth) {
        i + 1
    } else {
        boundary_at(ts, i + 1, nesting_behind(kind, depth))
    }
}

/// The boundary never lies before the position.
pub proof fn lemma_boundary_start(ts: Seq<TokenView>, i: int, depth: nat)
    ensures
        i <= boundary_at(ts, i, depth),
    decreases remaining(ts, i),
{
    let kind = kind_at(ts, i);
    if !(kind == TokenType::EOF || (kind == TokenType::SEMICOLON && depth == 0))
        && !closes_statement(ts, i, depth) {
        lemma_boundary_start(ts, i + 1, nesting_behind(kind, depth));
    }
}

/// A primary expression that is read takes at least one token.
pub proof fn lemma_primary_consumes(g: Grammar, ts: Seq<TokenView>, i: int)
    ensures
        primary_at(g, ts, i).value is Ok ==> primary_at(g, ts, i).consumed >= 1,
{
    let kind = kind_at(ts, i);
    if kind == TokenType::IF {
        assert(conditional_at(g, ts, i).value is Ok ==> conditional_at(g, ts, i).consumed >= 1);
    } else if kind == TokenType::BANG || kind == TokenType::MINUS {
        assert(prefix_at(g, ts, i).value is Ok ==> prefix_at(g, ts, i).consumed >= 1);
    } else if kind == TokenType::LPAREN {
        assert(grouped_at(g, ts, i).value is Ok ==> grouped_at(g, ts, i).consumed >= 1);
    }
}

/// An expression that is read takes at least one token.
pub proof fn lemma_expression_consumes(g: Grammar, ts: Seq<TokenView>, i: int, min: nat)
    ensures
        expression_at(g, ts, i, min).value is Ok ==> expression_at(g, ts, i, min).consumed >= 1,
{
    lemma_primary_consumes(g, ts, i);
}

/// A statement that is read takes at least one token.
pub proof fn lemma_statement_consumes(g: Grammar, ts: Seq<TokenView>, i: int)
    ensures
        statement_at(g, ts, i).value is Ok ==> statement_at(g, ts, i).consumed >= 1,
{
    let kind = kind_at(ts, i);
    if kind == TokenType::LET {
        assert(let_statement_at(g, ts, i).value is Ok ==> let_statement_at(g, ts, i).consumed
            >= 1);
    } else if kind == TokenType::RETURN {
        assert(return_statement_at(g, ts, i).value is Ok ==> return_statement_at(
            g,
            ts,
            i,
        ).consumed >= 1);
    } else {
        lemma_expression_consumes(g, ts, i, 1);
        assert(expression_statement_at(g, ts, i).value is Ok ==> expression_statement_at(
            g,
            ts,
            i,
        ).consumed >= 1);
    }
}

/// Nothing read yet.
pub open spec fn nothing_read() -> ProgramOutcome {
    ProgramOutcome { statements: Seq::empty(), diagnostics: Seq::empty() }
}

/// What has been read, and one more statement.
pub open spec fn with_statement(read: ProgramOutcome, statement: StatementView) -> ProgramOutcome {
    ProgramOutcome { statements: read.statements.push(statement), diagnostics: read.diagnostics }
}

/// What has been read, and the diagnostic for one more statement, a
/// malformed one. Its place among the statements is the number of those met
/// before, well formed or not.
pub open spec fn with_diagnostic(read: ProgramOutcome, error: ParseErrorView) -> ProgramOutcome {
    ProgramOutcome {
        statements: read.statements,
        diagnostics: read.diagnostics.push(
            DiagnosticView { statement: read.statements.len() + read.diagnostics.len(), error },
        ),
    }
}

/// Where the parser stands after the statement at `i`: behind it if it was
/// read, and at the boundary of the statement if it was malformed. The
/// levels are counted from the start of the statement, so that a semicolon
/// inside a block of the statement is no boundary.
pub open spec fn resume_at(g: Grammar, ts: Seq<TokenView>, i: int) -> int {
    let s = statement_at(g, ts, i);
    if s.value is Ok {
        i + s.consumed
    } else {
        boundary_at(ts, i + s.consumed, nesting(ts, i, s.consumed))
    }
}

/// The program, once the tokens from `i` on have joined what has been
/// `read` before. Semicolons between statements are passed over. A
/// statement that is read joins the statements; a malformed one gives a
/// diagnostic, and the parser goes on at the boundary of that statement.
/// Either way what was read before stays, and the statements behind are
/// read as if nothing had happened.
#[verifier::opaque]
pub open spec fn program_from(
    g: Grammar,
    ts: Seq<TokenView>,
    i: int,
    read: ProgramOutcome,
) -> ProgramOutcome
    decreases remaining(ts, i),
{
    let kind = kind_at(ts, i);
    if kind == TokenType::EOF {
        read
    } else if kind == TokenType::SEMICOLON {
        program_from(g, ts, i + 1, read)
    } else {
        proof {
            lemma_resume_at(g, ts, i);
        }
        match statement_at(g, ts, i).value {
            Ok(statement) => program_from(g, ts, resume_at(g, ts, i), with_statement(read, statement)),
            Err(error) => program_from(g, ts, resume_at(g, ts, i), with_diagnostic(read, error)),
        }
    }
}

/// The program that the tokens from `i` on hold.
pub open spec fn program_at(g: Grammar, ts: Seq<TokenView>, i: int) -> ProgramOutcome {
    program_from(g, ts, i, nothing_read())
}

/// After a statement, read or malformed, the parser stands further on.
pub proof fn lemma_resume_at(g: Grammar, ts: Seq<TokenView>, i: int)
    requires
        kind_at(ts, i) != TokenType::EOF,
        kind_at(ts, i) != TokenType::SEMICOLON,
    ensures
        i < resume_at(g, ts, i),
{
    lemma_statement_consumes(g, ts, i);
    let consumed = statement_at(g, ts, i).consumed;
    lemma_boundary_start(ts, i + consumed, nesting(ts, i, consumed));
    if consumed == 0 {
        lemma_boundary_start(ts, i + 1, nesting_behind(kind_at(ts, i), 0));
    }
}

/// How a program unfolds at a position where a statement starts.
pub proof fn lemma_program_unfold(g: Grammar, ts: Seq<TokenView>, i: int, read: ProgramOutcome)
    requires
        kind_at(ts, i) != TokenType::EOF,
        kind_at(ts, i) != TokenType::SEMICOLON,
    ensures
        program_from(g, ts, i, read) == match statement_at(g, ts, i).value {
            Ok(statement) => program_from(g, ts, resume_at(g, ts, i), with_statement(read, statement)),
            Err(error) => program_from(g, ts, resume_at(g, ts, i), with_diagnostic(read, error)),
        },
        i < resume_at(g, ts, i),
{
    reveal(program_from);
    lemma_resume_at(g, ts, i);
}

/// A semicolon between statements changes nothing.
pub proof fn lemma_program_skip(g: Grammar, ts: Seq<TokenView>, i: int, read: ProgramOutcome)
    requires
        kind_at(ts, i) == TokenType::SEMICOLON,
    ensures
        program_from(g, ts, i, read) == program_from(g, ts, i + 1, read),
{
    reveal(program_from);
}

/// At the end of the tokens the program is what has been read.
pub proof fn lemma_program_end(g: Grammar, ts: Seq<TokenView>, i: int, read: ProgramOutcome)
    requires
        kind_at(ts, i) == TokenType::EOF,
    ensures
        program_from(g, ts, i, read) == read,
{
    reveal(program_from);
}

} // verus!

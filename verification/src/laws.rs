//! Laws of the lexer and of the grammar: what holds of every text and of
//! every sequence of tokens.

use vstd::prelude::*;
use crate::ast::ExpressionView;
use crate::grammar::{
    accept, block_at, boundary_at, climb_at, closes_statement, condition_at, conditional_at,
    continues_at, expression_at, Grammar, is_condition, is_operator, kind_at, lemma_boundary_start,
    lemma_program_end, lemma_program_skip, lemma_program_unfold, nesting, nesting_behind, Parsed,
    precedence, primary_at, program_from, ProgramOutcome, remaining, resume_at, starts_statement,
    statement_at, token_at, with_diagnostic, with_statement,
};
use crate::decimal::is_decimal;
use crate::lexer::{
    at_end, CharClass, is_digit, is_letter, is_space, lemma_lexeme_advances, lemma_run_end,
    lexeme_at, run_end, tokens_from,
};
use crate::token::{keyword_kind, TokenType, TokenView};

verus! {

/// The kinds that a word can have: the keywords and `IDENT`.
pub open spec fn is_word_kind(kind: TokenType) -> bool {
    kind == TokenType::IDENT || kind == TokenType::LET || kind == TokenType::FUNCTION || kind
        == TokenType::TRUE || kind == TokenType::FALSE || kind == TokenType::IF || kind
        == TokenType::ELSE || kind == TokenType::RETURN
}

/// What every token of a text looks like: it is no end marker and its
/// literal is not empty; the literal of an integer is made of digits; that
/// of a word starts with a letter or an underscore, and the keyword table
/// gives the word its kind.
pub open spec fn well_shaped(token: TokenView) -> bool {
    &&& token.t != TokenType::EOF
    &&& token.literal.len() > 0
    &&& token.t == TokenType::INT ==> is_decimal(token.literal)
    &&& is_word_kind(token.t) ==> is_letter(token.literal[0]) && keyword_kind(token.literal)
        == token.t
}

/// The token that the lexer reads at a position where the text has not
/// ended is well shaped.
pub proof fn lemma_token_well_shaped(s: Seq<char>, i: int)
    requires
        0 <= i <= s.len(),
        !at_end(s, i),
    ensures
        well_shaped(lexeme_at(s, i).token),
{
    lemma_lexeme_advances(s, i);
    lemma_run_end(s, CharClass::Space, i);
    let start = run_end(s, CharClass::Space, i);
    lemma_run_end(s, CharClass::Word, start);
    lemma_run_end(s, CharClass::Digit, start);
    let token = lexeme_at(s, i).token;
    if token.t == TokenType::INT {
        let end = run_end(s, CharClass::Digit, start);
        let digits = s.subrange(start, end);
        assert(token.literal == digits);
        assert forall|k: int| 0 <= k < digits.len() implies is_digit(#[trigger] digits[k]) by {
            assert(digits[k] == s[start + k]);
        }
    }
    if is_word_kind(token.t) {
        let end = run_end(s, CharClass::Word, start);
        let word = s.subrange(start, end);
        assert(token.literal == word);
        assert(word[0] == s[start]);
    }
}

/// Every token of a text is well shaped.
pub proof fn lemma_tokens_well_shaped(s: Seq<char>, i: int)
    requires
        0 <= i <= s.len(),
    ensures
        forall|k: int|
            0 <= k < tokens_from(s, i).len() ==> well_shaped(#[trigger] tokens_from(s, i)[k]),
    decreases s.len() - i,
{
    lemma_lexeme_advances(s, i);
    if !at_end(s, i) {
        lemma_token_well_shaped(s, i);
        lemma_tokens_well_shaped(s, lexeme_at(s, i).end);
        let rest = tokens_from(s, lexeme_at(s, i).end);
        assert forall|k: int| 0 <= k < tokens_from(s, i).len() implies well_shaped(
            #[trigger] tokens_from(s, i)[k],
        ) by {
            if k > 0 {
                assert(tokens_from(s, i)[k] == rest[k - 1]);
            }
        }
    }
}

/// The literals of a sequence of tokens, one behind the other.
pub open spec fn literals(ts: Seq<TokenView>) -> Seq<char>
    decreases ts.len(),
{
    if ts.len() == 0 {
        Seq::empty()
    } else {
        ts[0].literal + literals(ts.drop_first())
    }
}

/// The text from `i` on without its white space.
pub open spec fn without_spaces(s: Seq<char>, i: int) -> Seq<char>
    decreases s.len() - i,
{
    if !(0 <= i < s.len()) {
        Seq::empty()
    } else if is_space(s[i]) {
        without_spaces(s, i + 1)
    } else {
        seq![s[i]] + without_spaces(s, i + 1)
    }
}

/// White space before a position adds nothing to the text without white
/// space.
pub proof fn lemma_spaces_vanish(s: Seq<char>, i: int, j: int)
    requires
        0 <= i <= j <= s.len(),
        forall|k: int| i <= k < j ==> is_space(#[trigger] s[k]),
    ensures
        without_spaces(s, i) == without_spaces(s, j),
    decreases j - i,
{
    if i < j {
        lemma_spaces_vanish(s, i + 1, j);
    }
}

/// Characters that are no white space stay as they are.
pub proof fn lemma_text_stays(s: Seq<char>, i: int, j: int)
    requires
        0 <= i <= j <= s.len(),
        forall|k: int| i <= k < j ==> !is_space(#[trigger] s[k]),
    ensures
        without_spaces(s, i) == s.subrange(i, j) + without_spaces(s, j),
    decreases j - i,
{
    if i < j {
        lemma_text_stays(s, i + 1, j);
        assert(s.subrange(i, j) =~= seq![s[i]] + s.subrange(i + 1, j));
        assert(seq![s[i]] + (s.subrange(i + 1, j) + without_spaces(s, j)) =~= s.subrange(i, j)
            + without_spaces(s, j));
    } else {
        assert(s.subrange(i, j) + without_spaces(s, j) =~= without_spaces(s, j));
    }
}

/// The lexer drops nothing but white space: the literals of the tokens of a
/// text, one behind the other, are the text without its white space.
pub proof fn lemma_literals_are_the_text(s: Seq<char>, i: int)
    requires
        0 <= i <= s.len(),
    ensures
        literals(tokens_from(s, i)) == without_spaces(s, i),
    decreases s.len() - i,
{
    lemma_lexeme_advances(s, i);
    lemma_run_end(s, CharClass::Space, i);
    let start = run_end(s, CharClass::Space, i);
    if at_end(s, i) {
        if i < s.len() {
            lemma_spaces_vanish(s, i, s.len() as int);
        }
    } else {
        let end = lexeme_at(s, i).end;
        let token = lexeme_at(s, i).token;
        let rest = tokens_from(s, end);
        lemma_run_end(s, CharClass::Word, start);
        lemma_run_end(s, CharClass::Digit, start);
        lemma_spaces_vanish(s, i, start);
        assert(token.literal == s.subrange(start, end));
        assert forall|k: int| start <= k < end implies !is_space(#[trigger] s[k]) by {}
        lemma_text_stays(s, start, end);
        lemma_literals_are_the_text(s, end);
        let ts = tokens_from(s, i);
        assert(ts[0] == token);
        assert(ts.drop_first() =~= rest);
    }
}

/// Under equal precedence, the right operand of a binary operation is one
/// primary expression: no operator binds tighter than another.
pub proof fn lemma_equal_precedence_operand(ts: Seq<TokenView>, i: int, min: nat)
    requires
        min >= 2,
    ensures
        expression_at(Grammar::EqualPrecedence, ts, i, min) == primary_at(
            Grammar::EqualPrecedence,
            ts,
            i,
        ),
{
    let g = Grammar::EqualPrecedence;
    let first = primary_at(g, ts, i);
    if first.value is Ok {
        assert(!continues_at(g, ts, i + first.consumed, min));
    }
}

/// The binary operations that follow the operand `left` at `i` when every
/// operator is taken as it comes: an operator and a primary expression, over
/// and over, each operation with all that was built before as its left
/// operand.
pub open spec fn left_fold_at(ts: Seq<TokenView>, i: int, left: ExpressionView) -> Parsed<
    ExpressionView,
>
    decreases remaining(ts, i),
{
    if is_operator(kind_at(ts, i)) {
        let right = primary_at(Grammar::EqualPrecedence, ts, i + 1);
        match right.value {
            Ok(r) => {
                let folded = ExpressionView::Infix {
                    left: Box::new(left),
                    operator: token_at(ts, i).literal,
                    right: Box::new(r),
                };
                let rest = left_fold_at(ts, i + 1 + right.consumed, folded);
                Parsed { value: rest.value, consumed: 1 + right.consumed + rest.consumed }
            },
            Err(error) => Parsed { value: Err(error), consumed: 1 + right.consumed },
        }
    } else {
        accept(left, 0)
    }
}

/// Under equal precedence an expression is a primary expression followed by
/// a left fold: `1 + 2 * 3` is `(1 + 2) * 3`.
pub proof fn lemma_equal_precedence_folds_left(ts: Seq<TokenView>, i: int, left: ExpressionView)
    ensures
        climb_at(Grammar::EqualPrecedence, ts, i, 1, left) == left_fold_at(ts, i, left),
    decreases remaining(ts, i),
{
    let g = Grammar::EqualPrecedence;
    if is_operator(kind_at(ts, i)) {
        lemma_equal_precedence_operand(ts, i + 1, 2);
        let right = primary_at(g, ts, i + 1);
        if let Ok(r) = right.value {
            let folded = ExpressionView::Infix {
                left: Box::new(left),
                operator: token_at(ts, i).literal,
                right: Box::new(r),
            };
            lemma_equal_precedence_folds_left(ts, i + 1 + right.consumed, folded);
        }
    }
}

/// A binary operation of `left` and `right` with the operator at `i`.
pub open spec fn infix_of(
    ts: Seq<TokenView>,
    i: int,
    left: ExpressionView,
    right: ExpressionView,
) -> ExpressionView {
    ExpressionView::Infix {
        left: Box::new(left),
        operator: token_at(ts, i).literal,
        right: Box::new(right),
    }
}

/// An operand that is not followed by an operator is an expression, at
/// whatever level of precedence it is read.
pub proof fn lemma_single_operand(g: Grammar, ts: Seq<TokenView>, i: int, min: nat)
    requires
        primary_at(g, ts, i).value is Ok,
        !is_operator(kind_at(ts, i + primary_at(g, ts, i).consumed)),
    ensures
        expression_at(g, ts, i, min) == primary_at(g, ts, i),
{
    let first = primary_at(g, ts, i);
    assert(!continues_at(g, ts, i + first.consumed, min));
}

/// How two binary operators in a row group. Three operands `x`, `y` and `z`
/// with an operator between each two, and no operator behind, are read as
/// `x op1 (y op2 z)` if the second operator binds tighter than the first, and
/// as `(x op1 y) op2 z` if it does not.
pub proof fn lemma_two_operators(
    g: Grammar,
    ts: Seq<TokenView>,
    i: int,
    x: ExpressionView,
    nx: nat,
    y: ExpressionView,
    ny: nat,
    z: ExpressionView,
    nz: nat,
)
    requires
        primary_at(g, ts, i) == accept(x, nx),
        is_operator(kind_at(ts, i + nx)),
        primary_at(g, ts, i + nx + 1) == accept(y, ny),
        is_operator(kind_at(ts, i + nx + 1 + ny)),
        primary_at(g, ts, i + nx + 1 + ny + 1) == accept(z, nz),
        !is_operator(kind_at(ts, i + nx + 1 + ny + 1 + nz)),
    ensures
        expression_at(g, ts, i, 1) == accept(
            if precedence(g, kind_at(ts, i + nx + 1 + ny)) > precedence(g, kind_at(ts, i + nx)) {
                infix_of(ts, i + nx, x, infix_of(ts, i + nx + 1 + ny, y, z))
            } else {
                infix_of(ts, i + nx + 1 + ny, infix_of(ts, i + nx, x, y), z)
            },
            nx + 1 + ny + 1 + nz,
        ),
{
    let op1 = i + nx;
    let op2 = op1 + 1 + ny;
    let end = op2 + 1 + nz;
    let outer_level = precedence(g, kind_at(ts, op1));
    let inner_level = precedence(g, kind_at(ts, op2));
    assert(outer_level >= 1 && inner_level >= 1);
    assert(precedence(g, kind_at(ts, end)) == 0);
    lemma_single_operand(g, ts, op2 + 1, inner_level + 1);
    assert(expression_at(g, ts, op2 + 1, inner_level + 1) == accept(z, nz));
    if inner_level > outer_level {
        let inner = infix_of(ts, op2, y, z);
        assert(climb_at(g, ts, end, outer_level + 1, inner) == accept(inner, 0));
        assert(climb_at(g, ts, op2, outer_level + 1, y) == accept(inner, 1 + nz));
        assert(expression_at(g, ts, op1 + 1, outer_level + 1) == accept(inner, ny + 1 + nz));
        let outer = infix_of(ts, op1, x, inner);
        assert(climb_at(g, ts, end, 1, outer) == accept(outer, 0));
        assert(climb_at(g, ts, op1, 1, x) == accept(outer, 1 + ny + 1 + nz));
    } else {
        assert(climb_at(g, ts, op2, outer_level + 1, y) == accept(y, 0));
        assert(expression_at(g, ts, op1 + 1, outer_level + 1) == accept(y, ny));
        let inner = infix_of(ts, op1, x, y);
        let outer = infix_of(ts, op2, inner, z);
        assert(climb_at(g, ts, end, 1, outer) == accept(outer, 0));
        assert(climb_at(g, ts, op2, 1, inner) == accept(outer, 1 + nz));
        assert(climb_at(g, ts, op1, 1, x) == accept(outer, 1 + ny + 1 + nz));
    }
}

/// Under equal precedence two binary operators in a row always group from
/// the left: `1 + 2 * 3` is `(1 + 2) * 3`.
pub proof fn lemma_equal_precedence_groups_left(
    ts: Seq<TokenView>,
    i: int,
    x: ExpressionView,
    nx: nat,
    y: ExpressionView,
    ny: nat,
    z: ExpressionView,
    nz: nat,
)
    requires
        primary_at(Grammar::EqualPrecedence, ts, i) == accept(x, nx),
        is_operator(kind_at(ts, i + nx)),
        primary_at(Grammar::EqualPrecedence, ts, i + nx + 1) == accept(y, ny),
        is_operator(kind_at(ts, i + nx + 1 + ny)),
        primary_at(Grammar::EqualPrecedence, ts, i + nx + 1 + ny + 1) == accept(z, nz),
        !is_operator(kind_at(ts, i + nx + 1 + ny + 1 + nz)),
    ensures
        expression_at(Grammar::EqualPrecedence, ts, i, 1) == accept(
            infix_of(ts, i + nx + 1 + ny, infix_of(ts, i + nx, x, y), z),
            nx + 1 + ny + 1 + nz,
        ),
{
    lemma_two_operators(Grammar::EqualPrecedence, ts, i, x, nx, y, ny, z, nz);
}

/// The condition of a conditional that was read is a truth value, a unary
/// operation or a comparison.
pub proof fn lemma_condition_shape(g: Grammar, ts: Seq<TokenView>, i: int)
    ensures
        condition_at(g, ts, i).value matches Ok(c) ==> is_condition(c),
        conditional_at(g, ts, i).value matches Ok(e) ==> e is Conditional && is_condition(
            *e->condition,
        ),
{
}

/// The parser never reads beyond the tokens: where it stops, by success or
/// by failure, lies inside them or at their end.
pub proof fn lemma_parsed_in_range(g: Grammar, ts: Seq<TokenView>, i: int, min: nat)
    requires
        0 <= i <= ts.len(),
    ensures
        i + primary_at(g, ts, i).consumed <= ts.len(),
        i + expression_at(g, ts, i, min).consumed <= ts.len(),
        i + statement_at(g, ts, i).consumed <= ts.len(),
        i + block_at(g, ts, i).consumed <= ts.len(),
{
    lemma_primary_in_range(g, ts, i);
    lemma_expression_in_range(g, ts, i, min);
    lemma_statement_in_range(g, ts, i);
    lemma_block_in_range(g, ts, i);
}

/// Reading a primary expression stops inside the tokens or at their end.
proof fn lemma_primary_in_range(g: Grammar, ts: Seq<TokenView>, i: int)
    requires
        0 <= i <= ts.len(),
    ensures
        i + primary_at(g, ts, i).consumed <= ts.len(),
    decreases remaining(ts, i), 1nat,
{
    let kind = kind_at(ts, i);
    if kind == TokenType::IF {
        lemma_conditional_in_range(g, ts, i);
    } else if kind == TokenType::BANG || kind == TokenType::MINUS {
        lemma_primary_in_range(g, ts, i + 1);
    } else if kind == TokenType::LPAREN {
        lemma_expression_in_range(g, ts, i + 1, 1);
    }
}

/// Reading a chain of binary operations stops inside the tokens or at their end.
proof fn lemma_climb_in_range(g: Grammar, ts: Seq<TokenView>, i: int, min: nat, left: ExpressionView)
    requires
        0 <= i <= ts.len(),
    ensures
        i + climb_at(g, ts, i, min, left).consumed <= ts.len(),
    decreases remaining(ts, i), 2nat,
{
    if continues_at(g, ts, i, min) {
        let level = precedence(g, kind_at(ts, i)) + 1;
        lemma_expression_in_range(g, ts, i + 1, level as nat);
        let right = expression_at(g, ts, i + 1, level as nat);
        if let Ok(r) = right.value {
            let folded = ExpressionView::Infix {
                left: Box::new(left),
                operator: token_at(ts, i).literal,
                right: Box::new(r),
            };
            lemma_climb_in_range(g, ts, i + 1 + right.consumed, min, folded);
        }
    }
}

/// Reading an expression stops inside the tokens or at their end.
proof fn lemma_expression_in_range(g: Grammar, ts: Seq<TokenView>, i: int, min: nat)
    requires
        0 <= i <= ts.len(),
    ensures
        i + expression_at(g, ts, i, min).consumed <= ts.len(),
    decreases remaining(ts, i), 3nat,
{
    lemma_primary_in_range(g, ts, i);
    let first = primary_at(g, ts, i);
    if let Ok(left) = first.value {
        lemma_climb_in_range(g, ts, i + first.consumed, min, left);
    }
}

/// Reading a conditional stops inside the tokens or at their end.
proof fn lemma_conditional_in_range(g: Grammar, ts: Seq<TokenView>, i: int)
    requires
        0 <= i <= ts.len(),
    ensures
        i + conditional_at(g, ts, i).consumed <= ts.len(),
    decreases remaining(ts, i), 0nat,
{
    if kind_at(ts, i) == TokenType::IF {
        lemma_expression_in_range(g, ts, i + 1, 1);
        let c = condition_at(g, ts, i + 1);
        let open = i + 1 + c.consumed;
        if c.value is Ok && kind_at(ts, open) == TokenType::LBRACE {
            lemma_block_in_range(g, ts, open + 1);
            let first = block_at(g, ts, open + 1);
            let behind = open + 1 + first.consumed;
            if first.value is Ok && kind_at(ts, behind) == TokenType::ELSE && kind_at(
                ts,
                behind + 1,
            ) == TokenType::LBRACE {
                lemma_block_in_range(g, ts, behind + 2);
            }
        }
    }
}

/// Reading a statement stops inside the tokens or at their end.
proof fn lemma_statement_in_range(g: Grammar, ts: Seq<TokenView>, i: int)
    requires
        0 <= i <= ts.len(),
    ensures
        i + statement_at(g, ts, i).consumed <= ts.len(),
    decreases remaining(ts, i), 6nat,
{
    let kind = kind_at(ts, i);
    if kind == TokenType::LET {
        if kind_at(ts, i + 1) == TokenType::IDENT && kind_at(ts, i + 2) == TokenType::ASSIGN {
            lemma_expression_in_range(g, ts, i + 3, 1);
        }
    } else if kind == TokenType::RETURN {
        lemma_expression_in_range(g, ts, i + 1, 1);
    } else {
        lemma_expression_in_range(g, ts, i, 1);
    }
}

/// Reading a block stops inside the tokens or at their end.
proof fn lemma_block_in_range(g: Grammar, ts: Seq<TokenView>, i: int)
    requires
        0 <= i <= ts.len(),
    ensures
        i + block_at(g, ts, i).consumed <= ts.len(),
    decreases remaining(ts, i), 7nat,
{
    let kind = kind_at(ts, i);
    if kind == TokenType::RBRACE || kind == TokenType::EOF {
    } else if kind == TokenType::SEMICOLON {
        lemma_block_in_range(g, ts, i + 1);
    } else {
        lemma_statement_in_range(g, ts, i);
        let s = statement_at(g, ts, i);
        if s.value is Ok && s.consumed > 0 {
            lemma_block_in_range(g, ts, i + s.consumed);
        }
    }
}

/// The boundary lies at or behind the position, inside the tokens or at
/// their end; a semicolon, the start of a statement or the end marker stands
/// there, and the end marker nowhere before.
pub proof fn lemma_boundary_at(ts: Seq<TokenView>, i: int, depth: nat)
    requires
        0 <= i <= ts.len(),
    ensures
        i <= boundary_at(ts, i, depth) <= ts.len(),
        kind_at(ts, boundary_at(ts, i, depth)) == TokenType::SEMICOLON || kind_at(
            ts,
            boundary_at(ts, i, depth),
        ) == TokenType::EOF || starts_statement(kind_at(ts, boundary_at(ts, i, depth))),
        forall|k: int|
            i <= k < boundary_at(ts, i, depth) ==> #[trigger] kind_at(ts, k) != TokenType::EOF,
    decreases remaining(ts, i),
{
    let kind = kind_at(ts, i);
    if !(kind == TokenType::EOF || (kind == TokenType::SEMICOLON && depth == 0))
        && !closes_statement(ts, i, depth) {
        lemma_boundary_at(ts, i + 1, nesting_behind(kind, depth));
    }
}

/// How deep inside braces and parentheses a parser stands at `k` that stood
/// `depth` deep at `i`.
pub open spec fn level_at(ts: Seq<TokenView>, i: int, depth: nat, k: int) -> nat
    decreases k - i,
{
    if k <= i {
        depth
    } else {
        nesting_behind(kind_at(ts, k - 1), level_at(ts, i, depth, k - 1))
    }
}

/// Whether a statement is over at `k` for a parser that stood `depth` deep
/// at `i`: the end marker stands there, or a semicolon with no level open,
/// or the start of a statement behind the `}` that closed the last level.
pub open spec fn is_boundary(ts: Seq<TokenView>, i: int, depth: nat, k: int) -> bool {
    ||| kind_at(ts, k) == TokenType::EOF
    ||| kind_at(ts, k) == TokenType::SEMICOLON && level_at(ts, i, depth, k) == 0
    ||| i < k && closes_statement(ts, k - 1, level_at(ts, i, depth, k - 1))
}

/// The level behind a token is the level from the next position on.
pub proof fn lemma_level_shift(ts: Seq<TokenView>, i: int, depth: nat, k: int)
    requires
        i < k,
    ensures
        level_at(ts, i, depth, k) == level_at(ts, i + 1, nesting_behind(kind_at(ts, i), depth), k),
    decreases k - i,
{
    if k > i + 1 {
        lemma_level_shift(ts, i, depth, k - 1);
    } else {
        assert(level_at(ts, i, depth, i) == depth);
    }
}

/// The levels that the tokens of a statement leave open are the level
/// behind them.
pub proof fn lemma_nesting_is_level(ts: Seq<TokenView>, i: int, n: nat)
    ensures
        nesting(ts, i, n) == level_at(ts, i, 0, i + n),
    decreases n,
{
    if n > 0 {
        lemma_nesting_is_level(ts, i, (n - 1) as nat);
    }
}

/// The boundary is the first position at or behind `i` where the statement
/// is over: a semicolon inside a block, where a level is open, is none.
pub proof fn lemma_boundary_is_first(ts: Seq<TokenView>, i: int, depth: nat)
    ensures
        is_boundary(ts, i, depth, boundary_at(ts, i, depth)),
        forall|k: int| i <= k < boundary_at(ts, i, depth) ==> !is_boundary(ts, i, depth, k),
    decreases remaining(ts, i),
{
    let kind = kind_at(ts, i);
    assert(level_at(ts, i, depth, i) == depth);
    if kind == TokenType::EOF || (kind == TokenType::SEMICOLON && depth == 0) {
    } else if closes_statement(ts, i, depth) {
    } else {
        let next = nesting_behind(kind, depth);
        let b = boundary_at(ts, i + 1, next);
        lemma_boundary_is_first(ts, i + 1, next);
        lemma_boundary_start(ts, i + 1, next);
        assert forall|k: int| i < k <= b implies is_boundary(ts, i, depth, k) == is_boundary(
            ts,
            i + 1,
            next,
            k,
        ) by {
            lemma_level_shift(ts, i, depth, k);
            if k > i + 1 {
                lemma_level_shift(ts, i, depth, k - 1);
            }
        }
    }
}

/// A malformed statement gives one diagnostic, whatever it holds: the
/// program goes on at the boundary of the statement, with that one
/// diagnostic more and the same statements as before.
pub proof fn lemma_one_diagnostic(g: Grammar, ts: Seq<TokenView>, i: int, read: ProgramOutcome)
    requires
        kind_at(ts, i) != TokenType::EOF,
        kind_at(ts, i) != TokenType::SEMICOLON,
        statement_at(g, ts, i).value is Err,
    ensures
        program_from(g, ts, i, read) == program_from(
            g,
            ts,
            resume_at(g, ts, i),
            with_diagnostic(read, statement_at(g, ts, i).value->Err_0),
        ),
        with_diagnostic(read, statement_at(g, ts, i).value->Err_0).diagnostics.len()
            == read.diagnostics.len() + 1,
        is_boundary(
            ts,
            i + statement_at(g, ts, i).consumed,
            nesting(ts, i, statement_at(g, ts, i).consumed),
            resume_at(g, ts, i),
        ),
        i < resume_at(g, ts, i),
{
    lemma_program_unfold(g, ts, i, read);
    let consumed = statement_at(g, ts, i).consumed;
    lemma_boundary_is_first(ts, i + consumed, nesting(ts, i, consumed));
}

/// Whether `more` holds all that `read` holds, at its front and in the same
/// order.
pub open spec fn keeps(read: ProgramOutcome, more: ProgramOutcome) -> bool {
    read.statements.is_prefix_of(more.statements) && read.diagnostics.is_prefix_of(
        more.diagnostics,
    )
}

/// Where a statement starts, the program goes on further on, with all that
/// has been read and one statement or one diagnostic more.
proof fn lemma_program_step(g: Grammar, ts: Seq<TokenView>, i: int, read: ProgramOutcome) -> (step:
    (int, ProgramOutcome))
    requires
        kind_at(ts, i) != TokenType::EOF,
        kind_at(ts, i) != TokenType::SEMICOLON,
    ensures
        i < step.0,
        program_from(g, ts, i, read) == program_from(g, ts, step.0, step.1),
        keeps(read, step.1),
{
    lemma_program_unfold(g, ts, i, read);
    let more = match statement_at(g, ts, i).value {
        Ok(statement) => with_statement(read, statement),
        Err(error) => with_diagnostic(read, error),
    };
    (resume_at(g, ts, i), more)
}

/// Nothing that has been read is lost: whatever follows, well formed or
/// not, the statements and the diagnostics collected so far stay at the
/// front of the program, in their order.
pub proof fn lemma_program_keeps_what_was_read(
    g: Grammar,
    ts: Seq<TokenView>,
    i: int,
    read: ProgramOutcome,
)
    ensures
        keeps(read, program_from(g, ts, i, read)),
    decreases remaining(ts, i),
{
    let kind = kind_at(ts, i);
    if kind == TokenType::EOF {
        lemma_program_end(g, ts, i, read);
    } else if kind == TokenType::SEMICOLON {
        lemma_program_skip(g, ts, i, read);
        lemma_program_keeps_what_was_read(g, ts, i + 1, read);
    } else {
        let step = lemma_program_step(g, ts, i, read);
        lemma_program_keeps_what_was_read(g, ts, step.0, step.1);
    }
}

} // verus!

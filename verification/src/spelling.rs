//! Spelling: the tokens that write a syntax tree down, and the law that the
//! parser reads them back as the tree they came from, under either grammar.

use vstd::prelude::*;
use crate::ast::{ExpressionView, StatementView};
use crate::decimal::{decimal_digits, lemma_decimal_round_trip, lemma_decimal_value_nonnegative};
use crate::grammar::{
    accept, block_at, boolean_literal_at, climb_at, condition_at, conditional_at, continues_at,
    expression_at, expression_statement_at, Grammar, grouped_at, identifier_at, integer_literal_at,
    is_condition, is_operator, kind_at, lemma_program_end, lemma_program_skip,
    lemma_program_unfold, lemma_statement_consumes, let_statement_at, literal_value, nothing_read,
    precedence, prefix_at, primary_at, program_at, program_from, ProgramOutcome, remaining,
    resume_at, return_statement_at, statement_at, token_at, with_diagnostic, with_statement,
};
use crate::laws::lemma_single_operand;
use crate::lexer::{
    at_end, CharClass, lemma_digits_round_trip, lemma_keyword_kind_range, lemma_lexeme_advances,
    lemma_run_end, lexeme_at, run_end, tokenize, tokens_from,
};
use crate::token::{TokenType, TokenView};

verus! {

/// The kind of the token that writes a binary operator, if the text is one.
pub open spec fn operator_kind(text: Seq<char>) -> Option<TokenType> {
    if text == "+"@ {
        Some(TokenType::PLUS)
    } else if text == "-"@ {
        Some(TokenType::MINUS)
    } else if text == "*"@ {
        Some(TokenType::STAR)
    } else if text == "/"@ {
        Some(TokenType::SLASH)
    } else if text == ">"@ {
        Some(TokenType::GT)
    } else if text == "<"@ {
        Some(TokenType::LT)
    } else if text == "=="@ {
        Some(TokenType::EQ)
    } else if text == "!="@ {
        Some(TokenType::NEQ)
    } else {
        None
    }
}

/// The kind of the token that writes a unary operator, if the text is one.
pub open spec fn prefix_kind(text: Seq<char>) -> Option<TokenType> {
    if text == "!"@ {
        Some(TokenType::BANG)
    } else if text == "-"@ {
        Some(TokenType::MINUS)
    } else {
        None
    }
}

/// The token of a kind that is always written the same way: a keyword or a
/// punctuation mark.
pub open spec fn symbol(kind: TokenType) -> TokenView {
    TokenView {
        t: kind,
        literal: match kind {
            TokenType::LET => "let"@,
            TokenType::RETURN => "return"@,
            TokenType::IF => "if"@,
            TokenType::ELSE => "else"@,
            TokenType::TRUE => "true"@,
            TokenType::FALSE => "false"@,
            TokenType::ASSIGN => "="@,
            TokenType::SEMICOLON => ";"@,
            TokenType::LPAREN => "("@,
            TokenType::RPAREN => ")"@,
            TokenType::LBRACE => "{"@,
            TokenType::RBRACE => "}"@,
            _ => Seq::empty(),
        },
    }
}

/// The expressions that can be written down: those made of literals that are
/// not negative, identifiers, the operators of the language, and
/// conditionals whose condition has one of the shapes admitted.
pub open spec fn writable(e: ExpressionView) -> bool
    decreases e,
{
    match e {
        ExpressionView::IntegerLiteral(n) => n >= 0,
        ExpressionView::BooleanLiteral(_) => true,
        ExpressionView::Identifier(_) => true,
        ExpressionView::Prefix { operator, operand } => prefix_kind(operator) is Some && writable(
            *operand,
        ),
        ExpressionView::Infix { left, operator, right } => operator_kind(operator) is Some
            && writable(*left) && writable(*right),
        ExpressionView::Conditional { condition, consequence, alternative } => is_condition(
            *condition,
        ) && writable(*condition) && writable_block(consequence) && match alternative {
            Some(block) => writable_block(block),
            None => true,
        },
        _ => false,
    }
}

/// The statements that can be written down.
pub open spec fn writable_statement(s: StatementView) -> bool
    decreases s,
{
    match s {
        StatementView::Let { name, value } => writable(value),
        StatementView::Return { value } => writable(value),
        StatementView::ExpressionStatement { value } => writable(value),
    }
}

/// The blocks that can be written down.
pub open spec fn writable_block(b: Seq<StatementView>) -> bool
    decreases b,
{
    if b.len() == 0 {
        true
    } else {
        writable_statement(b[0]) && writable_block(b.drop_first())
    }
}

/// The tokens that write an expression as an operand: a binary operation
/// stands in parentheses.
pub open spec fn spell_operand(e: ExpressionView) -> Seq<TokenView>
    decreases e, 1nat,
{
    if e is Infix {
        seq![symbol(TokenType::LPAREN)] + (spell(e) + seq![symbol(TokenType::RPAREN)])
    } else {
        spell(e)
    }
}

/// The tokens that write an expression.
pub open spec fn spell(e: ExpressionView) -> Seq<TokenView>
    decreases e, 0nat,
{
    match e {
        ExpressionView::IntegerLiteral(n) => seq![
            TokenView { t: TokenType::INT, literal: decimal_digits(n as int) },
        ],
        ExpressionView::BooleanLiteral(b) => seq![
            symbol(if b { TokenType::TRUE } else { TokenType::FALSE }),
        ],
        ExpressionView::Identifier(name) => seq![TokenView { t: TokenType::IDENT, literal: name }],
        ExpressionView::Prefix { operator, operand } => seq![
            TokenView { t: prefix_kind(operator)->0, literal: operator },
        ] + spell_operand(*operand),
        ExpressionView::Infix { left, operator, right } => spell_operand(*left) + (seq![
            TokenView { t: operator_kind(operator)->0, literal: operator },
        ] + spell_operand(*right)),
        ExpressionView::Conditional { condition, consequence, alternative } => seq![
            symbol(TokenType::IF),
        ] + (spell(*condition) + (seq![symbol(TokenType::LBRACE)] + (spell_block(consequence)
            + match alternative {
            Some(block) => seq![symbol(TokenType::ELSE)] + (seq![symbol(TokenType::LBRACE)]
                + spell_block(block)),
            None => Seq::empty(),
        }))),
        _ => Seq::empty(),
    }
}

/// The tokens that write a statement, with a semicolon at its end.
pub open spec fn spell_statement(s: StatementView) -> Seq<TokenView>
    decreases s, 0nat,
{
    match s {
        StatementView::Let { name, value } => seq![symbol(TokenType::LET)] + (seq![
            TokenView { t: TokenType::IDENT, literal: name },
        ] + (seq![symbol(TokenType::ASSIGN)] + (spell(value) + seq![symbol(TokenType::SEMICOLON)]))),
        StatementView::Return { value } => seq![symbol(TokenType::RETURN)] + (spell(value) + seq![
            symbol(TokenType::SEMICOLON),
        ]),
        StatementView::ExpressionStatement { value } => spell(value) + seq![
            symbol(TokenType::SEMICOLON),
        ],
    }
}

/// The tokens that write the statements of a block, one after the other, and
/// the `}` that closes it.
pub open spec fn spell_block(b: Seq<StatementView>) -> Seq<TokenView>
    decreases b, 0nat,
{
    if b.len() == 0 {
        seq![symbol(TokenType::RBRACE)]
    } else {
        spell_statement(b[0]) + spell_block(b.drop_first())
    }
}

/// The tokens that write the statements of a program, one after the other.
pub open spec fn spell_program(b: Seq<StatementView>) -> Seq<TokenView>
    decreases b,
{
    if b.len() == 0 {
        Seq::empty()
    } else {
        spell_statement(b[0]) + spell_program(b.drop_first())
    }
}

/// A `let` statement: `let`, a name, `=`, an expression and a semicolon.
proof fn lemma_let_statement(
    g: Grammar,
    ts: Seq<TokenView>,
    i: int,
    value: ExpressionView,
    n: nat,
)
    requires
        kind_at(ts, i) == TokenType::LET,
        kind_at(ts, i + 1) == TokenType::IDENT,
        kind_at(ts, i + 2) == TokenType::ASSIGN,
        expression_at(g, ts, i + 3, 1) == accept(value, n),
        kind_at(ts, i + 3 + n) == TokenType::SEMICOLON,
    ensures
        statement_at(g, ts, i) == accept(
            StatementView::Let { name: token_at(ts, i + 1).literal, value },
            n + 4,
        ),
{
    assert(let_statement_at(g, ts, i) == accept(
        StatementView::Let { name: token_at(ts, i + 1).literal, value },
        n + 3,
    ));
}

/// A return statement: the keyword, an expression and a semicolon.
proof fn lemma_return_statement(
    g: Grammar,
    ts: Seq<TokenView>,
    i: int,
    value: ExpressionView,
    n: nat,
)
    requires
        kind_at(ts, i) == TokenType::RETURN,
        expression_at(g, ts, i + 1, 1) == accept(value, n),
        kind_at(ts, i + 1 + n) == TokenType::SEMICOLON,
    ensures
        statement_at(g, ts, i) == accept(StatementView::Return { value }, n + 2),
{
    assert(return_statement_at(g, ts, i) == accept(StatementView::Return { value }, n + 1));
}

/// An expression as a statement: the expression and a semicolon.
proof fn lemma_expression_statement(
    g: Grammar,
    ts: Seq<TokenView>,
    i: int,
    value: ExpressionView,
    n: nat,
)
    requires
        kind_at(ts, i) != TokenType::LET,
        kind_at(ts, i) != TokenType::RETURN,
        expression_at(g, ts, i, 1) == accept(value, n),
        kind_at(ts, i + n) == TokenType::SEMICOLON,
    ensures
        statement_at(g, ts, i) == accept(StatementView::ExpressionStatement { value }, n + 1),
{
    assert(expression_statement_at(g, ts, i) == accept(
        StatementView::ExpressionStatement { value },
        n,
    ));
}

/// A conditional without a second block: `if`, a condition, and a block.
proof fn lemma_conditional_without_alternative(
    g: Grammar,
    ts: Seq<TokenView>,
    i: int,
    condition: ExpressionView,
    nc: nat,
    consequence: Seq<StatementView>,
    nb: nat,
)
    requires
        kind_at(ts, i) == TokenType::IF,
        expression_at(g, ts, i + 1, 1) == accept(condition, nc),
        is_condition(condition),
        kind_at(ts, i + 1 + nc) == TokenType::LBRACE,
        block_at(g, ts, i + 1 + nc + 1) == accept(consequence, nb),
        kind_at(ts, i + 1 + nc + 1 + nb) != TokenType::ELSE,
    ensures
        primary_at(g, ts, i) == accept(
            ExpressionView::Conditional {
                condition: Box::new(condition),
                consequence,
                alternative: None,
            },
            1 + nc + 1 + nb,
        ),
{
    assert(condition_at(g, ts, i + 1) == accept(condition, nc));
    assert(conditional_at(g, ts, i) == accept(
        ExpressionView::Conditional { condition: Box::new(condition), consequence, alternative: None },
        1 + nc + 1 + nb,
    ));
}

/// A conditional with a second block: `if`, a condition, a block, `else`,
/// and a block.
proof fn lemma_conditional_with_alternative(
    g: Grammar,
    ts: Seq<TokenView>,
    i: int,
    condition: ExpressionView,
    nc: nat,
    consequence: Seq<StatementView>,
    nb: nat,
    alternative: Seq<StatementView>,
    na: nat,
)
    requires
        kind_at(ts, i) == TokenType::IF,
        expression_at(g, ts, i + 1, 1) == accept(condition, nc),
        is_condition(condition),
        kind_at(ts, i + 1 + nc) == TokenType::LBRACE,
        block_at(g, ts, i + 1 + nc + 1) == accept(consequence, nb),
        kind_at(ts, i + 1 + nc + 1 + nb) == TokenType::ELSE,
        kind_at(ts, i + 1 + nc + 1 + nb + 1) == TokenType::LBRACE,
        block_at(g, ts, i + 1 + nc + 1 + nb + 2) == accept(alternative, na),
    ensures
        primary_at(g, ts, i) == accept(
            ExpressionView::Conditional {
                condition: Box::new(condition),
                consequence,
                alternative: Some(alternative),
            },
            1 + nc + 1 + nb + 2 + na,
        ),
{
    assert(condition_at(g, ts, i + 1) == accept(condition, nc));
    assert(conditional_at(g, ts, i) == accept(
        ExpressionView::Conditional {
            condition: Box::new(condition),
            consequence,
            alternative: Some(alternative),
        },
        1 + nc + 1 + nb + 2 + na,
    ));
}

/// A block that starts with a statement: the statement, then the rest of
/// the block.
proof fn lemma_block_statement(
    g: Grammar,
    ts: Seq<TokenView>,
    i: int,
    statement: StatementView,
    ns: nat,
    rest: Seq<StatementView>,
    nr: nat,
)
    requires
        kind_at(ts, i) != TokenType::RBRACE,
        kind_at(ts, i) != TokenType::EOF,
        kind_at(ts, i) != TokenType::SEMICOLON,
        statement_at(g, ts, i) == accept(statement, ns),
        block_at(g, ts, i + ns) == accept(rest, nr),
    ensures
        block_at(g, ts, i) == accept(seq![statement] + rest, ns + nr),
{
    lemma_statement_consumes(g, ts, i);
}

/// Whether the tokens `w` stand in `ts` from position `i` on.
#[verifier::opaque]
pub open spec fn written_at(ts: Seq<TokenView>, i: int, w: Seq<TokenView>) -> bool {
    &&& 0 <= i
    &&& i + w.len() <= ts.len()
    &&& forall|k: int| 0 <= k < w.len() ==> ts[i + k] == #[trigger] w[k]
}

/// Tokens written one after the other stand one after the other.
pub proof fn lemma_written_parts(ts: Seq<TokenView>, i: int, a: Seq<TokenView>, b: Seq<TokenView>)
    requires
        written_at(ts, i, a + b),
    ensures
        written_at(ts, i, a),
        written_at(ts, i + a.len(), b),
{
    reveal(written_at);
    let w = a + b;
    assert forall|k: int| 0 <= k < a.len() implies ts[i + k] == #[trigger] a[k] by {
        assert(w[k] == a[k]);
    }
    assert forall|k: int| 0 <= k < b.len() implies ts[i + a.len() + k] == #[trigger] b[k] by {
        assert(w[a.len() + k] == b[k]);
    }
}

/// A token that is written at a position is the token at that position.
pub proof fn lemma_written_token(ts: Seq<TokenView>, i: int, token: TokenView)
    requires
        written_at(ts, i, seq![token]),
    ensures
        token_at(ts, i) == token,
{
    reveal(written_at);
    let w = seq![token];
    assert(w[0] == token);
}

/// Of tokens that are written at a position, the first is the token at that
/// position, and the others stand behind it.
pub proof fn lemma_written_first(ts: Seq<TokenView>, i: int, token: TokenView, rest: Seq<TokenView>)
    requires
        written_at(ts, i, seq![token] + rest),
    ensures
        token_at(ts, i) == token,
        written_at(ts, i + 1, rest),
{
    lemma_written_parts(ts, i, seq![token], rest);
    lemma_written_token(ts, i, token);
}

/// Of tokens that are written at a position, the last is the token at its
/// position, and the others stand before it.
pub proof fn lemma_written_last(ts: Seq<TokenView>, i: int, front: Seq<TokenView>, token: TokenView)
    requires
        written_at(ts, i, front + seq![token]),
    ensures
        token_at(ts, i + front.len()) == token,
        written_at(ts, i, front),
{
    lemma_written_parts(ts, i, front, seq![token]);
    lemma_written_token(ts, i + front.len(), token);
}

/// The first of the tokens that are written at a position is the token at
/// that position.
pub proof fn lemma_written_head(ts: Seq<TokenView>, i: int, w: Seq<TokenView>)
    requires
        written_at(ts, i, w),
        w.len() > 0,
    ensures
        token_at(ts, i) == w[0],
{
    reveal(written_at);
}

/// The kinds of token that an expression can start with.
pub open spec fn starts_expression(kind: TokenType) -> bool {
    kind == TokenType::INT || kind == TokenType::TRUE || kind == TokenType::FALSE || kind
        == TokenType::IDENT || kind == TokenType::BANG || kind == TokenType::MINUS || kind
        == TokenType::LPAREN || kind == TokenType::IF
}

/// What may follow an operand: anything but `(`, which would make a call of
/// an identifier, and `else`, which would belong to a conditional.
pub open spec fn ends_operand(kind: TokenType) -> bool {
    kind != TokenType::LPAREN && kind != TokenType::ELSE
}

/// What may follow an expression: what may follow an operand, but no binary
/// operator, which would take the expression as its left operand.
pub open spec fn ends_expression(kind: TokenType) -> bool {
    ends_operand(kind) && !is_operator(kind)
}

/// An expression is written with at least one token, and the first is one
/// that starts an expression.
pub proof fn lemma_first_token(e: ExpressionView)
    requires
        writable(e),
    ensures
        spell(e).len() > 0,
        starts_expression(spell(e)[0].t),
        spell_operand(e).len() > 0,
        starts_expression(spell_operand(e)[0].t),
    decreases e,
{
    match e {
        ExpressionView::Infix { left, operator, right } => {
            lemma_first_token(*left);
        },
        _ => {},
    }
}

/// A literal or an identifier is read back as a primary expression.
pub proof fn lemma_reads_leaf(g: Grammar, ts: Seq<TokenView>, i: int, e: ExpressionView)
    requires
        writable(e),
        e is IntegerLiteral || e is BooleanLiteral || e is Identifier,
        written_at(ts, i, spell(e)),
        ends_operand(kind_at(ts, i + spell(e).len())),
    ensures
        primary_at(g, ts, i) == accept(e, spell(e).len()),
{
    lemma_written_head(ts, i, spell(e));
    match e {
        ExpressionView::IntegerLiteral(n) => {
            lemma_decimal_round_trip(n as int);
            assert(literal_value(decimal_digits(n as int)) == Some(n));
            assert(integer_literal_at(ts, i) == accept(e, 1));
        },
        ExpressionView::BooleanLiteral(b) => {
            assert(boolean_literal_at(ts, i) == accept(e, 1));
        },
        ExpressionView::Identifier(name) => {
            assert(identifier_at(ts, i) == accept(e, 1));
        },
        _ => {},
    }
}

/// A unary operation is read back as a primary expression.
pub proof fn lemma_reads_prefix(g: Grammar, ts: Seq<TokenView>, i: int, e: ExpressionView)
    requires
        writable(e),
        e is Prefix,
        written_at(ts, i, spell(e)),
        ends_operand(kind_at(ts, i + spell(e).len())),
    ensures
        primary_at(g, ts, i) == accept(e, spell(e).len()),
    decreases e, 0nat,
{
    let operator = e->Prefix_operator;
    let operand = *e->operand;
    let token = TokenView { t: prefix_kind(operator)->0, literal: operator };
    lemma_written_first(ts, i, token, spell_operand(operand));
    lemma_reads_operand(g, ts, i + 1, operand);
    assert(prefix_at(g, ts, i) == accept(e, 1 + spell_operand(operand).len()));
}

/// The tokens from `else` to the end of a conditional, if it has a second
/// block.
pub open spec fn spell_alternative(alternative: Option<Seq<StatementView>>) -> Seq<TokenView> {
    match alternative {
        Some(block) => seq![symbol(TokenType::ELSE)] + (seq![symbol(TokenType::LBRACE)]
            + spell_block(block)),
        None => Seq::empty(),
    }
}

/// A conditional is read back as a primary expression.
pub proof fn lemma_reads_conditional(g: Grammar, ts: Seq<TokenView>, i: int, e: ExpressionView)
    requires
        writable(e),
        e is Conditional,
        written_at(ts, i, spell(e)),
        ends_operand(kind_at(ts, i + spell(e).len())),
    ensures
        primary_at(g, ts, i) == accept(e, spell(e).len()),
    decreases e, 0nat,
{
    let condition = *e->condition;
    let consequence = e->consequence;
    let alternative = e->alternative;
    let cond = spell(condition);
    let first = spell_block(consequence);
    let tail = spell_alternative(alternative);
    lemma_written_first(
        ts,
        i,
        symbol(TokenType::IF),
        cond + (seq![symbol(TokenType::LBRACE)] + (first + tail)),
    );
    lemma_written_parts(ts, i + 1, cond, seq![symbol(TokenType::LBRACE)] + (first + tail));
    let at_open = i + 1 + cond.len();
    lemma_written_first(ts, at_open, symbol(TokenType::LBRACE), first + tail);
    lemma_written_parts(ts, at_open + 1, first, tail);
    lemma_reads_expression(g, ts, i + 1, condition);
    lemma_reads_block(g, ts, at_open + 1, consequence);
    let behind = at_open + 1 + first.len();
    match alternative {
        Some(block) => {
            let second = spell_block(block);
            lemma_written_first(
                ts,
                behind,
                symbol(TokenType::ELSE),
                seq![symbol(TokenType::LBRACE)] + second,
            );
            lemma_written_first(ts, behind + 1, symbol(TokenType::LBRACE), second);
            lemma_reads_block(g, ts, behind + 2, block);
            lemma_conditional_with_alternative(
                g,
                ts,
                i,
                condition,
                cond.len(),
                consequence,
                first.len(),
                block,
                second.len(),
            );
        },
        None => {
            lemma_conditional_without_alternative(
                g,
                ts,
                i,
                condition,
                cond.len(),
                consequence,
                first.len(),
            );
        },
    }
}

/// An expression that is no binary operation is read back as a primary
/// expression.
pub proof fn lemma_reads_plain(g: Grammar, ts: Seq<TokenView>, i: int, e: ExpressionView)
    requires
        writable(e),
        !(e is Infix),
        written_at(ts, i, spell(e)),
        ends_operand(kind_at(ts, i + spell(e).len())),
    ensures
        primary_at(g, ts, i) == accept(e, spell(e).len()),
    decreases e, 1nat,
{
    if e is Prefix {
        lemma_reads_prefix(g, ts, i, e);
    } else if e is Conditional {
        lemma_reads_conditional(g, ts, i, e);
    } else {
        lemma_reads_leaf(g, ts, i, e);
    }
}

/// A binary operation is read back, at the outermost level of precedence,
/// where no binary operator follows it.
pub proof fn lemma_reads_infix(g: Grammar, ts: Seq<TokenView>, i: int, e: ExpressionView)
    requires
        writable(e),
        e is Infix,
        written_at(ts, i, spell(e)),
        ends_expression(kind_at(ts, i + spell(e).len())),
    ensures
        expression_at(g, ts, i, 1) == accept(e, spell(e).len()),
    decreases e, 0nat,
{
    let n = spell(e).len() as int;
    let left = *e->left;
    let right = *e->right;
    let operator = e->Infix_operator;
    let l = spell_operand(left);
    let r = spell_operand(right);
    let token = TokenView { t: operator_kind(operator)->0, literal: operator };
    lemma_written_parts(ts, i, l, seq![token] + r);
    lemma_written_first(ts, i + l.len(), token, r);
    assert(is_operator(token.t));
    lemma_reads_operand(g, ts, i, left);
    lemma_reads_operand(g, ts, i + l.len() + 1, right);
    let level = precedence(g, token.t);
    assert(level >= 1);
    lemma_single_operand(g, ts, i + l.len() + 1, level + 1);
    assert(continues_at(g, ts, i + l.len(), 1));
    assert(!continues_at(g, ts, i + n, 1));
    assert(climb_at(g, ts, i + n, 1, e) == accept(e, 0));
    assert(climb_at(g, ts, i + l.len(), 1, left) == accept(e, (1 + r.len()) as nat));
}

/// An expression is read back, at the outermost level of precedence, where
/// no binary operator follows it.
pub proof fn lemma_reads_expression(g: Grammar, ts: Seq<TokenView>, i: int, e: ExpressionView)
    requires
        writable(e),
        written_at(ts, i, spell(e)),
        ends_expression(kind_at(ts, i + spell(e).len())),
    ensures
        expression_at(g, ts, i, 1) == accept(e, spell(e).len()),
    decreases e, 2nat,
{
    if e is Infix {
        lemma_reads_infix(g, ts, i, e);
    } else {
        lemma_reads_plain(g, ts, i, e);
        assert(!continues_at(g, ts, i + spell(e).len(), 1));
    }
}

/// An operand is read back as a primary expression.
pub proof fn lemma_reads_operand(g: Grammar, ts: Seq<TokenView>, i: int, e: ExpressionView)
    requires
        writable(e),
        written_at(ts, i, spell_operand(e)),
        ends_operand(kind_at(ts, i + spell_operand(e).len())),
    ensures
        primary_at(g, ts, i) == accept(e, spell_operand(e).len()),
    decreases e, 3nat,
{
    if e is Infix {
        lemma_written_first(
            ts,
            i,
            symbol(TokenType::LPAREN),
            spell(e) + seq![symbol(TokenType::RPAREN)],
        );
        lemma_written_last(ts, i + 1, spell(e), symbol(TokenType::RPAREN));
        lemma_reads_expression(g, ts, i + 1, e);
        assert(grouped_at(g, ts, i) == accept(e, spell_operand(e).len()));
    } else {
        lemma_reads_plain(g, ts, i, e);
    }
}

/// A `let` statement is read back.
pub proof fn lemma_reads_let(g: Grammar, ts: Seq<TokenView>, i: int, s: StatementView)
    requires
        writable_statement(s),
        s is Let,
        written_at(ts, i, spell_statement(s)),
    ensures
        statement_at(g, ts, i) == accept(s, spell_statement(s).len()),
    decreases s, 0nat,
{
    let name = s->name;
    let value = s->Let_value;
    let id = TokenView { t: TokenType::IDENT, literal: name };
    let end = seq![symbol(TokenType::SEMICOLON)];
    lemma_written_first(
        ts,
        i,
        symbol(TokenType::LET),
        seq![id] + (seq![symbol(TokenType::ASSIGN)] + (spell(value) + end)),
    );
    lemma_written_first(ts, i + 1, id, seq![symbol(TokenType::ASSIGN)] + (spell(value) + end));
    lemma_written_first(ts, i + 2, symbol(TokenType::ASSIGN), spell(value) + end);
    lemma_written_last(ts, i + 3, spell(value), symbol(TokenType::SEMICOLON));
    lemma_reads_expression(g, ts, i + 3, value);
    lemma_let_statement(g, ts, i, value, spell(value).len());
}

/// A return statement is read back.
pub proof fn lemma_reads_return(g: Grammar, ts: Seq<TokenView>, i: int, s: StatementView)
    requires
        writable_statement(s),
        s is Return,
        written_at(ts, i, spell_statement(s)),
    ensures
        statement_at(g, ts, i) == accept(s, spell_statement(s).len()),
    decreases s, 0nat,
{
    let value = s->Return_value;
    let end = seq![symbol(TokenType::SEMICOLON)];
    lemma_written_first(ts, i, symbol(TokenType::RETURN), spell(value) + end);
    lemma_written_last(ts, i + 1, spell(value), symbol(TokenType::SEMICOLON));
    lemma_reads_expression(g, ts, i + 1, value);
    lemma_return_statement(g, ts, i, value, spell(value).len());
}

/// An expression that stands as a statement is read back.
pub proof fn lemma_reads_expression_statement(
    g: Grammar,
    ts: Seq<TokenView>,
    i: int,
    s: StatementView,
)
    requires
        writable_statement(s),
        s is ExpressionStatement,
        written_at(ts, i, spell_statement(s)),
    ensures
        statement_at(g, ts, i) == accept(s, spell_statement(s).len()),
    decreases s, 0nat,
{
    let value = s->ExpressionStatement_value;
    lemma_written_last(ts, i, spell(value), symbol(TokenType::SEMICOLON));
    lemma_first_token(value);
    lemma_written_head(ts, i, spell(value));
    lemma_reads_expression(g, ts, i, value);
    lemma_expression_statement(g, ts, i, value, spell(value).len());
}

/// A statement is read back.
pub proof fn lemma_reads_statement(g: Grammar, ts: Seq<TokenView>, i: int, s: StatementView)
    requires
        writable_statement(s),
        written_at(ts, i, spell_statement(s)),
    ensures
        statement_at(g, ts, i) == accept(s, spell_statement(s).len()),
    decreases s, 1nat,
{
    match s {
        StatementView::Let { .. } => lemma_reads_let(g, ts, i, s),
        StatementView::Return { .. } => lemma_reads_return(g, ts, i, s),
        StatementView::ExpressionStatement { .. } => lemma_reads_expression_statement(g, ts, i, s),
    }
}

/// A statement is written with at least one token, and the first is none
/// that ends a block or stands between statements.
pub proof fn lemma_first_token_of_statement(s: StatementView)
    requires
        writable_statement(s),
    ensures
        spell_statement(s).len() > 0,
        spell_statement(s)[0].t != TokenType::RBRACE,
        spell_statement(s)[0].t != TokenType::SEMICOLON,
        spell_statement(s)[0].t != TokenType::EOF,
{
    match s {
        StatementView::ExpressionStatement { value } => {
            lemma_first_token(value);
        },
        _ => {},
    }
}

/// A block that starts with a statement is read back, if the statement and
/// the rest of the block are.
proof fn lemma_reads_longer_block(
    g: Grammar,
    ts: Seq<TokenView>,
    i: int,
    b: Seq<StatementView>,
    ns: nat,
    nr: nat,
)
    requires
        b.len() > 0,
        kind_at(ts, i) != TokenType::RBRACE,
        kind_at(ts, i) != TokenType::EOF,
        kind_at(ts, i) != TokenType::SEMICOLON,
        statement_at(g, ts, i) == accept(b[0], ns),
        block_at(g, ts, i + ns) == accept(b.drop_first(), nr),
    ensures
        block_at(g, ts, i) == accept(b, ns + nr),
{
    lemma_block_statement(g, ts, i, b[0], ns, b.drop_first(), nr);
    assert(seq![b[0]] + b.drop_first() =~= b);
}

/// The statements of a block and its `}` are read back as the block.
pub proof fn lemma_reads_block(g: Grammar, ts: Seq<TokenView>, i: int, b: Seq<StatementView>)
    requires
        writable_block(b),
        written_at(ts, i, spell_block(b)),
    ensures
        block_at(g, ts, i) == accept(b, spell_block(b).len()),
    decreases b, 0nat,
{
    if b.len() == 0 {
        lemma_written_token(ts, i, symbol(TokenType::RBRACE));
        assert(b =~= Seq::<StatementView>::empty());
    } else {
        let first = spell_statement(b[0]);
        let rest = spell_block(b.drop_first());
        lemma_written_parts(ts, i, first, rest);
        lemma_first_token_of_statement(b[0]);
        lemma_written_head(ts, i, first);
        lemma_reads_statement(g, ts, i, b[0]);
        lemma_reads_block(g, ts, i + first.len(), b.drop_first());
        lemma_reads_longer_block(g, ts, i, b, first.len(), rest.len());
    }
}

/// Tokens stand in themselves, from the start.
pub proof fn lemma_written_whole(ts: Seq<TokenView>)
    ensures
        written_at(ts, 0, ts),
{
    reveal(written_at);
}

/// A statement that is written at a position of a program joins what has
/// been read before, and the program goes on behind it.
proof fn lemma_program_reads_statement(
    g: Grammar,
    ts: Seq<TokenView>,
    i: int,
    s: StatementView,
    read: ProgramOutcome,
)
    requires
        writable_statement(s),
        written_at(ts, i, spell_statement(s)),
    ensures
        program_from(g, ts, i, read) == program_from(
            g,
            ts,
            i + spell_statement(s).len(),
            with_statement(read, s),
        ),
{
    lemma_first_token_of_statement(s);
    lemma_written_head(ts, i, spell_statement(s));
    lemma_reads_statement(g, ts, i, s);
    lemma_program_unfold(g, ts, i, read);
}

/// The statements of a program that reach to the end of the tokens join
/// what has been read before, and no diagnostic is given.
pub proof fn lemma_reads_program_from(
    g: Grammar,
    ts: Seq<TokenView>,
    i: int,
    b: Seq<StatementView>,
    read: ProgramOutcome,
)
    requires
        writable_block(b),
        written_at(ts, i, spell_program(b)),
        i + spell_program(b).len() == ts.len(),
    ensures
        program_from(g, ts, i, read) == (ProgramOutcome {
            statements: read.statements + b,
            diagnostics: read.diagnostics,
        }),
    decreases b,
{
    if b.len() == 0 {
        lemma_program_end(g, ts, i, read);
        assert(read.statements + b =~= read.statements);
    } else {
        let first = spell_statement(b[0]);
        let rest = b.drop_first();
        lemma_written_parts(ts, i, first, spell_program(rest));
        lemma_program_reads_statement(g, ts, i, b[0], read);
        let more = with_statement(read, b[0]);
        lemma_reads_program_from(g, ts, i + first.len(), rest, more);
        assert(more.statements + rest =~= read.statements + b);
    }
}

/// The round trip: a program that is written down is read back as it was,
/// statement for statement, with no diagnostic, under either grammar.
pub proof fn lemma_reads_program(g: Grammar, b: Seq<StatementView>)
    requires
        writable_block(b),
    ensures
        program_at(g, spell_program(b), 0) == (ProgramOutcome {
            statements: b,
            diagnostics: Seq::empty(),
        }),
{
    lemma_written_whole(spell_program(b));
    lemma_reads_program_from(g, spell_program(b), 0, b, nothing_read());
    assert(nothing_read().statements + b =~= b);
}

/// The round trip of a number: the decimal text of a number that is not
/// negative is one integer token with that text, and the program read from
/// it is that number, as its one statement.
pub proof fn lemma_reads_number(g: Grammar, n: i64)
    requires
        n >= 0,
    ensures
        tokenize(decimal_digits(n as int)) == seq![
            TokenView { t: TokenType::INT, literal: decimal_digits(n as int) },
        ],
        program_at(g, tokenize(decimal_digits(n as int)), 0) == (ProgramOutcome {
            statements: seq![
                StatementView::ExpressionStatement { value: ExpressionView::IntegerLiteral(n) },
            ],
            diagnostics: Seq::empty(),
        }),
{
    let text = decimal_digits(n as int);
    let ts = tokenize(text);
    let e = ExpressionView::IntegerLiteral(n);
    let s = StatementView::ExpressionStatement { value: e };
    lemma_decimal_round_trip(n as int);
    lemma_digits_round_trip(text);
    assert(ts =~= spell(e));
    lemma_written_whole(ts);
    lemma_reads_expression(g, ts, 0, e);
    assert(statement_at(g, ts, 0) == accept(s, 1)) by {
        assert(expression_statement_at(g, ts, 0) == accept(s, 1));
    }
    lemma_program_unfold(g, ts, 0, nothing_read());
    lemma_program_end(g, ts, 1, with_statement(nothing_read(), s));
    assert(with_statement(nothing_read(), s).statements =~= seq![s]);
}

/// A token whose kind is an operator carries the text of that operator.
pub open spec fn carries_its_text(token: TokenView) -> bool {
    &&& is_operator(token.t) ==> operator_kind(token.literal) == Some(token.t)
    &&& token.t == TokenType::BANG || token.t == TokenType::MINUS ==> prefix_kind(token.literal)
        == Some(token.t)
}

/// Tokens of which each operator carries its text: the tokens of any text
/// are such (`lemma_tokens_carry_their_text`).
pub open spec fn carry_their_text(ts: Seq<TokenView>) -> bool {
    forall|k: int| 0 <= k < ts.len() ==> carries_its_text(#[trigger] ts[k])
}

/// The texts of two operators differ.
proof fn lemma_operator_texts()
    ensures
        "+"@ == seq!['+'],
        "-"@ == seq!['-'],
        "*"@ == seq!['*'],
        "/"@ == seq!['/'],
        ">"@ == seq!['>'],
        "<"@ == seq!['<'],
        "!"@ == seq!['!'],
        "=="@ == seq!['=', '='],
        "!="@ == seq!['!', '='],
{
    reveal_strlit("+");
    reveal_strlit("-");
    reveal_strlit("*");
    reveal_strlit("/");
    reveal_strlit(">");
    reveal_strlit("<");
    reveal_strlit("==");
    reveal_strlit("!=");
    reveal_strlit("!");
    assert("+"@ =~= seq!['+']);
    assert("-"@ =~= seq!['-']);
    assert("*"@ =~= seq!['*']);
    assert("/"@ =~= seq!['/']);
    assert(">"@ =~= seq!['>']);
    assert("<"@ =~= seq!['<']);
    assert("!"@ =~= seq!['!']);
    assert("=="@ =~= seq!['=', '=']);
    assert("!="@ =~= seq!['!', '=']);
}

/// The operator that a text of one character is, by that character.
proof fn lemma_operator_of_one(c: char)
    ensures
        operator_kind(seq![c]) == (if c == '+' {
            Some(TokenType::PLUS)
        } else if c == '-' {
            Some(TokenType::MINUS)
        } else if c == '*' {
            Some(TokenType::STAR)
        } else if c == '/' {
            Some(TokenType::SLASH)
        } else if c == '>' {
            Some(TokenType::GT)
        } else if c == '<' {
            Some(TokenType::LT)
        } else {
            None
        }),
        prefix_kind(seq![c]) == (if c == '!' {
            Some(TokenType::BANG)
        } else if c == '-' {
            Some(TokenType::MINUS)
        } else {
            None
        }),
{
    lemma_operator_texts();
    let text = seq![c];
    assert(text[0] == c);
    assert(seq!['+'][0] == '+');
    assert(seq!['-'][0] == '-');
    assert(seq!['*'][0] == '*');
    assert(seq!['/'][0] == '/');
    assert(seq!['>'][0] == '>');
    assert(seq!['<'][0] == '<');
    assert(seq!['!'][0] == '!');
    assert(seq!['=', '='].len() == 2);
    assert(seq!['!', '='].len() == 2);
}

/// The operator that a text of two characters is, by those characters.
proof fn lemma_operator_of_two(c: char, d: char)
    ensures
        operator_kind(seq![c, d]) == (if c == '=' && d == '=' {
            Some(TokenType::EQ)
        } else if c == '!' && d == '=' {
            Some(TokenType::NEQ)
        } else {
            None
        }),
{
    lemma_operator_texts();
    let text = seq![c, d];
    assert(text[0] == c && text[1] == d && text.len() == 2);
    assert(seq!['=', '='][0] == '=' && seq!['=', '='][1] == '=');
    assert(seq!['!', '='][0] == '!' && seq!['!', '='][1] == '=');
    assert(seq!['+'].len() == 1);
    assert(seq!['-'].len() == 1);
    assert(seq!['*'].len() == 1);
    assert(seq!['/'].len() == 1);
    assert(seq!['>'].len() == 1);
    assert(seq!['<'].len() == 1);
    if c == '=' && d == '=' {
        assert(text =~= seq!['=', '=']);
    }
    if c == '!' && d == '=' {
        assert(text =~= seq!['!', '=']);
    }
}

/// The token that the lexer reads carries its text, if it is an operator.
pub proof fn lemma_token_carries_its_text(s: Seq<char>, i: int)
    requires
        0 <= i <= s.len(),
    ensures
        carries_its_text(lexeme_at(s, i).token),
{
    lemma_run_end(s, CharClass::Space, i);
    let start = run_end(s, CharClass::Space, i);
    let token = lexeme_at(s, i).token;
    if 0 <= start < s.len() {
        lemma_run_end(s, CharClass::Word, start);
        lemma_keyword_kind_range(s.subrange(start, run_end(s, CharClass::Word, start)));
        if is_operator(token.t) || token.t == TokenType::BANG {
            if token.t == TokenType::EQ || token.t == TokenType::NEQ {
                assert(token.literal =~= seq![s[start], s[start + 1]]);
                lemma_operator_of_two(s[start], s[start + 1]);
            } else {
                assert(token.literal =~= seq![s[start]]);
                lemma_operator_of_one(s[start]);
            }
        }
    }
}

/// In the tokens of a text every operator carries its text.
pub proof fn lemma_tokens_carry_their_text(s: Seq<char>, i: int)
    requires
        0 <= i <= s.len(),
    ensures
        carry_their_text(tokens_from(s, i)),
    decreases s.len() - i,
{
    lemma_lexeme_advances(s, i);
    if !at_end(s, i) {
        lemma_token_carries_its_text(s, i);
        lemma_tokens_carry_their_text(s, lexeme_at(s, i).end);
        let rest = tokens_from(s, lexeme_at(s, i).end);
        assert forall|k: int| 0 <= k < tokens_from(s, i).len() implies carries_its_text(
            #[trigger] tokens_from(s, i)[k],
        ) by {
            if k > 0 {
                assert(tokens_from(s, i)[k] == rest[k - 1]);
            }
        }
    }
}

/// A block that can be written down, with one more such statement at its
/// end, can be written down.
pub proof fn lemma_writable_push(b: Seq<StatementView>, s: StatementView)
    requires
        writable_block(b),
        writable_statement(s),
    ensures
        writable_block(b.push(s)),
    decreases b.len(),
{
    let longer = b.push(s);
    if b.len() == 0 {
        assert(longer[0] == s);
        assert(longer.drop_first() =~= b);
    } else {
        lemma_writable_push(b.drop_first(), s);
        assert(longer[0] == b[0]);
        assert(longer.drop_first() =~= b.drop_first().push(s));
    }
}

/// A primary expression that was read can be written down.
pub proof fn lemma_primary_is_writable(g: Grammar, ts: Seq<TokenView>, i: int)
    requires
        carry_their_text(ts),
    ensures
        primary_at(g, ts, i).value matches Ok(e) ==> writable(e),
    decreases remaining(ts, i), 1nat,
{
    let kind = kind_at(ts, i);
    if kind == TokenType::IF {
        lemma_conditional_is_writable(g, ts, i);
    } else if kind == TokenType::INT {
        let literal = token_at(ts, i).literal;
        if literal_value(literal) is Some {
            lemma_decimal_value_nonnegative(literal);
        }
        assert(integer_literal_at(ts, i).value matches Ok(e) ==> writable(e));
    } else if kind == TokenType::BANG || kind == TokenType::MINUS {
        lemma_primary_is_writable(g, ts, i + 1);
        assert(carries_its_text(ts[i]));
        assert(prefix_at(g, ts, i).value matches Ok(e) ==> writable(e));
    } else if kind == TokenType::LPAREN {
        lemma_expression_is_writable(g, ts, i + 1, 1);
        assert(grouped_at(g, ts, i).value matches Ok(e) ==> writable(e));
    } else if kind == TokenType::IDENT {
        assert(identifier_at(ts, i).value matches Ok(e) ==> writable(e));
    } else if kind == TokenType::TRUE || kind == TokenType::FALSE {
        assert(boolean_literal_at(ts, i).value matches Ok(e) ==> writable(e));
    }
}

/// The binary operations that were read behind an operand that can be
/// written down can be written down with it.
pub proof fn lemma_climb_is_writable(
    g: Grammar,
    ts: Seq<TokenView>,
    i: int,
    min: nat,
    left: ExpressionView,
)
    requires
        carry_their_text(ts),
        writable(left),
    ensures
        climb_at(g, ts, i, min, left).value matches Ok(e) ==> writable(e),
    decreases remaining(ts, i), 2nat,
{
    if continues_at(g, ts, i, min) {
        let level = precedence(g, kind_at(ts, i)) + 1;
        lemma_expression_is_writable(g, ts, i + 1, level as nat);
        let right = expression_at(g, ts, i + 1, level as nat);
        if let Ok(r) = right.value {
            let folded = ExpressionView::Infix {
                left: Box::new(left),
                operator: token_at(ts, i).literal,
                right: Box::new(r),
            };
            assert(carries_its_text(ts[i]));
            assert(writable(folded));
            lemma_climb_is_writable(g, ts, i + 1 + right.consumed, min, folded);
        }
    }
}

/// An expression that was read can be written down.
pub proof fn lemma_expression_is_writable(g: Grammar, ts: Seq<TokenView>, i: int, min: nat)
    requires
        carry_their_text(ts),
    ensures
        expression_at(g, ts, i, min).value matches Ok(e) ==> writable(e),
    decreases remaining(ts, i), 3nat,
{
    lemma_primary_is_writable(g, ts, i);
    let first = primary_at(g, ts, i);
    if let Ok(left) = first.value {
        lemma_climb_is_writable(g, ts, i + first.consumed, min, left);
    }
}

/// A conditional that was read can be written down.
pub proof fn lemma_conditional_is_writable(g: Grammar, ts: Seq<TokenView>, i: int)
    requires
        carry_their_text(ts),
    ensures
        conditional_at(g, ts, i).value matches Ok(e) ==> writable(e),
    decreases remaining(ts, i), 0nat,
{
    if kind_at(ts, i) == TokenType::IF {
        lemma_expression_is_writable(g, ts, i + 1, 1);
        let c = condition_at(g, ts, i + 1);
        let open = i + 1 + c.consumed;
        if c.value is Ok && kind_at(ts, open) == TokenType::LBRACE {
            lemma_block_is_writable(g, ts, open + 1);
            let first = block_at(g, ts, open + 1);
            let behind = open + 1 + first.consumed;
            if first.value is Ok && kind_at(ts, behind) == TokenType::ELSE && kind_at(
                ts,
                behind + 1,
            ) == TokenType::LBRACE {
                lemma_block_is_writable(g, ts, behind + 2);
            }
        }
    }
}

/// A statement that was read can be written down.
pub proof fn lemma_statement_is_writable(g: Grammar, ts: Seq<TokenView>, i: int)
    requires
        carry_their_text(ts),
    ensures
        statement_at(g, ts, i).value matches Ok(s) ==> writable_statement(s),
    decreases remaining(ts, i), 6nat,
{
    let kind = kind_at(ts, i);
    if kind == TokenType::LET {
        if kind_at(ts, i + 1) == TokenType::IDENT && kind_at(ts, i + 2) == TokenType::ASSIGN {
            lemma_expression_is_writable(g, ts, i + 3, 1);
        }
        assert(let_statement_at(g, ts, i).value matches Ok(s) ==> writable_statement(s));
    } else if kind == TokenType::RETURN {
        lemma_expression_is_writable(g, ts, i + 1, 1);
        assert(return_statement_at(g, ts, i).value matches Ok(s) ==> writable_statement(s));
    } else {
        lemma_expression_is_writable(g, ts, i, 1);
        assert(expression_statement_at(g, ts, i).value matches Ok(s) ==> writable_statement(s));
    }
}

/// A block that was read can be written down.
pub proof fn lemma_block_is_writable(g: Grammar, ts: Seq<TokenView>, i: int)
    requires
        carry_their_text(ts),
    ensures
        block_at(g, ts, i).value matches Ok(b) ==> writable_block(b),
    decreases remaining(ts, i), 7nat,
{
    let kind = kind_at(ts, i);
    if kind == TokenType::RBRACE || kind == TokenType::EOF {
    } else if kind == TokenType::SEMICOLON {
        lemma_block_is_writable(g, ts, i + 1);
    } else {
        lemma_statement_is_writable(g, ts, i);
        let s = statement_at(g, ts, i);
        if let Ok(statement) = s.value {
            if s.consumed > 0 {
                lemma_block_is_writable(g, ts, i + s.consumed);
                if let Ok(more) = block_at(g, ts, i + s.consumed).value {
                    let b = seq![statement] + more;
                    assert(b[0] == statement);
                    assert(b.drop_first() =~= more);
                }
            }
        }
    }
}

/// The statements of a program that was read can be written down, if those
/// read before can.
pub proof fn lemma_program_is_writable(
    g: Grammar,
    ts: Seq<TokenView>,
    i: int,
    read: ProgramOutcome,
)
    requires
        carry_their_text(ts),
        writable_block(read.statements),
    ensures
        writable_block(program_from(g, ts, i, read).statements),
    decreases remaining(ts, i),
{
    let kind = kind_at(ts, i);
    if kind == TokenType::EOF {
        lemma_program_end(g, ts, i, read);
    } else if kind == TokenType::SEMICOLON {
        lemma_program_skip(g, ts, i, read);
        lemma_program_is_writable(g, ts, i + 1, read);
    } else {
        lemma_program_unfold(g, ts, i, read);
        lemma_statement_is_writable(g, ts, i);
        match statement_at(g, ts, i).value {
            Ok(statement) => {
                lemma_writable_push(read.statements, statement);
                lemma_program_is_writable(g, ts, resume_at(g, ts, i), with_statement(read, statement));
            },
            Err(error) => {
                lemma_program_is_writable(g, ts, resume_at(g, ts, i), with_diagnostic(read, error));
            },
        }
    }
}

/// Reading is stable: the statements that were read from a text, written
/// down, are read back as they are, with no diagnostic, under either
/// grammar, whatever the text was.
pub proof fn lemma_reading_is_stable(g: Grammar, text: Seq<char>)
    ensures
        program_at(g, spell_program(program_at(g, tokenize(text), 0).statements), 0) == (
        ProgramOutcome {
            statements: program_at(g, tokenize(text), 0).statements,
            diagnostics: Seq::empty(),
        }),
{
    lemma_tokens_carry_their_text(text, 0);
    lemma_program_is_writable(g, tokenize(text), 0, nothing_read());
    lemma_reads_program(g, program_at(g, tokenize(text), 0).statements);
}

} // verus!

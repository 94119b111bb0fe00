//! The parser: reads the tokens of a lexer and builds the syntax tree.

use vstd::prelude::*;
use crate::ast::{
    Expression, ExpressionStatement, ExpressionView, lemma_statements_view,
    lemma_statements_view_push, LetStatement, Program, ReturnStatement, Statement, statements_view,
    StatementView,
};
use crate::decimal::parse_decimal;
use crate::diagnostic::{
    Diagnostic, diagnostics_view, DiagnosticView, Expected, ParseError, ParseErrorView,
};
use crate::grammar::{
    block_at, boolean_literal_at, boundary_at, climb_at, condition_at, conditional_at,
    continues_at, expression_at, expression_statement_at, Grammar, grouped_at, identifier_at,
    infix_at, integer_literal_at, is_condition, is_operator, kind_at, lemma_nesting_bound,
    lemma_program_end, lemma_program_skip, lemma_program_unfold, lemma_statement_consumes,
    let_statement_at, nesting, Parsed, precedence, prefix_at, primary_at, program_at, program_from,
    ProgramOutcome, remaining, resume_at, return_statement_at, starts_statement, statement_at,
    token_at,
};
use crate::lexer::{lemma_tokens_len, lemma_tokens_unfold, Lexer, tokens_from};
use crate::token::{same_text, Token, TokenType, TokenView};

verus! {

/// The tokens of `ts` from position `k` on; none if there are fewer.
spec fn tokens_behind(ts: Seq<TokenView>, k: int) -> Seq<TokenView> {
    if 0 <= k <= ts.len() {
        ts.skip(k)
    } else {
        Seq::empty()
    }
}

/// The mathematical value of what reading an expression gave.
pub open spec fn expression_result(outcome: Result<Expression, ParseError>) -> Result<
    ExpressionView,
    ParseErrorView,
> {
    match outcome {
        Ok(e) => Ok(e@),
        Err(error) => Err(error@),
    }
}

/// The mathematical value of what reading a statement gave.
pub open spec fn statement_result(outcome: Result<Statement, ParseError>) -> Result<
    StatementView,
    ParseErrorView,
> {
    match outcome {
        Ok(s) => Ok(s@),
        Err(error) => Err(error@),
    }
}

/// The mathematical value of what reading a block gave.
pub open spec fn block_result(outcome: Result<Vec<Statement>, ParseError>) -> Result<
    Seq<StatementView>,
    ParseErrorView,
> {
    match outcome {
        Ok(block) => Ok(statements_view(block@)),
        Err(error) => Err(error@),
    }
}

/// A parser over the tokens of a lexer, with two tokens of lookahead.
pub struct Parser {
    lexer: Lexer,
    current_token: Token,
    peek_token: Token,
    grammar: Grammar,
    diagnostics: Vec<Diagnostic>,
    depth: usize,
    tokens: Ghost<Seq<TokenView>>,
    position: Ghost<int>,
    origin: Ghost<int>,
}

impl Parser {
    /// The tokens that the parser works on: those that its lexer had still to
    /// give when the parser was made, without the end marker.
    pub closed spec fn tokens(&self) -> Seq<TokenView> {
        self.tokens@
    }

    /// The position of the current token among `tokens`.
    pub closed spec fn position(&self) -> int {
        self.position@
    }

    /// The position at which the statement in work starts.
    pub closed spec fn origin(&self) -> int {
        self.origin@
    }

    /// How deep inside the braces of the statement in work the parser
    /// stands.
    pub open spec fn depth(&self) -> nat {
        nesting(self.tokens(), self.origin(), (self.position() - self.origin()) as nat)
    }

    /// How binary operators group.
    pub closed spec fn grammar(&self) -> Grammar {
        self.grammar
    }

    /// The diagnostics collected so far.
    pub closed spec fn reported(&self) -> Seq<DiagnosticView> {
        diagnostics_view(self.diagnostics@)
    }

    /// The lexer stands behind the two tokens of lookahead: what it has
    /// still to give are the tokens behind them.
    #[verifier::opaque]
    closed spec fn fed(&self) -> bool {
        &&& self.lexer.wf()
        &&& tokens_from(self.lexer.source(), self.lexer.cursor()) == tokens_behind(
            self.tokens@,
            self.position@ + 2,
        )
    }

    /// The invariant of the parser: the current token and the one behind it
    /// are those at the position, the lexer stands behind them, and the
    /// braces that the statement in work has open are counted.
    pub closed spec fn wf(&self) -> bool {
        &&& self.fed()
        &&& 0 <= self.origin@ <= self.position@ <= self.tokens@.len()
        &&& self.depth == nesting(
            self.tokens@,
            self.origin@,
            (self.position@ - self.origin@) as nat,
        )
        &&& self.tokens@.len() <= usize::MAX
        &&& self.current_token@ == token_at(self.tokens@, self.position@)
        &&& self.peek_token@ == token_at(self.tokens@, self.position@ + 1)
    }

    /// The parser is well formed, works on the same tokens and the same
    /// statement with the same grammar as `before`, has reported nothing
    /// since, and stands `consumed` tokens further.
    pub open spec fn advanced(&self, before: Parser, consumed: nat) -> bool {
        &&& self.wf()
        &&& self.tokens() == before.tokens()
        &&& self.origin() == before.origin()
        &&& self.grammar() == before.grammar()
        &&& self.reported() == before.reported()
        &&& self.position() == before.position() + consumed
    }

    /// The parser has done what `parsed` says: it stands behind the tokens
    /// taken, and `value` is what was read.
    pub open spec fn yields<T>(
        &self,
        before: Parser,
        value: Result<T, ParseErrorView>,
        parsed: Parsed<T>,
    ) -> bool {
        self.advanced(before, parsed.consumed) && value == parsed.value
    }

    /// The number of tokens that are left.
    pub open spec fn left(&self) -> nat {
        remaining(self.tokens(), self.position())
    }

    /// The position of a well-formed parser lies inside the tokens or at
    /// their end, and their number is a machine number.
    pub proof fn lemma_position_in_range(&self)
        requires
            self.wf(),
        ensures
            0 <= self.origin() <= self.position() <= self.tokens().len() <= usize::MAX,
    {
    }

    /// A parser for the given grammar: it pulls the first two tokens from the
    /// lexer.
    fn with_grammar(lexer: Lexer, grammar: Grammar) -> (parser: Parser)
        requires
            lexer.wf(),
        ensures
            parser.wf(),
            parser.tokens() == tokens_from(lexer.source(), lexer.cursor()),
            parser.position() == 0,
            parser.origin() == 0,
            parser.grammar() == grammar,
            parser.reported() == Seq::<DiagnosticView>::empty(),
    {
        let mut lexer = lexer;
        let ghost source = lexer.source();
        let ghost start = lexer.cursor();
        let ghost tokens = tokens_from(source, start);
        proof {
            lexer.lemma_cursor_in_range();
            lemma_tokens_unfold(source, start);
            lemma_tokens_len(source, start);
        }
        let current_token = lexer.next_token();
        let ghost middle = lexer.cursor();
        proof {
            lemma_tokens_unfold(source, middle);
        }
        let peek_token = lexer.next_token();
        proof {
            let after_first = tokens_from(source, middle);
            let after_second = tokens_from(source, lexer.cursor());
            if current_token@.t != TokenType::EOF {
                assert(tokens =~= seq![current_token@] + after_first);
                if peek_token@.t != TokenType::EOF {
                    assert(after_first =~= seq![peek_token@] + after_second);
                    assert(tokens.skip(2) =~= after_second);
                } else {
                    assert(tokens.len() == 1);
                }
            }
            assert(after_second =~= tokens_behind(tokens, 2));
        }
        let parser = Parser {
            lexer,
            current_token,
            peek_token,
            grammar,
            diagnostics: Vec::new(),
            depth: 0,
            tokens: Ghost(tokens),
            position: Ghost(0),
            origin: Ghost(0),
        };
        proof {
            reveal(Parser::fed);
        }
        parser
    }

    /// A parser that groups binary operators by precedence, and from the left
    /// among equals. It reads the tokens that `lexer` has still to give.
    pub fn new(lexer: Lexer) -> (parser: Parser)
        requires
            lexer.wf(),
        ensures
            parser.wf(),
            parser.tokens() == tokens_from(lexer.source(), lexer.cursor()),
            parser.position() == 0,
            parser.grammar() == Grammar::PrecedenceClimbing,
            parser.reported() == Seq::<DiagnosticView>::empty(),
    {
        Parser::with_grammar(lexer, Grammar::PrecedenceClimbing)
    }

    /// A parser for which all binary operators have the same precedence and
    /// group from the left. It reads the tokens that `lexer` has still to
    /// give.
    pub fn with_equal_precedence(lexer: Lexer) -> (parser: Parser)
        requires
            lexer.wf(),
        ensures
            parser.wf(),
            parser.tokens() == tokens_from(lexer.source(), lexer.cursor()),
            parser.position() == 0,
            parser.grammar() == Grammar::EqualPrecedence,
            parser.reported() == Seq::<DiagnosticView>::empty(),
    {
        Parser::with_grammar(lexer, Grammar::EqualPrecedence)
    }

    /// Takes one token: the one behind the current token becomes the current
    /// one, and a fresh one is pulled from the lexer. At the end of the
    /// tokens the parser stays where it is.
    fn next_token(&mut self)
        requires
            old(self).wf(),
        ensures
            final(self).advanced(
                *old(self),
                if old(self).position() < old(self).tokens().len() {
                    1nat
                } else {
                    0nat
                },
            ),
    {
        proof {
            reveal(Parser::fed);
            self.lexer.lemma_cursor_in_range();
            lemma_tokens_unfold(self.lexer.source(), self.lexer.cursor());
            lemma_nesting_bound(
                self.tokens@,
                self.origin@,
                (self.position@ - self.origin@) as nat,
            );
        }
        let taken = self.current_token.t;
        let ghost behind = tokens_from(self.lexer.source(), self.lexer.cursor());
        let fresh = self.lexer.next_token();
        proof {
            let ts = self.tokens@;
            let p = self.position@;
            if fresh@.t != TokenType::EOF {
                assert(behind[0] == fresh@);
                assert(behind.skip(1) =~= tokens_from(self.lexer.source(), self.lexer.cursor()));
                assert(ts.skip(p + 2).skip(1) =~= ts.skip(p + 3));
            }
        }
        let mut fresh = fresh;
        std::mem::swap(&mut self.peek_token, &mut fresh);
        self.current_token = fresh;
        if taken == TokenType::LBRACE || taken == TokenType::LPAREN {
            self.depth = self.depth + 1;
        } else if (taken == TokenType::RBRACE || taken == TokenType::RPAREN) && self.depth > 0 {
            self.depth = self.depth - 1;
        }
        proof {
            if self.position@ < self.tokens@.len() {
                self.position = Ghost(self.position@ + 1);
            }
        }
    }

    /// The failure to find `expected` at the current token.
    fn unexpected(&self, expected: Expected) -> (error: ParseError)
        requires
            self.wf(),
        ensures
            error@ == (ParseErrorView {
                expected,
                found: token_at(self.tokens(), self.position()),
            }),
    {
        ParseError { expected, found: self.current_token.clone() }
    }

    /// Whether a token is a binary operator.
    fn is_operator(tok: &Token) -> (yes: bool)
        ensures
            yes == is_operator(tok.t),
    {
        return tok.t == TokenType::PLUS || tok.t == TokenType::STAR || tok.t == TokenType::MINUS
            || tok.t == TokenType::SLASH || tok.t == TokenType::GT || tok.t == TokenType::LT
            || tok.t == TokenType::EQ || tok.t == TokenType::NEQ;
    }

    /// The precedence of a token as a binary operator, zero if it is none.
    fn precedence(grammar: Grammar, kind: TokenType) -> (level: u8)
        ensures
            level == precedence(grammar, kind),
            level <= 4,
    {
        match grammar {
            Grammar::EqualPrecedence => match kind {
                TokenType::PLUS | TokenType::STAR | TokenType::MINUS | TokenType::SLASH
                | TokenType::GT | TokenType::LT | TokenType::EQ | TokenType::NEQ => 1,
                _ => 0,
            },
            Grammar::PrecedenceClimbing => match kind {
                TokenType::EQ | TokenType::NEQ => 1,
                TokenType::LT | TokenType::GT => 2,
                TokenType::PLUS | TokenType::MINUS => 3,
                TokenType::STAR | TokenType::SLASH => 4,
                _ => 0,
            },
        }
    }

    /// Reads an integer literal.
    fn parse_integer_literal(&mut self) -> (outcome: Result<Expression, ParseError>)
        requires
            old(self).wf(),
        ensures
            final(self).yields(
                *old(self),
                expression_result(outcome),
                integer_literal_at(old(self).tokens(), old(self).position()),
            ),
    {
        if self.current_token.t != TokenType::INT {
            return Err(self.unexpected(Expected::Expression));
        }
        match parse_decimal(self.current_token.literal.as_str()) {
            Some(value) => {
                self.next_token();
                Ok(Expression::INT(value))
            },
            None => Err(self.unexpected(Expected::IntegerInRange)),
        }
    }

    /// Reads `true` or `false`.
    fn parse_boolean_literal(&mut self) -> (outcome: Result<Expression, ParseError>)
        requires
            old(self).wf(),
        ensures
            final(self).yields(
                *old(self),
                expression_result(outcome),
                boolean_literal_at(old(self).tokens(), old(self).position()),
            ),
    {
        match self.current_token.t {
            TokenType::TRUE => {
                self.next_token();
                Ok(Expression::BOOLEAN(true))
            },
            TokenType::FALSE => {
                self.next_token();
                Ok(Expression::BOOLEAN(false))
            },
            _ => Err(self.unexpected(Expected::Expression)),
        }
    }

    /// Reads an identifier, and refuses a call.
    fn parse_identifier_expression(&mut self) -> (outcome: Result<Expression, ParseError>)
        requires
            old(self).wf(),
        ensures
            final(self).yields(
                *old(self),
                expression_result(outcome),
                identifier_at(old(self).tokens(), old(self).position()),
            ),
    {
        if self.current_token.t != TokenType::IDENT {
            return Err(self.unexpected(Expected::Expression));
        }
        let name = self.current_token.literal.clone();
        let call = self.peek_token.t == TokenType::LPAREN;
        self.next_token();
        if call {
            Err(self.unexpected(Expected::SupportedConstruct))
        } else {
            Ok(Expression::IDENT(name))
        }
    }

    /// Reads a unary operation: the operator, then a primary expression.
    fn parse_prefix_expression(&mut self) -> (outcome: Result<Expression, ParseError>)
        requires
            old(self).wf(),
        ensures
            final(self).yields(
                *old(self),
                expression_result(outcome),
                prefix_at(old(self).grammar(), old(self).tokens(), old(self).position()),
            ),
        decreases old(self).left(), 0nat,
    {
        if self.current_token.t != TokenType::BANG && self.current_token.t != TokenType::MINUS {
            return Err(self.unexpected(Expected::Expression));
        }
        let operator = self.current_token.literal.clone();
        self.next_token();
        match self.parse_primary_expression() {
            Ok(right) => Ok(Expression::PREFIX { operator, right: Box::new(right) }),
            Err(error) => Err(error),
        }
    }

    /// Reads an expression in parentheses.
    fn parse_grouped_expression(&mut self) -> (outcome: Result<Expression, ParseError>)
        requires
            old(self).wf(),
        ensures
            final(self).yields(
                *old(self),
                expression_result(outcome),
                grouped_at(old(self).grammar(), old(self).tokens(), old(self).position()),
            ),
        decreases old(self).left(), 0nat,
    {
        if self.current_token.t != TokenType::LPAREN {
            return Err(self.unexpected(Expected::Expression));
        }
        self.next_token();
        let expr = match self.parse_expression() {
            Ok(expr) => expr,
            Err(error) => {
                return Err(error);
            },
        };
        if self.current_token.t != TokenType::RPAREN {
            return Err(self.unexpected(Expected::ClosingParen));
        }
        self.next_token();
        Ok(expr)
    }

    /// Reads a primary expression, whichever the current token starts.
    fn parse_primary_expression(&mut self) -> (outcome: Result<Expression, ParseError>)
        requires
            old(self).wf(),
        ensures
            final(self).yields(
                *old(self),
                expression_result(outcome),
                primary_at(old(self).grammar(), old(self).tokens(), old(self).position()),
            ),
        decreases old(self).left(), 1nat,
    {
        match self.current_token.t {
            TokenType::IF => self.parse_if_expression(),
            TokenType::INT => self.parse_integer_literal(),
            TokenType::TRUE | TokenType::FALSE => self.parse_boolean_literal(),
            TokenType::BANG | TokenType::MINUS => self.parse_prefix_expression(),
            TokenType::LPAREN => self.parse_grouped_expression(),
            TokenType::IDENT => self.parse_identifier_expression(),
            TokenType::FUNCTION => Err(self.unexpected(Expected::SupportedConstruct)),
            _ => Err(self.unexpected(Expected::Expression)),
        }
    }

    /// Reads a binary operation whose left operand has been read: the
    /// operator, then the right operand, in which only tighter operators are
    /// taken.
    fn parse_infix_expression(&mut self, left: Expression) -> (outcome: Result<
        Expression,
        ParseError,
    >)
        requires
            old(self).wf(),
        ensures
            final(self).yields(
                *old(self),
                expression_result(outcome),
                infix_at(old(self).grammar(), old(self).tokens(), old(self).position(), left@),
            ),
        decreases old(self).left(), 1nat,
    {
        if !Parser::is_operator(&self.current_token) {
            return Err(self.unexpected(Expected::Expression));
        }
        let operator = self.current_token.literal.clone();
        let level = Parser::precedence(self.grammar, self.current_token.t);
        self.next_token();
        match self.parse_binary(level + 1) {
            Ok(right) => Ok(
                Expression::INFEX { left: Box::new(left), operator, right: Box::new(right) },
            ),
            Err(error) => Err(error),
        }
    }

    /// Whether a binary operator stands at the current token that binds at
    /// least as tightly as `min`.
    fn continues(&self, min: u8) -> (yes: bool)
        requires
            self.wf(),
        ensures
            yes == continues_at(self.grammar(), self.tokens(), self.position(), min as nat),
    {
        let level = Parser::precedence(self.grammar, self.current_token.t);
        level > 0 && level >= min
    }

    /// Reads an expression whose binary operators all bind at least as
    /// tightly as `min`.
    fn parse_binary(&mut self, min: u8) -> (outcome: Result<Expression, ParseError>)
        requires
            old(self).wf(),
        ensures
            final(self).yields(
                *old(self),
                expression_result(outcome),
                expression_at(
                    old(self).grammar(),
                    old(self).tokens(),
                    old(self).position(),
                    min as nat,
                ),
            ),
        decreases old(self).left(), 3nat,
    {
        let ghost g = self.grammar();
        let ghost ts = self.tokens();
        let ghost start = self.position();
        let ghost total = expression_at(g, ts, start, min as nat);
        let mut left = match self.parse_primary_expression() {
            Ok(expr) => expr,
            Err(error) => {
                return Err(error);
            },
        };
        while self.continues(min)
            invariant
                self.wf(),
                self.tokens() == ts,
                self.origin() == old(self).origin(),
                self.grammar() == g,
                self.reported() == old(self).reported(),
                start == old(self).position(),
                ts == old(self).tokens(),
                g == old(self).grammar(),
                start <= self.position(),
                self.left() <= old(self).left(),
                total == expression_at(g, ts, start, min as nat),
                total.value == climb_at(g, ts, self.position(), min as nat, left@).value,
                total.consumed == self.position() - start + climb_at(
                    g,
                    ts,
                    self.position(),
                    min as nat,
                    left@,
                ).consumed,
            decreases self.left(),
        {
            left = match self.parse_infix_expression(left) {
                Ok(expr) => expr,
                Err(error) => {
                    return Err(error);
                },
            };
        }
        Ok(left)
    }

    /// Reads an expression.
    fn parse_expression(&mut self) -> (outcome: Result<Expression, ParseError>)
        requires
            old(self).wf(),
        ensures
            final(self).yields(
                *old(self),
                expression_result(outcome),
                expression_at(old(self).grammar(), old(self).tokens(), old(self).position(), 1),
            ),
        decreases old(self).left(), 4nat,
    {
        self.parse_binary(1)
    }

    /// Whether an expression may stand as a condition.
    fn is_condition(condition: &Expression) -> (yes: bool)
        ensures
            yes == is_condition(condition@),
    {
        match condition {
            Expression::BOOLEAN(_) => true,
            Expression::PREFIX { operator: _, right: _ } => true,
            Expression::INFEX { left: _, operator, right: _ } => {
                let operator = operator.as_str();
                same_text(operator, "==") || same_text(operator, "!=") || same_text(operator, ">")
                    || same_text(operator, "<")
            },
            _ => false,
        }
    }

    /// Reads the condition of an `if` and checks its shape.
    fn parse_condition(&mut self) -> (outcome: Result<Expression, ParseError>)
        requires
            old(self).wf(),
        ensures
            final(self).yields(
                *old(self),
                expression_result(outcome),
                condition_at(old(self).grammar(), old(self).tokens(), old(self).position()),
            ),
        decreases old(self).left(), 5nat,
    {
        let first = self.current_token.clone();
        let condition = match self.parse_expression() {
            Ok(expr) => expr,
            Err(error) => {
                return Err(error);
            },
        };
        if Parser::is_condition(&condition) {
            Ok(condition)
        } else {
            Err(ParseError { expected: Expected::Condition, found: first })
        }
    }

    /// Reads the statements of a block up to its closing brace, which is
    /// taken too.
    fn parse_block(&mut self) -> (outcome: Result<Vec<Statement>, ParseError>)
        requires
            old(self).wf(),
        ensures
            final(self).yields(
                *old(self),
                block_result(outcome),
                block_at(old(self).grammar(), old(self).tokens(), old(self).position()),
            ),
        decreases old(self).left(), 8nat,
    {
        let ghost g = self.grammar();
        let ghost ts = self.tokens();
        let ghost start = self.position();
        let ghost total = block_at(g, ts, start);
        let mut code: Vec<Statement> = Vec::new();
        while self.current_token.t != TokenType::RBRACE
            invariant
                self.wf(),
                self.tokens() == ts,
                self.origin() == old(self).origin(),
                self.grammar() == g,
                self.reported() == old(self).reported(),
                start == old(self).position(),
                ts == old(self).tokens(),
                g == old(self).grammar(),
                start <= self.position(),
                self.left() <= old(self).left(),
                total == block_at(g, ts, start),
                total.value == match block_at(g, ts, self.position()).value {
                    Ok(more) => Ok::<Seq<StatementView>, ParseErrorView>(
                        statements_view(code@) + more,
                    ),
                    Err(error) => Err(error),
                },
                total.consumed == self.position() - start + block_at(
                    g,
                    ts,
                    self.position(),
                ).consumed,
            decreases self.left(),
        {
            if self.current_token.t == TokenType::EOF {
                return Err(self.unexpected(Expected::ClosingBrace));
            }
            if self.current_token.t == TokenType::SEMICOLON {
                self.next_token();
            } else {
                proof {
                    lemma_statement_consumes(g, ts, self.position());
                }
                let ghost before = code@;
                let stmnt = match self.parse_statement() {
                    Ok(stmnt) => stmnt,
                    Err(error) => {
                        return Err(error);
                    },
                };
                let ghost added = stmnt@;
                code.push(stmnt);
                proof {
                    assert(code@.drop_last() =~= before);
                    assert(statements_view(code@) =~= statements_view(before).push(added));
                    let rest = block_at(g, ts, self.position());
                    if rest.value is Ok {
                        assert(statements_view(before) + (seq![added] + rest.value->Ok_0)
                            =~= statements_view(code@) + rest.value->Ok_0);
                    }
                }
            }
        }
        self.next_token();
        Ok(code)
    }

    /// Reads a conditional: `if`, the condition, a block, and after `else` a
    /// second block.
    fn parse_if_expression(&mut self) -> (outcome: Result<Expression, ParseError>)
        requires
            old(self).wf(),
        ensures
            final(self).yields(
                *old(self),
                expression_result(outcome),
                conditional_at(old(self).grammar(), old(self).tokens(), old(self).position()),
            ),
        decreases old(self).left(), 0nat,
    {
        if self.current_token.t != TokenType::IF {
            return Err(self.unexpected(Expected::Expression));
        }
        self.next_token();
        let cond = match self.parse_condition() {
            Ok(cond) => cond,
            Err(error) => {
                return Err(error);
            },
        };
        if self.current_token.t != TokenType::LBRACE {
            return Err(self.unexpected(Expected::OpeningBrace));
        }
        self.next_token();
        let code = match self.parse_block() {
            Ok(code) => code,
            Err(error) => {
                return Err(error);
            },
        };
        if self.current_token.t == TokenType::ELSE {
            self.next_token();
            if self.current_token.t != TokenType::LBRACE {
                return Err(self.unexpected(Expected::OpeningBrace));
            }
            self.next_token();
            let else_code = match self.parse_block() {
                Ok(code) => code,
                Err(error) => {
                    return Err(error);
                },
            };
            return Ok(
                Expression::IF {
                    condition: Box::new(cond),
                    consequence: code,
                    alternative: Some(else_code),
                },
            );
        }
        return Ok(
            Expression::IF { condition: Box::new(cond), consequence: code, alternative: None },
        );
    }

    /// Reads a `let` statement: `let`, a name, `=` and an expression.
    fn parse_let_statement(&mut self) -> (outcome: Result<Statement, ParseError>)
        requires
            old(self).wf(),
        ensures
            final(self).yields(
                *old(self),
                statement_result(outcome),
                let_statement_at(old(self).grammar(), old(self).tokens(), old(self).position()),
            ),
        decreases old(self).left(), 6nat,
    {
        if self.current_token.t != TokenType::LET {
            return Err(self.unexpected(Expected::Expression));
        }
        self.next_token();
        if self.current_token.t != TokenType::IDENT {
            return Err(self.unexpected(Expected::Identifier));
        }
        let identifier = self.current_token.literal.clone();
        self.next_token();
        if self.current_token.t != TokenType::ASSIGN {
            return Err(self.unexpected(Expected::Assign));
        }
        self.next_token();
        match self.parse_expression() {
            Ok(value) => Ok(Statement::Let(LetStatement { name: identifier, value })),
            Err(error) => Err(error),
        }
    }

    /// Reads a return statement: the keyword and an expression.
    fn parse_return_statement(&mut self) -> (outcome: Result<Statement, ParseError>)
        requires
            old(self).wf(),
        ensures
            final(self).yields(
                *old(self),
                statement_result(outcome),
                return_statement_at(old(self).grammar(), old(self).tokens(), old(self).position()),
            ),
        decreases old(self).left(), 6nat,
    {
        if self.current_token.t != TokenType::RETURN {
            return Err(self.unexpected(Expected::Expression));
        }
        self.next_token();
        match self.parse_expression() {
            Ok(value) => Ok(Statement::Return(ReturnStatement { return_value: value })),
            Err(error) => Err(error),
        }
    }

    /// Reads an expression that stands as a statement.
    fn parse_expression_statement(&mut self) -> (outcome: Result<Statement, ParseError>)
        requires
            old(self).wf(),
        ensures
            final(self).yields(
                *old(self),
                statement_result(outcome),
                expression_statement_at(
                    old(self).grammar(),
                    old(self).tokens(),
                    old(self).position(),
                ),
            ),
        decreases old(self).left(), 6nat,
    {
        match self.parse_expression() {
            Ok(expr) => Ok(Statement::Expression(ExpressionStatement { expression: expr })),
            Err(error) => Err(error),
        }
    }

    /// Reads a statement, and the semicolon behind it if there is one.
    fn parse_statement(&mut self) -> (outcome: Result<Statement, ParseError>)
        requires
            old(self).wf(),
        ensures
            final(self).yields(
                *old(self),
                statement_result(outcome),
                statement_at(old(self).grammar(), old(self).tokens(), old(self).position()),
            ),
        decreases old(self).left(), 7nat,
    {
        let stmnt = match self.current_token.t {
            TokenType::LET => self.parse_let_statement(),
            TokenType::RETURN => self.parse_return_statement(),
            _ => self.parse_expression_statement(),
        };
        if stmnt.is_ok() && self.current_token.t == TokenType::SEMICOLON {
            self.next_token();
        }
        return stmnt;
    }

    /// Whether a token starts a statement and cannot carry one on.
    fn starts_statement(kind: TokenType) -> (yes: bool)
        ensures
            yes == starts_statement(kind),
    {
        match kind {
            TokenType::LET | TokenType::RETURN | TokenType::IF | TokenType::FUNCTION
            | TokenType::INT | TokenType::TRUE | TokenType::FALSE | TokenType::IDENT
            | TokenType::BANG | TokenType::LPAREN => true,
            _ => false,
        }
    }

    /// Passes over the tokens up to the boundary of the statement in work:
    /// a semicolon inside none of its braces and parentheses, the start of a
    /// new statement behind the `}` that closes its outermost block, or the
    /// end.
    fn synchronize(&mut self)
        requires
            old(self).wf(),
        ensures
            final(self).wf(),
            final(self).tokens() == old(self).tokens(),
            final(self).origin() == old(self).origin(),
            final(self).grammar() == old(self).grammar(),
            final(self).reported() == old(self).reported(),
            final(self).position() == boundary_at(
                old(self).tokens(),
                old(self).position(),
                old(self).depth(),
            ),
    {
        let mut over = false;
        while !over && self.current_token.t != TokenType::EOF && !(self.current_token.t
            == TokenType::SEMICOLON && self.depth == 0)
            invariant
                self.wf(),
                self.tokens() == old(self).tokens(),
                self.origin() == old(self).origin(),
                self.grammar() == old(self).grammar(),
                self.reported() == old(self).reported(),
                over ==> self.position() == boundary_at(
                    old(self).tokens(),
                    old(self).position(),
                    old(self).depth(),
                ),
                !over ==> boundary_at(self.tokens(), self.position(), self.depth()) == boundary_at(
                    old(self).tokens(),
                    old(self).position(),
                    old(self).depth(),
                ),
            decreases self.left() + (if over { 0nat } else { 1nat }),
        {
            over = self.current_token.t == TokenType::RBRACE && self.depth == 1
                && Parser::starts_statement(self.peek_token.t);
            self.next_token();
        }
    }

    /// The diagnostics collected so far, one for each malformed statement.
    pub fn diagnostics(&self) -> (reported: &Vec<Diagnostic>)
        ensures
            diagnostics_view(reported@) == self.reported(),
    {
        &self.diagnostics
    }

    /// Reads one statement of the program, the one with the given ordinal. A
    /// malformed one is reported, and the tokens up to its boundary are
    /// passed over.
    fn parse_or_report(&mut self, ordinal: usize) -> (outcome: Option<Statement>)
        requires
            old(self).wf(),
        ensures
            final(self).wf(),
            final(self).tokens() == old(self).tokens(),
            final(self).grammar() == old(self).grammar(),
            final(self).position() == resume_at(
                old(self).grammar(),
                old(self).tokens(),
                old(self).position(),
            ),
            match statement_at(old(self).grammar(), old(self).tokens(), old(self).position()).value {
                Ok(statement) => {
                    &&& outcome matches Some(s)
                    &&& s@ == statement
                    &&& final(self).reported() == old(self).reported()
                },
                Err(error) => {
                    &&& outcome is None
                    &&& final(self).reported() == old(self).reported().push(
                        DiagnosticView { statement: ordinal as nat, error },
                    )
                },
            },
    {
        self.depth = 0;
        proof {
            self.origin = Ghost(self.position@);
            reveal(Parser::fed);
        }
        match self.parse_statement() {
            Ok(stmt) => Some(stmt),
            Err(error) => {
                let ghost held = self.diagnostics@;
                let ghost d = DiagnosticView { statement: ordinal as nat, error: error@ };
                self.diagnostics.push(Diagnostic { statement: ordinal, error });
                proof {
                    reveal(Parser::fed);
                    assert(diagnostics_view(self.diagnostics@) =~= diagnostics_view(held).push(d));
                }
                self.synchronize();
                None
            },
        }
    }

    /// Reads the program: every statement up to the end of the tokens.
    /// A malformed statement is given up as a whole and reported by one
    /// diagnostic; the statements before it and behind its boundary are kept. The diagnostics of an
    /// earlier call are dropped. The result is always `Ok`.
    pub fn parse_program(&mut self) -> (outcome: Result<Program, String>)
        requires
            old(self).wf(),
        ensures
            final(self).wf(),
            final(self).tokens() == old(self).tokens(),
            final(self).grammar() == old(self).grammar(),
            kind_at(final(self).tokens(), final(self).position()) == TokenType::EOF,
            outcome is Ok,
            outcome->Ok_0@ == program_at(
                old(self).grammar(),
                old(self).tokens(),
                old(self).position(),
            ).statements,
            final(self).reported() == program_at(
                old(self).grammar(),
                old(self).tokens(),
                old(self).position(),
            ).diagnostics,
    {
        let ghost g = self.grammar();
        let ghost ts = self.tokens();
        let ghost start = self.position();
        let mut statements: Vec<Statement> = Vec::new();
        let mut ordinal: usize = 0;
        self.diagnostics = Vec::new();
        proof {
            reveal(Parser::fed);
            assert(statements_view(statements@) =~= Seq::<StatementView>::empty());
            assert(self.reported() =~= Seq::<DiagnosticView>::empty());
        }
        while self.current_token.t != TokenType::EOF
            invariant
                self.wf(),
                self.tokens() == ts,
                self.grammar() == g,
                0 <= start <= self.position(),
                ordinal <= self.position() - start,
                ordinal == statements@.len() + self.reported().len(),
                program_at(g, ts, start) == program_from(
                    g,
                    ts,
                    self.position(),
                    ProgramOutcome {
                        statements: statements_view(statements@),
                        diagnostics: self.reported(),
                    },
                ),
            decreases self.left(),
        {
            let ghost read = ProgramOutcome {
                statements: statements_view(statements@),
                diagnostics: self.reported(),
            };
            if self.current_token.t == TokenType::SEMICOLON {
                proof {
                    lemma_program_skip(g, ts, self.position(), read);
                }
                self.next_token();
            } else {
                let ghost before = statements@;
                proof {
                    lemma_statements_view(before);
                    lemma_program_unfold(g, ts, self.position(), read);
                }
                match self.parse_or_report(ordinal) {
                    Some(stmt) => {
                        proof {
                            lemma_statements_view_push(before, stmt);
                        }
                        statements.push(stmt);
                    },
                    None => {},
                }
                proof {
                    self.lemma_position_in_range();
                }
                ordinal = ordinal + 1;
            }
        }
        proof {
            lemma_program_end(
                g,
                ts,
                self.position(),
                ProgramOutcome {
                    statements: statements_view(statements@),
                    diagnostics: self.reported(),
                },
            );
        }
        Ok(Program { statements })
    }
}

} // verus!

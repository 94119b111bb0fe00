//! What the parser reports when a statement is malformed.

use vstd::prelude::*;
use crate::decimal::{decimal_digits, format_natural};
use crate::token::{kind_name, Token, TokenType, TokenView};

verus! {

/// The grammar element that the parser was looking for when it failed.
#[derive(PartialEq, Eq, Structural, Clone, Copy, Debug)]
pub enum Expected {
    /// The name after `let`.
    Identifier,
    /// The `=` after the name of a `let`.
    Assign,
    /// The start of an expression.
    Expression,
    /// The `)` that closes a group.
    ClosingParen,
    /// The `{` that opens a block.
    OpeningBrace,
    /// The `}` that closes a block.
    ClosingBrace,
    /// A condition: a truth value, a unary operation or a comparison.
    Condition,
    /// An integer literal that fits into 64 bits.
    IntegerInRange,
    /// A construct that the parser accepts: function literals and calls are
    /// none.
    SupportedConstruct,
}

/// A parse failure: what was expected, and the token that was found instead.
#[derive(Debug)]
pub struct ParseError {
    pub expected: Expected,
    pub found: Token,
}

/// The mathematical value of a parse failure.
pub struct ParseErrorView {
    pub expected: Expected,
    pub found: TokenView,
}

impl View for ParseError {
    type V = ParseErrorView;

    open spec fn view(&self) -> ParseErrorView {
        ParseErrorView { expected: self.expected, found: self.found@ }
    }
}

/// The report on one malformed statement of a program.
#[derive(Debug)]
pub struct Diagnostic {
    /// The place of the statement among the statements of the program, well
    /// formed or not, counted from zero.
    pub statement: usize,
    /// Why the statement was given up.
    pub error: ParseError,
}

/// The mathematical value of a diagnostic.
pub struct DiagnosticView {
    pub statement: nat,
    pub error: ParseErrorView,
}

impl View for Diagnostic {
    type V = DiagnosticView;

    open spec fn view(&self) -> DiagnosticView {
        DiagnosticView { statement: self.statement as nat, error: self.error@ }
    }
}

/// The values of a sequence of diagnostics, in order.
pub open spec fn diagnostics_view(d: Seq<Diagnostic>) -> Seq<DiagnosticView> {
    d.map_values(|x: Diagnostic| x@)
}

/// How an expected grammar element is named in a message.
pub open spec fn expected_text(expected: Expected) -> Seq<char> {
    match expected {
        Expected::Identifier => "an identifier"@,
        Expected::Assign => "`=`"@,
        Expected::Expression => "an expression"@,
        Expected::ClosingParen => "`)`"@,
        Expected::OpeningBrace => "`{`"@,
        Expected::ClosingBrace => "`}`"@,
        Expected::Condition => "a truth value, a unary operation or a comparison as condition"@,
        Expected::IntegerInRange => "an integer literal that fits into 64 bits"@,
        Expected::SupportedConstruct => "a supported construct"@,
    }
}

/// How the token that was found is named in a message: by its kind and its
/// text, and the end marker as the end of the input.
pub open spec fn found_text(found: TokenView) -> Seq<char> {
    if found.t == TokenType::EOF {
        "the end of the input"@
    } else {
        kind_name(found.t) + " `"@ + found.literal + "`"@
    }
}

/// The message of a parse failure: `expected ..., found ...`.
pub open spec fn error_text(error: ParseErrorView) -> Seq<char> {
    "expected "@ + expected_text(error.expected) + ", found "@ + found_text(error.found)
}

/// The message of a diagnostic: the place of the statement, then the
/// message of the failure.
pub open spec fn diagnostic_text(diagnostic: DiagnosticView) -> Seq<char> {
    "statement "@ + decimal_digits(diagnostic.statement as int) + ": "@ + error_text(
        diagnostic.error,
    )
}

impl Expected {
    /// The name of the grammar element in a message.
    pub fn describe(self) -> (text: &'static str)
        ensures
            text@ == expected_text(self),
    {
        match self {
            Expected::Identifier => "an identifier",
            Expected::Assign => "`=`",
            Expected::Expression => "an expression",
            Expected::ClosingParen => "`)`",
            Expected::OpeningBrace => "`{`",
            Expected::ClosingBrace => "`}`",
            Expected::Condition => "a truth value, a unary operation or a comparison as condition",
            Expected::IntegerInRange => "an integer literal that fits into 64 bits",
            Expected::SupportedConstruct => "a supported construct",
        }
    }
}

impl ParseError {
    /// The message of the failure.
    pub fn message(&self) -> (text: String)
        ensures
            text@ == error_text(self@),
    {
        let mut text = String::from_str("expected ");
        text.append(self.expected.describe());
        text.append(", found ");
        if self.found.t == TokenType::EOF {
            text.append("the end of the input");
        } else {
            text.append(self.found.t.name());
            text.append(" `");
            text.append(self.found.literal.as_str());
            text.append("`");
        }
        assert(text@ =~= error_text(self@));
        text
    }
}

impl Diagnostic {
    /// The message of the diagnostic.
    pub fn message(&self) -> (text: String)
        ensures
            text@ == diagnostic_text(self@),
    {
        let mut text = String::from_str("statement ");
        let place = format_natural(self.statement as u64);
        text.append(place.as_str());
        text.append(": ");
        let error = self.error.message();
        text.append(error.as_str());
        assert(text@ =~= diagnostic_text(self@));
        text
    }
}

} // verus!

//! One turn of a read-evaluate-print loop: from a unit of source text to the
//! lines that answer it.

use vstd::prelude::*;
use crate::ast::{ExpressionView, lemma_statements_view, Statement, statement_view, StatementView};
use crate::decimal::decimal_digits;
use crate::diagnostic::{diagnostic_text, diagnostics_view, DiagnosticView};
use crate::evaluator::{eval, eval_error_text, eval_spec};
use crate::grammar::{Grammar, program_at};
use crate::lexer::{Lexer, tokenize};
use crate::object::{inspect_text, Object};
use crate::parser::Parser;
use crate::spelling::lemma_reads_number;

verus! {

/// What shows the result of a statement: its value, or why it has none.
pub open spec fn statement_text(statement: StatementView) -> Seq<char> {
    match eval_spec(statement) {
        Ok(value) => inspect_text(value),
        Err(error) => eval_error_text(error),
    }
}

/// The number of items of a sequence from a position to its end.
pub open spec fn remaining<A>(items: Seq<A>, i: int) -> nat {
    if i < items.len() {
        (items.len() - i) as nat
    } else {
        0
    }
}

/// The lines for the statements of a program, well formed or not, in source
/// order: `lines` are those gathered so far, `i` well-formed statements and
/// `j` diagnostics have been passed. A diagnostic comes where its malformed
/// statement stood.
pub open spec fn lines_from(
    statements: Seq<StatementView>,
    diagnostics: Seq<DiagnosticView>,
    i: int,
    j: int,
    lines: Seq<Seq<char>>,
) -> Seq<Seq<char>>
    decreases remaining(statements, i) + remaining(diagnostics, j),
{
    if 0 <= j < diagnostics.len() && (diagnostics[j].statement == i + j || !(0 <= i
        < statements.len())) {
        lines_from(statements, diagnostics, i, j + 1, lines.push(diagnostic_text(diagnostics[j])))
    } else if 0 <= i < statements.len() {
        lines_from(statements, diagnostics, i + 1, j, lines.push(statement_text(statements[i])))
    } else {
        lines
    }
}

/// The lines that answer a unit of source text: one for each of its
/// statements, in source order, which shows the value of the statement, or
/// says why it has none or why it is malformed.
pub open spec fn response(source: Seq<char>) -> Seq<Seq<char>> {
    let program = program_at(Grammar::PrecedenceClimbing, tokenize(source), 0);
    lines_from(program.statements, program.diagnostics, 0, 0, Seq::empty())
}

/// The texts of a sequence of lines.
pub open spec fn lines_view(lines: Seq<String>) -> Seq<Seq<char>> {
    lines.map_values(|line: String| line@)
}

/// The line for one statement.
fn show(statement: Statement) -> (line: String)
    ensures
        line@ == statement_text(statement@),
{
    match eval(statement) {
        Ok(value) => value.inspect(),
        Err(error) => String::from_str(error.message()),
    }
}

/// Answers a unit of source text: reads it, evaluates its statements, and
/// gives one line for each of them.
pub fn respond(source: String) -> (lines: Vec<String>)
    ensures
        lines_view(lines@) == response(source@),
{
    let mut parser = Parser::new(Lexer::new(source));
    let program = parser.parse_program().unwrap();
    let ghost statements = program@;
    proof {
        lemma_statements_view(program.statements@);
    }
    let diagnostics = parser.diagnostics();
    let mut shown: Vec<String> = Vec::new();
    for statement in it: program.statements
        invariant
            shown@.len() == it.index(),
            forall|k: int|
                0 <= k < shown@.len() ==> (#[trigger] shown@[k])@ == statement_text(
                    statement_view(it.seq()[k]),
                ),
    {
        shown.push(show(statement));
    }
    let mut lines: Vec<String> = Vec::new();
    assert(lines_view(lines@) =~= Seq::<Seq<char>>::empty());
    let mut i: usize = 0;
    let mut j: usize = 0;
    while i < shown.len() || j < diagnostics.len()
        invariant
            shown@.len() == statements.len(),
            forall|k: int|
                0 <= k < shown@.len() ==> (#[trigger] shown@[k])@ == statement_text(statements[k]),
            i <= shown@.len(),
            j <= diagnostics@.len(),
            lines_from(
                statements,
                diagnostics_view(diagnostics@),
                0,
                0,
                Seq::empty(),
            ) == lines_from(
                statements,
                diagnostics_view(diagnostics@),
                i as int,
                j as int,
                lines_view(lines@),
            ),
        decreases shown@.len() - i + diagnostics@.len() - j,
    {
        let ghost before = lines@;
        if j < diagnostics.len() && (i >= shown.len() || diagnostics[j].statement >= j
            && diagnostics[j].statement - j == i) {
            lines.push(diagnostics[j].message());
            j = j + 1;
        } else {
            lines.push(shown[i].clone());
            i = i + 1;
        }
        proof {
            assert(lines_view(lines@) =~= lines_view(before).push(lines@.last()@));
        }
    }
    lines
}

/// A white-space character, as Unicode defines it.
pub open spec fn is_white_space(c: char) -> bool {
    ||| '\u{9}' <= c && c <= '\u{d}'
    ||| c == ' '
    ||| c == '\u{85}'
    ||| c == '\u{a0}'
    ||| c == '\u{1680}'
    ||| '\u{2000}' <= c && c <= '\u{200a}'
    ||| c == '\u{2028}'
    ||| c == '\u{2029}'
    ||| c == '\u{202f}'
    ||| c == '\u{205f}'
    ||| c == '\u{3000}'
}

/// A line that holds nothing but white space.
pub open spec fn is_blank(line: Seq<char>) -> bool {
    forall|k: int| 0 <= k < line.len() ==> is_white_space(#[trigger] line[k])
}

/// What the loop does after it has tried to read a line.
pub struct Turn {
    /// The lines to print.
    pub lines: Vec<String>,
    /// Whether the loop ends.
    pub done: bool,
}

/// Whether a character is white space.
fn white_space(c: char) -> (yes: bool)
    ensures
        yes == is_white_space(c),
{
    (c >= '\u{9}' && c <= '\u{d}') || c == ' ' || c == '\u{85}' || c == '\u{a0}' || c
        == '\u{1680}' || (c >= '\u{2000}' && c <= '\u{200a}') || c == '\u{2028}' || c
        == '\u{2029}' || c == '\u{202f}' || c == '\u{205f}' || c == '\u{3000}'
}

/// Whether a line holds nothing but white space.
fn blank(line: &str) -> (yes: bool)
    ensures
        yes == is_blank(line@),
{
    let n = line.unicode_len();
    let mut k: usize = 0;
    while k < n
        invariant
            n == line@.len(),
            k <= n,
            forall|m: int| 0 <= m < k ==> is_white_space(#[trigger] line@[m]),
        decreases n - k,
    {
        if !white_space(line.get_char(k)) {
            return false;
        }
        k = k + 1;
    }
    true
}

/// Decides one turn of the loop. `line` is the line that was read, or
/// nothing at the end of the input; `is_file` says that the input is a file,
/// of which one unit is answered. At the end of the input the loop ends. A
/// blank line is passed over. Any other line is answered, and the loop ends
/// after it if the input is a file.
pub fn turn(line: Option<String>, is_file: bool) -> (next: Turn)
    ensures
        match line {
            None => next.done && next.lines@.len() == 0,
            Some(text) => if is_blank(text@) {
                !next.done && next.lines@.len() == 0
            } else {
                next.done == is_file && lines_view(next.lines@) == response(text@)
            },
        },
{
    match line {
        None => Turn { lines: Vec::new(), done: true },
        Some(text) => if blank(text.as_str()) {
            Turn { lines: Vec::new(), done: false }
        } else {
            Turn { lines: respond(text), done: is_file }
        },
    }
}

/// A number answers itself: the lines that answer the decimal text of a
/// number that is not negative are that text, and nothing else.
pub proof fn lemma_number_answers_itself(n: i64)
    requires
        n >= 0,
    ensures
        response(decimal_digits(n as int)) == seq![decimal_digits(n as int)],
{
    let text = decimal_digits(n as int);
    let statement = StatementView::ExpressionStatement { value: ExpressionView::IntegerLiteral(n) };
    let statements = seq![statement];
    let diagnostics = Seq::<DiagnosticView>::empty();
    lemma_reads_number(Grammar::PrecedenceClimbing, n);
    assert(statement_text(statement) == text);
    let none = Seq::<Seq<char>>::empty();
    assert(lines_from(statements, diagnostics, 1, 0, none.push(text)) == none.push(text));
    assert(lines_from(statements, diagnostics, 0, 0, none) == none.push(text));
    assert(none.push(text) =~= seq![text]);
}

} // verus!

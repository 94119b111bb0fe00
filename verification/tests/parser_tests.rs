use minilang::ast::{
    Expression, ExpressionStatement, LetStatement, Program, ReturnStatement, Statement,
};
use minilang::diagnostic::Expected;
use minilang::lexer::Lexer;
use minilang::parser::Parser;
use minilang::token::TokenType;

fn setup_parser(input: String) -> Parser {
    let lexer = Lexer::new(input);
    Parser::new(lexer)
}

fn setup_flat_parser(input: &str) -> Parser {
    Parser::with_equal_precedence(Lexer::new(input.to_string()))
}

fn num(value: i64) -> Expression {
    Expression::INT(value)
}

fn ident(name: &str) -> Expression {
    Expression::IDENT(name.to_string())
}

fn infix(left: Expression, operator: &str, right: Expression) -> Expression {
    Expression::INFEX {
        left: Box::new(left),
        operator: operator.to_string(),
        right: Box::new(right),
    }
}

fn prefix(operator: &str, right: Expression) -> Expression {
    Expression::PREFIX { operator: operator.to_string(), right: Box::new(right) }
}

fn let_statement(name: &str, value: Expression) -> Statement {
    Statement::Let(LetStatement { name: name.to_string(), value })
}

fn return_statement(value: Expression) -> Statement {
    Statement::Return(ReturnStatement { return_value: value })
}

fn expression_statement(expression: Expression) -> Statement {
    Statement::Expression(ExpressionStatement { expression })
}

fn parse(input: &str) -> (Program, Vec<(usize, Expected, TokenType, String)>) {
    let mut parser = setup_parser(input.to_string());
    let program = parser.parse_program().unwrap();
    let diagnostics = parser
        .diagnostics()
        .iter()
        .map(|d| (d.statement, d.error.expected, d.error.found.t, d.error.found.literal.clone()))
        .collect();
    (program, diagnostics)
}

fn parse_flat(input: &str) -> (Program, Vec<(usize, Expected, TokenType, String)>) {
    let mut parser = setup_flat_parser(input);
    let program = parser.parse_program().unwrap();
    let diagnostics = parser
        .diagnostics()
        .iter()
        .map(|d| (d.statement, d.error.expected, d.error.found.t, d.error.found.literal.clone()))
        .collect();
    (program, diagnostics)
}

#[test]
fn test_parse_let_statement() {
    let input = "let x = 5;".to_string();
    let mut parser = setup_parser(input);

    let program = parser.parse_program().unwrap();
    assert_eq!(program.statements.len(), 1);

    if let Statement::Let(let_stmt) = &program.statements[0] {
        assert_eq!(let_stmt.name, "x");
        if let Expression::INT(value) = let_stmt.value {
            assert_eq!(value, 5);
        } else {
            panic!("Expected integer literal in let statement");
        }
    } else {
        panic!("Expected let statement");
    }
}

#[test]
fn test_parse_return_statement() {
    let input = "return 10;".to_string();
    let mut parser = setup_parser(input);

    let program = parser.parse_program().unwrap();
    assert_eq!(program.statements.len(), 1);

    if let Statement::Return(return_stmt) = &program.statements[0] {
        if let Expression::INT(value) = return_stmt.return_value {
            assert_eq!(value, 10);
        } else {
            panic!("Expected integer literal in return statement");
        }
    } else {
        panic!("Expected return statement");
    }
}

#[test]
fn test_parse_if_expression() {
    let input = "if x < 10 { let y = 5; } else { return 20; }".to_string();
    let mut parser = setup_parser(input);

    let program = parser.parse_program().unwrap();
    assert_eq!(program.statements.len(), 1);

    if let Statement::Expression(expr_stmt) = &program.statements[0] {
        if let Expression::IF { condition, consequence, alternative } = &expr_stmt.expression {
            if let Expression::INFEX { ref operator, .. } = **condition {
                assert_eq!(operator, "<");
            } else {
                panic!("Expected infix expression in if condition");
            }

            assert_eq!(consequence.len(), 1);
            if let Statement::Let(let_stmt) = &consequence[0] {
                assert_eq!(let_stmt.name, "y");
            } else {
                panic!("Expected let statement in if consequence");
            }

            assert!(alternative.is_some());
            let alternative = alternative.as_ref().unwrap();
            assert_eq!(alternative.len(), 1);
            if let Statement::Return(return_stmt) = &alternative[0] {
                if let Expression::INT(value) = return_stmt.return_value {
                    assert_eq!(value, 20);
                } else {
                    panic!("Expected integer literal in return statement");
                }
            } else {
                panic!("Expected return statement in if alternative");
            }
        } else {
            panic!("Expected if expression");
        }
    } else {
        panic!("Expected expression statement");
    }
}

#[test]
fn test_parse_infix_expression() {
    let input = "5 + 10 * 2;".to_string();
    let mut parser = setup_parser(input);

    let program = parser.parse_program().unwrap();
    assert_eq!(program.statements.len(), 1);

    if let Statement::Expression(expr_stmt) = &program.statements[0] {
        if let Expression::INFEX { operator, .. } = &expr_stmt.expression {
            assert_eq!(operator, "+");
        } else {
            panic!("Expected infix expression");
        }
    } else {
        panic!("Expected expression statement");
    }
}

#[test]
fn test_parse_boolean_literal() {
    let input = "true;".to_string();
    let mut parser = setup_parser(input);

    let program = parser.parse_program().unwrap();
    assert_eq!(program.statements.len(), 1);

    if let Statement::Expression(expr_stmt) = &program.statements[0] {
        if let Expression::BOOLEAN(value) = &expr_stmt.expression {
            assert_eq!(*value, true);
        } else {
            panic!("Expected boolean literal");
        }
    } else {
        panic!("Expected expression statement");
    }
}

#[test]
fn test_parse_grouped_expression() {
    let input = "(5 + 5) * 2;".to_string();
    let mut parser = setup_parser(input);

    let program = parser.parse_program().unwrap();
    assert_eq!(program.statements.len(), 1);

    if let Statement::Expression(expr_stmt) = &program.statements[0] {
        if let Expression::INFEX { operator, .. } = &expr_stmt.expression {
            assert_eq!(operator, "*");
        } else {
            panic!("Expected infix expression");
        }
    } else {
        panic!("Expected expression statement");
    }
}

#[test]
fn let_statement_binds_name_to_literal() {
    let (program, diagnostics) = parse("let x = 5;");
    assert_eq!(program.statements, vec![let_statement("x", num(5))]);
    assert!(diagnostics.is_empty());
}

#[test]
fn equal_precedence_folds_from_the_left() {
    let (program, diagnostics) = parse_flat("1 + 2 * 3;");
    assert_eq!(
        program.statements,
        vec![expression_statement(infix(infix(num(1), "+", num(2)), "*", num(3)))]
    );
    assert!(diagnostics.is_empty());
}

#[test]
fn precedence_climbing_groups_product_first() {
    let (program, diagnostics) = parse("1 + 2 * 3;");
    assert_eq!(
        program.statements,
        vec![expression_statement(infix(num(1), "+", infix(num(2), "*", num(3))))]
    );
    assert!(diagnostics.is_empty());
}

#[test]
fn precedence_climbing_groups_equals_from_the_left() {
    let (program, _) = parse("8 - 4 - 2; 8 / 4 * 2 == 4 < 5");
    assert_eq!(
        program.statements,
        vec![
            expression_statement(infix(infix(num(8), "-", num(4)), "-", num(2))),
            expression_statement(infix(
                infix(infix(num(8), "/", num(4)), "*", num(2)),
                "==",
                infix(num(4), "<", num(5))
            )),
        ]
    );
}

#[test]
fn conditional_with_both_blocks() {
    let (program, diagnostics) = parse("if true { let x = 1; } else { let x = 2; }");
    assert!(diagnostics.is_empty());
    assert_eq!(
        program.statements,
        vec![expression_statement(Expression::IF {
            condition: Box::new(Expression::BOOLEAN(true)),
            consequence: vec![let_statement("x", num(1))],
            alternative: Some(vec![let_statement("x", num(2))]),
        })]
    );
}

#[test]
fn conditional_without_alternative() {
    let (program, diagnostics) = parse("if !done { return 1 } 7");
    assert!(diagnostics.is_empty());
    assert_eq!(
        program.statements,
        vec![
            expression_statement(Expression::IF {
                condition: Box::new(prefix("!", ident("done"))),
                consequence: vec![return_statement(num(1))],
                alternative: None,
            }),
            expression_statement(num(7)),
        ]
    );
}

#[test]
fn malformed_statement_is_reported_and_its_neighbours_are_kept() {
    let (program, diagnostics) = parse("let x = 5; let y = ; let z = 10;");
    assert_eq!(
        program.statements,
        vec![let_statement("x", num(5)), let_statement("z", num(10))]
    );
    assert_eq!(
        diagnostics,
        vec![(1, Expected::Expression, TokenType::SEMICOLON, ";".to_string())]
    );
}

#[test]
fn recovery_is_the_same_under_equal_precedence() {
    let (program, diagnostics) = parse_flat("let x = 5; let y = ; let z = 10;");
    assert_eq!(
        program.statements,
        vec![let_statement("x", num(5)), let_statement("z", num(10))]
    );
    assert_eq!(diagnostics.len(), 1);
}

#[test]
fn empty_and_blank_input_give_an_empty_program() {
    for input in ["", "   \t\n ", ";;;"] {
        let (program, diagnostics) = parse(input);
        assert!(program.statements.is_empty());
        assert!(diagnostics.is_empty());
    }
}

#[test]
fn statements_need_no_semicolon() {
    let (program, diagnostics) = parse("5 5");
    assert!(diagnostics.is_empty());
    assert_eq!(program.statements, vec![expression_statement(num(5)), expression_statement(num(5))]);
}

#[test]
fn parentheses_leave_no_trace() {
    let (program, _) = parse("((7))");
    assert_eq!(program.statements, vec![expression_statement(num(7))]);
}

#[test]
fn prefix_binds_tighter_than_any_binary_operator() {
    let (program, _) = parse("-a * b");
    assert_eq!(
        program.statements,
        vec![expression_statement(infix(prefix("-", ident("a")), "*", ident("b")))]
    );
}

#[test]
fn every_kind_of_failure() {
    let cases: Vec<(&str, Expected, TokenType, &str)> = vec![
        ("let 5 = 3", Expected::Identifier, TokenType::INT, "5"),
        ("let x 3", Expected::Assign, TokenType::INT, "3"),
        ("let x = )", Expected::Expression, TokenType::RPAREN, ")"),
        ("(1 + 2 3", Expected::ClosingParen, TokenType::INT, "3"),
        ("if true 1", Expected::OpeningBrace, TokenType::INT, "1"),
        ("if true { 1 } else 2", Expected::OpeningBrace, TokenType::INT, "2"),
        ("if true { 1", Expected::ClosingBrace, TokenType::EOF, "\0"),
        ("if x { 1 }", Expected::Condition, TokenType::IDENT, "x"),
        ("if 1 + 2 { 1 }", Expected::Condition, TokenType::INT, "1"),
        ("9223372036854775808", Expected::IntegerInRange, TokenType::INT, "9223372036854775808"),
        ("fun", Expected::SupportedConstruct, TokenType::FUNCTION, "fun"),
        ("f(1)", Expected::SupportedConstruct, TokenType::LPAREN, "("),
        ("@", Expected::Expression, TokenType::ILLEGAL, "@"),
        ("1 +", Expected::Expression, TokenType::EOF, "\0"),
    ];
    for (input, expected, kind, literal) in cases {
        let (program, diagnostics) = parse(input);
        assert!(program.statements.is_empty(), "input {:?}", input);
        assert_eq!(diagnostics, vec![(0, expected, kind, literal.to_string())], "input {:?}", input);
    }
}

#[test]
fn largest_integer_literal_is_read() {
    let (program, diagnostics) = parse("9223372036854775807");
    assert!(diagnostics.is_empty());
    assert_eq!(program.statements, vec![expression_statement(num(i64::MAX))]);
}

#[test]
fn a_word_that_is_no_keyword_is_a_name() {
    let (program, diagnostics) = parse("let ret = 1; return ret;");
    assert!(diagnostics.is_empty());
    assert_eq!(
        program.statements,
        vec![let_statement("ret", num(1)), return_statement(ident("ret"))]
    );
}

#[test]
fn a_second_run_finds_nothing_more() {
    let mut parser = setup_parser("let = 1; 2".to_string());
    let first = parser.parse_program().unwrap();
    assert_eq!(first.statements, vec![expression_statement(num(2))]);
    assert_eq!(parser.diagnostics().len(), 1);
    let second = parser.parse_program().unwrap();
    assert!(second.statements.is_empty());
    assert!(parser.diagnostics().is_empty());
}

#[test]
fn parenthesised_text_reads_the_same_under_both_grammars() {
    let input = "(1 + 2) * (3 - -x); let y = !(a == (b < 4)); if (1 < 2) { return (6 / 3) * 2; };";
    let expected = vec![
        expression_statement(infix(
            infix(num(1), "+", num(2)),
            "*",
            infix(num(3), "-", prefix("-", ident("x"))),
        )),
        let_statement("y", prefix("!", infix(ident("a"), "==", infix(ident("b"), "<", num(4))))),
        expression_statement(Expression::IF {
            condition: Box::new(infix(num(1), "<", num(2))),
            consequence: vec![return_statement(infix(infix(num(6), "/", num(3)), "*", num(2)))],
            alternative: None,
        }),
    ];
    let (program, diagnostics) = parse(input);
    assert!(diagnostics.is_empty());
    assert_eq!(program.statements, expected);
    let (program, diagnostics) = parse_flat(input);
    assert!(diagnostics.is_empty());
    assert_eq!(program.statements, expected);
}

#[test]
fn equal_precedence_folds_a_long_chain_from_the_left() {
    let (program, _) = parse_flat("1 == 2 + 3 * 4 - 5");
    assert_eq!(
        program.statements,
        vec![expression_statement(infix(
            infix(infix(infix(num(1), "==", num(2)), "+", num(3)), "*", num(4)),
            "-",
            num(5)
        ))]
    );
}

#[test]
fn precedence_climbing_on_a_long_chain() {
    let (program, _) = parse("1 == 2 + 3 * 4 - 5");
    assert_eq!(
        program.statements,
        vec![expression_statement(infix(
            num(1),
            "==",
            infix(infix(num(2), "+", infix(num(3), "*", num(4))), "-", num(5))
        ))]
    );
}

#[test]
fn conditionals_nest() {
    let (program, diagnostics) = parse("if a < b { if !c { 1 } else { 2 }; ; 3 } else { }");
    assert!(diagnostics.is_empty());
    assert_eq!(
        program.statements,
        vec![expression_statement(Expression::IF {
            condition: Box::new(infix(ident("a"), "<", ident("b"))),
            consequence: vec![
                expression_statement(Expression::IF {
                    condition: Box::new(prefix("!", ident("c"))),
                    consequence: vec![expression_statement(num(1))],
                    alternative: Some(vec![expression_statement(num(2))]),
                }),
                expression_statement(num(3)),
            ],
            alternative: Some(vec![]),
        })]
    );
}

#[test]
fn a_condition_under_equal_precedence_must_end_in_a_comparison() {
    let (program, diagnostics) = parse_flat("if a < b + c { 1 }");
    assert!(program.statements.is_empty());
    assert_eq!(diagnostics, vec![(0, Expected::Condition, TokenType::IDENT, "a".to_string())]);
    let (program, diagnostics) = parse("if a < b + c { 1 }");
    assert!(diagnostics.is_empty());
    assert_eq!(program.statements.len(), 1);
}

#[test]
fn a_failure_inside_a_block_gives_up_the_whole_statement() {
    let (program, diagnostics) = parse("1; if true { let = 2 }; 3");
    assert_eq!(
        diagnostics,
        vec![
            (1, Expected::Identifier, TokenType::ASSIGN, "=".to_string()),
        ]
    );
    assert_eq!(program.statements, vec![expression_statement(num(1)), expression_statement(num(3))]);
}

#[test]
fn a_semicolon_inside_a_block_is_no_boundary() {
    let (program, diagnostics) = parse("if x { 1; }");
    assert!(program.statements.is_empty());
    assert_eq!(diagnostics, vec![(0, Expected::Condition, TokenType::IDENT, "x".to_string())]);

    let (program, diagnostics) = parse("if x { 1; } else { 2; 3; }; 4");
    assert_eq!(program.statements, vec![expression_statement(num(4))]);
    assert_eq!(diagnostics, vec![(0, Expected::Condition, TokenType::IDENT, "x".to_string())]);
}

#[test]
fn a_statement_behind_the_closing_brace_is_kept() {
    let (program, diagnostics) = parse("if true { let = 1; } 7;");
    assert_eq!(program.statements, vec![expression_statement(num(7))]);
    assert_eq!(diagnostics, vec![(0, Expected::Identifier, TokenType::ASSIGN, "=".to_string())]);

    let (program, diagnostics) = parse("if x { 1; } else { 2; } let y = 3; if true { 4 }");
    assert_eq!(diagnostics, vec![(0, Expected::Condition, TokenType::IDENT, "x".to_string())]);
    assert_eq!(
        program.statements,
        vec![
            let_statement("y", num(3)),
            expression_statement(Expression::IF {
                condition: Box::new(Expression::BOOLEAN(true)),
                consequence: vec![expression_statement(num(4))],
                alternative: None,
            }),
        ]
    );
}

#[test]
fn a_malformed_statement_that_goes_on_behind_its_block_is_one_statement() {
    let (program, diagnostics) = parse("1; if true { if false { let = 1; }; 2; } + 3; 4");
    assert_eq!(program.statements, vec![expression_statement(num(1)), expression_statement(num(4))]);
    assert_eq!(diagnostics, vec![(1, Expected::Identifier, TokenType::ASSIGN, "=".to_string())]);

    let (program, diagnostics) = parse("if true { let = 1 } - 2; 3");
    assert_eq!(program.statements, vec![expression_statement(num(3))]);
    assert_eq!(diagnostics.len(), 1);
}

#[test]
fn a_semicolon_inside_parentheses_is_no_boundary() {
    let (program, diagnostics) = parse("(1; 2) 3; 4");
    assert_eq!(program.statements, vec![expression_statement(num(4))]);
    assert_eq!(diagnostics, vec![(0, Expected::ClosingParen, TokenType::SEMICOLON, ";".to_string())]);

    let (program, diagnostics) = parse("(if true { let = 1 } 7); 8");
    assert_eq!(program.statements, vec![expression_statement(num(8))]);
    assert_eq!(diagnostics, vec![(0, Expected::Identifier, TokenType::ASSIGN, "=".to_string())]);
}

#[test]
fn a_block_that_is_not_closed_reaches_to_the_end() {
    let (program, diagnostics) = parse("0; if true { let = 1; 2; 3");
    assert_eq!(program.statements, vec![expression_statement(num(0))]);
    assert_eq!(diagnostics, vec![(1, Expected::Identifier, TokenType::ASSIGN, "=".to_string())]);
}

#[test]
fn a_brace_that_closes_nothing_opens_nothing() {
    let (program, diagnostics) = parse("} 1; 2; let = { ; 3 } ; 4");
    assert_eq!(program.statements, vec![expression_statement(num(2)), expression_statement(num(4))]);
    assert_eq!(
        diagnostics,
        vec![
            (0, Expected::Expression, TokenType::RBRACE, "}".to_string()),
            (2, Expected::Identifier, TokenType::ASSIGN, "=".to_string()),
        ]
    );
}

#[test]
fn recovery_counts_braces_under_equal_precedence_too() {
    let (program, diagnostics) = parse_flat("if x { 1; } ; let z = 10;");
    assert_eq!(program.statements, vec![let_statement("z", num(10))]);
    assert_eq!(diagnostics.len(), 1);
}

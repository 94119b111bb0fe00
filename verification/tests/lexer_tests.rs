use minilang::lexer::Lexer;
use minilang::token::{Token, TokenType};

fn check_tokens(input: &str, expected: &[(TokenType, &str)]) {
    let mut lex = Lexer::new(String::from(input));
    for (i, (kind, literal)) in expected.iter().enumerate() {
        let tok = lex.next_token();
        assert!(tok.t == *kind, "token {}: expected kind {:?}, got {:?}", i, kind, tok.t);
        assert!(
            tok.literal == *literal,
            "token {}: expected literal {:?}, got {:?}",
            i,
            literal,
            tok.literal
        );
    }
}

#[test]
fn test_next_token() {
    let input = String::from("+=(){},;");

    let tests = [
        Token { t: TokenType::PLUS, literal: String::from("+") },
        Token { t: TokenType::ASSIGN, literal: String::from("=") },
        Token { t: TokenType::LPAREN, literal: String::from("(") },
        Token { t: TokenType::RPAREN, literal: String::from(")") },
        Token { t: TokenType::LBRACE, literal: String::from("{") },
        Token { t: TokenType::RBRACE, literal: String::from("}") },
        Token { t: TokenType::COMMA, literal: String::from(",") },
        Token { t: TokenType::SEMICOLON, literal: String::from(";") },
        Token { t: TokenType::EOF, literal: String::from("\0") },
    ];

    let mut lex = Lexer::new(input);

    for test in tests.iter() {
        let tok = lex.next_token();
        println!("Testing: {:?} with type: {}", tok.t, tok.literal);
        assert!(tok.t == test.t, "There is an error with the Token Types");
        assert!(tok.literal == test.literal, "There is an error with the Token Literals");
    }
}

#[test]
fn test_lookup_identifier() {
    let input = String::from("let    x ==    5");

    let tests = [
        Token { t: TokenType::LET, literal: String::from("let") },
        Token { t: TokenType::IDENT, literal: String::from("x") },
        Token { t: TokenType::EQ, literal: String::from("==") },
        Token { t: TokenType::INT, literal: String::from("5") },
        Token { t: TokenType::EOF, literal: String::from("\0") },
    ];

    let mut lex = Lexer::new(input);

    for test in tests.iter() {
        let tok = lex.next_token();
        println!("{tok:?}");
        println!("Testing: {:?} with type: {}", tok.t, tok.literal);
        assert!(tok.t == test.t, "There is an error with the Token Types");
        assert!(tok.literal == test.literal, "There is an error with the Token Literals");
    }
}

#[test]
fn test_arithmetic_operators() {
    let input = String::from("+-*/");

    let tests = [
        Token { t: TokenType::PLUS, literal: String::from("+") },
        Token { t: TokenType::MINUS, literal: String::from("-") },
        Token { t: TokenType::STAR, literal: String::from("*") },
        Token { t: TokenType::SLASH, literal: String::from("/") },
        Token { t: TokenType::EOF, literal: String::from("\0") },
    ];

    let mut lex = Lexer::new(input);

    for test in tests.iter() {
        let tok = lex.next_token();
        println!("Testing: {:?} with type: {}", tok.t, tok.literal);
        assert!(tok.t == test.t, "There is an error with the Token Types");
        assert!(tok.literal == test.literal, "There is an error with the Token Literals");
    }
}

#[test]
fn test_comparison_operators() {
    let input = String::from(">= <= != ==");

    let tests = [
        Token { t: TokenType::GT, literal: String::from(">") },
        Token { t: TokenType::ASSIGN, literal: String::from("=") },
        Token { t: TokenType::LT, literal: String::from("<") },
        Token { t: TokenType::ASSIGN, literal: String::from("=") },
        Token { t: TokenType::NEQ, literal: String::from("!=") },
        Token { t: TokenType::EQ, literal: String::from("==") },
        Token { t: TokenType::EOF, literal: String::from("\0") },
    ];

    let mut lex = Lexer::new(input);

    for test in tests.iter() {
        let tok = lex.next_token();
        println!("Testing: {:?} with type: {}", tok.t, tok.literal);
        assert!(tok.t == test.t, "There is an error with the Token Types");
        assert!(tok.literal == test.literal, "There is an error with the Token Literals");
    }
}

#[test]
fn test_identifiers_and_keywords() {
    let input = String::from("let five = 5;;;;");

    let tests = [
        Token { t: TokenType::LET, literal: String::from("let") },
        Token { t: TokenType::IDENT, literal: String::from("five") },
        Token { t: TokenType::ASSIGN, literal: String::from("=") },
        Token { t: TokenType::INT, literal: String::from("5") },
        Token { t: TokenType::SEMICOLON, literal: String::from(";") },
        Token { t: TokenType::SEMICOLON, literal: String::from(";") },
        Token { t: TokenType::SEMICOLON, literal: String::from(";") },
        Token { t: TokenType::SEMICOLON, literal: String::from(";") },
        Token { t: TokenType::EOF, literal: String::from("\0") },
    ];

    let mut lex = Lexer::new(input);

    for (i, test) in tests.iter().enumerate() {
        let tok = lex.next_token();
        println!("Test {}: Expected {:?}, Got {:?}", i, test, tok);
        assert!(
            tok.t == test.t,
            "Error with Token Type at index {}: Expected {:?}, Got {:?}",
            i,
            test.t,
            tok.t
        );
        assert!(
            tok.literal == test.literal,
            "Error with Token Literal at index {}: Expected {:?}, Got {:?}",
            i,
            test.literal,
            tok.literal
        );
    }
}

#[test]
fn test_illegal_characters() {
    let input = String::from("@#$");

    let tests = [
        Token { t: TokenType::ILLEGAL, literal: String::from("@") },
        Token { t: TokenType::ILLEGAL, literal: String::from("#") },
        Token { t: TokenType::ILLEGAL, literal: String::from("$") },
        Token { t: TokenType::EOF, literal: String::from("\0") },
    ];

    let mut lex = Lexer::new(input);

    for test in tests.iter() {
        let tok = lex.next_token();
        println!("Testing: {:?} with type: {}", tok.t, tok.literal);
        assert!(tok.t == test.t, "There is an error with the Token Types");
        assert!(tok.literal == test.literal, "There is an error with the Token Literals");
    }
}

#[test]
fn tokenizes_a_let_statement() {
    check_tokens(
        "let x = 5;",
        &[
            (TokenType::LET, "let"),
            (TokenType::IDENT, "x"),
            (TokenType::ASSIGN, "="),
            (TokenType::INT, "5"),
            (TokenType::SEMICOLON, ";"),
            (TokenType::EOF, "\0"),
        ],
    );
}

#[test]
fn identifiers_may_hold_digits_and_underscores() {
    check_tokens(
        "x1 _y2_ a_b 3c",
        &[
            (TokenType::IDENT, "x1"),
            (TokenType::IDENT, "_y2_"),
            (TokenType::IDENT, "a_b"),
            (TokenType::INT, "3"),
            (TokenType::IDENT, "c"),
            (TokenType::EOF, "\0"),
        ],
    );
}

#[test]
fn every_keyword() {
    check_tokens(
        "let fun true false if else ret return lets Let",
        &[
            (TokenType::LET, "let"),
            (TokenType::FUNCTION, "fun"),
            (TokenType::TRUE, "true"),
            (TokenType::FALSE, "false"),
            (TokenType::IF, "if"),
            (TokenType::ELSE, "else"),
            (TokenType::IDENT, "ret"),
            (TokenType::RETURN, "return"),
            (TokenType::IDENT, "lets"),
            (TokenType::IDENT, "Let"),
            (TokenType::EOF, "\0"),
        ],
    );
}

#[test]
fn lookup_is_exact() {
    assert_eq!(Token::lookup_identifier("let"), TokenType::LET);
    assert_eq!(Token::lookup_identifier("fun"), TokenType::FUNCTION);
    assert_eq!(Token::lookup_identifier("true"), TokenType::TRUE);
    assert_eq!(Token::lookup_identifier("false"), TokenType::FALSE);
    assert_eq!(Token::lookup_identifier("if"), TokenType::IF);
    assert_eq!(Token::lookup_identifier("else"), TokenType::ELSE);
    assert_eq!(Token::lookup_identifier("return"), TokenType::RETURN);
    assert_eq!(Token::lookup_identifier("ret"), TokenType::IDENT);
    assert_eq!(Token::lookup_identifier("returns"), TokenType::IDENT);
    assert_eq!(Token::lookup_identifier("le"), TokenType::IDENT);
    assert_eq!(Token::lookup_identifier("IF"), TokenType::IDENT);
    assert_eq!(Token::lookup_identifier(""), TokenType::IDENT);
}

#[test]
fn the_end_marker_repeats() {
    let mut lex = Lexer::new(String::from("7  "));
    assert_eq!(lex.next_token().t, TokenType::INT);
    for _ in 0..5 {
        let tok = lex.next_token();
        assert_eq!(tok.t, TokenType::EOF);
        assert_eq!(tok.literal, "\0");
    }
}

#[test]
fn a_long_run_of_digits_is_one_literal() {
    let digits = "123456789012345678901234567890";
    check_tokens(digits, &[(TokenType::INT, digits), (TokenType::EOF, "\0")]);
    check_tokens("007", &[(TokenType::INT, "007"), (TokenType::EOF, "\0")]);
}

#[test]
fn characters_outside_the_language_are_illegal_tokens() {
    check_tokens(
        "a\r\u{0}\u{e9}b",
        &[
            (TokenType::IDENT, "a"),
            (TokenType::ILLEGAL, "\r"),
            (TokenType::ILLEGAL, "\0"),
            (TokenType::ILLEGAL, "\u{e9}"),
            (TokenType::IDENT, "b"),
            (TokenType::EOF, "\0"),
        ],
    );
}

#[test]
fn two_character_operators_need_both_characters() {
    check_tokens(
        "=== !== ! =",
        &[
            (TokenType::EQ, "=="),
            (TokenType::ASSIGN, "="),
            (TokenType::NEQ, "!="),
            (TokenType::ASSIGN, "="),
            (TokenType::BANG, "!"),
            (TokenType::ASSIGN, "="),
            (TokenType::EOF, "\0"),
        ],
    );
}

#[test]
fn the_cursor_moves_one_character_at_a_time() {
    let mut lex = Lexer::new(String::from("ab"));
    assert_eq!(lex.ch(), 'a');
    assert_eq!(lex.peek_char(), 'b');
    lex.read_char();
    assert_eq!(lex.ch(), 'b');
    assert_eq!(lex.peek_char(), '\0');
    lex.read_char();
    assert_eq!(lex.ch(), '\0');
    lex.read_char();
    assert_eq!(lex.ch(), '\0');
    assert_eq!(lex.peek_char(), '\0');
}

#[test]
fn runs_are_read_to_their_end() {
    let mut lex = Lexer::new(String::from(" \t\n abc_12+345 x"));
    lex.skip_spaces();
    assert_eq!(lex.ch(), 'a');
    assert_eq!(lex.read_identifier(), "abc_12");
    assert_eq!(lex.ch(), '+');
    assert_eq!(lex.read_number(), "");
    assert_eq!(lex.read_identifier(), "");
    lex.read_char();
    assert_eq!(lex.read_number(), "345");
    assert_eq!(lex.ch(), ' ');
    lex.skip_spaces();
    assert_eq!(lex.read_identifier(), "x");
    assert_eq!(lex.read_identifier(), "");
    assert_eq!(lex.ch(), '\0');
}

#[test]
fn the_lexer_drops_nothing_but_white_space() {
    let text = "let x1 = (5+ 10)\t*2 ;\n if !x == @ { return x_ } # 007";
    let mut lex = Lexer::new(String::from(text));
    let mut literals = String::new();
    loop {
        let tok = lex.next_token();
        if tok.t == TokenType::EOF {
            break;
        }
        literals.push_str(&tok.literal);
    }
    let expected: String = text.chars().filter(|c| !matches!(c, ' ' | '\t' | '\n')).collect();
    assert_eq!(literals, expected);
}

//! The token model: the closed set of lexical kinds and the token itself.

use vstd::prelude::*;

verus! {

/// The lexical kinds.
#[derive(PartialEq, Eq, Structural, Clone, Copy, Debug)]
pub enum TokenType {
    ILLEGAL,
    EOF,
    IDENT,
    INT,
    ASSIGN,
    PLUS,
    MINUS,
    BANG,
    STAR,
    SLASH,
    GT,
    LT,
    COMMA,
    SEMICOLON,
    LPAREN,
    RPAREN,
    LBRACE,
    RBRACE,
    EQ,
    NEQ,
    FUNCTION,
    LET,
    TRUE,
    FALSE,
    IF,
    ELSE,
    RETURN,
}

/// The name of a kind, as diagnostics show it.
pub open spec fn kind_name(kind: TokenType) -> Seq<char> {
    match kind {
        TokenType::ILLEGAL => "ILLEGAL"@,
        TokenType::EOF => "EOF"@,
        TokenType::IDENT => "IDENT"@,
        TokenType::INT => "INT"@,
        TokenType::ASSIGN => "ASSIGN"@,
        TokenType::PLUS => "PLUS"@,
        TokenType::MINUS => "MINUS"@,
        TokenType::BANG => "BANG"@,
        TokenType::STAR => "STAR"@,
        TokenType::SLASH => "SLASH"@,
        TokenType::GT => "GT"@,
        TokenType::LT => "LT"@,
        TokenType::COMMA => "COMMA"@,
        TokenType::SEMICOLON => "SEMICOLON"@,
        TokenType::LPAREN => "LPAREN"@,
        TokenType::RPAREN => "RPAREN"@,
        TokenType::LBRACE => "LBRACE"@,
        TokenType::RBRACE => "RBRACE"@,
        TokenType::EQ => "EQ"@,
        TokenType::NEQ => "NEQ"@,
        TokenType::FUNCTION => "FUNCTION"@,
        TokenType::LET => "LET"@,
        TokenType::TRUE => "TRUE"@,
        TokenType::FALSE => "FALSE"@,
        TokenType::IF => "IF"@,
        TokenType::ELSE => "ELSE"@,
        TokenType::RETURN => "RETURN"@,
    }
}

impl TokenType {
    /// The name of the kind.
    pub fn name(self) -> (name: &'static str)
        ensures
            name@ == kind_name(self),
    {
        match self {
            TokenType::ILLEGAL => "ILLEGAL",
            TokenType::EOF => "EOF",
            TokenType::IDENT => "IDENT",
            TokenType::INT => "INT",
            TokenType::ASSIGN => "ASSIGN",
            TokenType::PLUS => "PLUS",
            TokenType::MINUS => "MINUS",
            TokenType::BANG => "BANG",
            TokenType::STAR => "STAR",
            TokenType::SLASH => "SLASH",
            TokenType::GT => "GT",
            TokenType::LT => "LT",
            TokenType::COMMA => "COMMA",
            TokenType::SEMICOLON => "SEMICOLON",
            TokenType::LPAREN => "LPAREN",
            TokenType::RPAREN => "RPAREN",
            TokenType::LBRACE => "LBRACE",
            TokenType::RBRACE => "RBRACE",
            TokenType::EQ => "EQ",
            TokenType::NEQ => "NEQ",
            TokenType::FUNCTION => "FUNCTION",
            TokenType::LET => "LET",
            TokenType::TRUE => "TRUE",
            TokenType::FALSE => "FALSE",
            TokenType::IF => "IF",
            TokenType::ELSE => "ELSE",
            TokenType::RETURN => "RETURN",
        }
    }
}

/// A token: its kind and the text it was read from.
#[derive(Debug)]
pub struct Token {
    pub t: TokenType,
    pub literal: String,
}

/// The mathematical value of a token.
pub struct TokenView {
    pub t: TokenType,
    pub literal: Seq<char>,
}

impl View for Token {
    type V = TokenView;

    open spec fn view(&self) -> TokenView {
        TokenView { t: self.t, literal: self.literal@ }
    }
}

impl Clone for Token {
    fn clone(&self) -> (copy: Token)
        ensures
            copy@ == self@,
    {
        Token { t: self.t, literal: self.literal.clone() }
    }
}

/// The kind that the keyword table gives to a word: one of the keywords, or
/// `IDENT` for every other text.
pub open spec fn keyword_kind(word: Seq<char>) -> TokenType {
    if word == "let"@ {
        TokenType::LET
    } else if word == "fun"@ {
        TokenType::FUNCTION
    } else if word == "true"@ {
        TokenType::TRUE
    } else if word == "false"@ {
        TokenType::FALSE
    } else if word == "if"@ {
        TokenType::IF
    } else if word == "else"@ {
        TokenType::ELSE
    } else if word == "return"@ {
        TokenType::RETURN
    } else {
        TokenType::IDENT
    }
}

/// Whether two texts hold the same characters.
pub fn same_text(a: &str, b: &str) -> (same: bool)
    ensures
        same == (a@ == b@),
{
    let n = a.unicode_len();
    if b.unicode_len() != n {
        return false;
    }
    let mut i: usize = 0;
    while i < n
        invariant
            n == a@.len(),
            n == b@.len(),
            i <= n,
            forall|k: int| 0 <= k < i ==> a@[k] == b@[k],
        decreases n - i,
    {
        if a.get_char(i) != b.get_char(i) {
            return false;
        }
        i += 1;
    }
    assert(a@ =~= b@);
    true
}

impl Token {
    /// Looks a word up in the keyword table.
    pub fn lookup_identifier(s: &str) -> (kind: TokenType)
        ensures
            kind == keyword_kind(s@),
    {
        if same_text(s, "let") {
            TokenType::LET
        } else if same_text(s, "fun") {
            TokenType::FUNCTION
        } else if same_text(s, "true") {
            TokenType::TRUE
        } else if same_text(s, "false") {
            TokenType::FALSE
        } else if same_text(s, "if") {
            TokenType::IF
        } else if same_text(s, "else") {
            TokenType::ELSE
        } else if same_text(s, "return") {
            TokenType::RETURN
        } else {
            TokenType::IDENT
        }
    }
}

} // verus!

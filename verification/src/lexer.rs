//! The lexer: turns source text into tokens, one at a time.

use vstd::prelude::*;
use crate::token::{keyword_kind, Token, TokenType, TokenView};

verus! {

/// The character classes whose maximal runs the lexer consumes.
#[derive(PartialEq, Eq, Structural, Clone, Copy, Debug)]
pub enum CharClass {
    /// Space, tab and newline.
    Space,
    /// The decimal digits.
    Digit,
    /// Letters, digits and the underscore: what an identifier is made of.
    Word,
}

/// A letter of the ASCII alphabet or the underscore: what starts an identifier.
pub open spec fn is_letter(c: char) -> bool {
    ('a' <= c && c <= 'z') || ('A' <= c && c <= 'Z') || c == '_'
}

/// A decimal digit.
pub open spec fn is_digit(c: char) -> bool {
    '0' <= c && c <= '9'
}

/// Space, tab or newline.
pub open spec fn is_space(c: char) -> bool {
    c == ' ' || c == '\t' || c == '\n'
}

/// Whether a character belongs to a class.
pub open spec fn in_class(class: CharClass, c: char) -> bool {
    match class {
        CharClass::Space => is_space(c),
        CharClass::Digit => is_digit(c),
        CharClass::Word => is_letter(c) || is_digit(c),
    }
}

/// The character at position `i`, or NUL outside the text.
pub open spec fn char_at(s: Seq<char>, i: int) -> char {
    if 0 <= i < s.len() {
        s[i]
    } else {
        '\0'
    }
}

/// Whether `j` ends the maximal run of `class` characters that starts at `i`:
/// every character in between belongs to the class, and the run cannot be
/// extended.
pub open spec fn is_run_end(s: Seq<char>, class: CharClass, i: int, j: int) -> bool {
    &&& i <= j
    &&& i < j ==> 0 <= i && j <= s.len()
    &&& forall|k: int| i <= k < j ==> in_class(class, #[trigger] s[k])
    &&& !(0 <= j < s.len() && in_class(class, s[j]))
}

/// The end of the maximal run of `class` characters that starts at `i`.
pub open spec fn run_end(s: Seq<char>, class: CharClass, i: int) -> int
    decreases s.len() - i,
{
    if 0 <= i < s.len() && in_class(class, s[i]) {
        run_end(s, class, i + 1)
    } else {
        i
    }
}

/// `run_end` is the one position that ends the maximal run.
pub proof fn lemma_run_end(s: Seq<char>, class: CharClass, i: int)
    ensures
        is_run_end(s, class, i, run_end(s, class, i)),
        forall|j: int| is_run_end(s, class, i, j) ==> j == run_end(s, class, i),
    decreases s.len() - i,
{
    if 0 <= i < s.len() && in_class(class, s[i]) {
        lemma_run_end(s, class, i + 1);
        let e = run_end(s, class, i + 1);
        assert forall|j: int| is_run_end(s, class, i, j) implies j == e by {
            assert(j > i ==> is_run_end(s, class, i + 1, j));
        }
    }
}

/// A token together with the position at which the lexer stands after it.
pub struct Lexeme {
    pub token: TokenView,
    pub end: int,
}

/// The token that marks the end of the input.
pub open spec fn eof_token() -> TokenView {
    TokenView { t: TokenType::EOF, literal: seq!['\0'] }
}

/// The kind of a punctuation character that is a token by itself whatever
/// follows it.
pub open spec fn punctuation_kind(c: char) -> Option<TokenType> {
    if c == '+' {
        Some(TokenType::PLUS)
    } else if c == '-' {
        Some(TokenType::MINUS)
    } else if c == '*' {
        Some(TokenType::STAR)
    } else if c == '/' {
        Some(TokenType::SLASH)
    } else if c == '>' {
        Some(TokenType::GT)
    } else if c == '<' {
        Some(TokenType::LT)
    } else if c == ',' {
        Some(TokenType::COMMA)
    } else if c == ';' {
        Some(TokenType::SEMICOLON)
    } else if c == '(' {
        Some(TokenType::LPAREN)
    } else if c == ')' {
        Some(TokenType::RPAREN)
    } else if c == '{' {
        Some(TokenType::LBRACE)
    } else if c == '}' {
        Some(TokenType::RBRACE)
    } else {
        None
    }
}

/// The token that starts at `start`, a position inside the text that holds no
/// white space.
pub open spec fn lexeme_from(s: Seq<char>, start: int) -> Lexeme {
    let c = s[start];
    if c == '=' || c == '!' {
        if char_at(s, start + 1) == '=' {
            Lexeme {
                token: TokenView {
                    t: if c == '=' { TokenType::EQ } else { TokenType::NEQ },
                    literal: s.subrange(start, start + 2),
                },
                end: start + 2,
            }
        } else {
            Lexeme {
                token: TokenView {
                    t: if c == '=' { TokenType::ASSIGN } else { TokenType::BANG },
                    literal: s.subrange(start, start + 1),
                },
                end: start + 1,
            }
        }
    } else if punctuation_kind(c) is Some {
        Lexeme {
            token: TokenView { t: punctuation_kind(c)->0, literal: s.subrange(start, start + 1) },
            end: start + 1,
        }
    } else if is_letter(c) {
        let end = run_end(s, CharClass::Word, start);
        let word = s.subrange(start, end);
        Lexeme { token: TokenView { t: keyword_kind(word), literal: word }, end }
    } else if is_digit(c) {
        let end = run_end(s, CharClass::Digit, start);
        Lexeme { token: TokenView { t: TokenType::INT, literal: s.subrange(start, end) }, end }
    } else {
        Lexeme {
            token: TokenView { t: TokenType::ILLEGAL, literal: s.subrange(start, start + 1) },
            end: start + 1,
        }
    }
}

/// The next token of `s` for a lexer that stands at `i`: white space is
/// skipped, then one token is read; at the end of the text the token is the
/// end marker and the position stays.
pub open spec fn lexeme_at(s: Seq<char>, i: int) -> Lexeme {
    let start = run_end(s, CharClass::Space, i);
    if 0 <= start < s.len() {
        lexeme_from(s, start)
    } else {
        Lexeme { token: eof_token(), end: start }
    }
}

/// Whether the lexer that stands at `i` has only white space left.
pub open spec fn at_end(s: Seq<char>, i: int) -> bool {
    !(0 <= run_end(s, CharClass::Space, i) < s.len())
}

/// Every token but the end marker takes at least one character, and none
/// reaches beyond the text.
pub proof fn lemma_lexeme_advances(s: Seq<char>, i: int)
    requires
        0 <= i <= s.len(),
    ensures
        i <= lexeme_at(s, i).end <= s.len(),
        !at_end(s, i) ==> i < lexeme_at(s, i).end,
        at_end(s, i) <==> lexeme_at(s, i).token.t == TokenType::EOF,
        at_end(s, i) ==> lexeme_at(s, i).token == eof_token() && lexeme_at(s, i).end == s.len(),
{
    lemma_run_end(s, CharClass::Space, i);
    let start = run_end(s, CharClass::Space, i);
    if 0 <= start < s.len() {
        lemma_run_end(s, CharClass::Word, start);
        lemma_run_end(s, CharClass::Digit, start);
        lemma_keyword_kind_range(s.subrange(start, run_end(s, CharClass::Word, start)));
    }
}

/// The keyword table gives a keyword or `IDENT`, never another kind.
pub proof fn lemma_keyword_kind_range(word: Seq<char>)
    ensures
        keyword_kind(word) == TokenType::IDENT || keyword_kind(word) == TokenType::LET
            || keyword_kind(word) == TokenType::FUNCTION || keyword_kind(word) == TokenType::TRUE
            || keyword_kind(word) == TokenType::FALSE || keyword_kind(word) == TokenType::IF
            || keyword_kind(word) == TokenType::ELSE || keyword_kind(word) == TokenType::RETURN,
{
}

/// The tokens that a lexer standing at `i` gives before the end marker.
pub open spec fn tokens_from(s: Seq<char>, i: int) -> Seq<TokenView>
    decreases s.len() - i,
{
    if 0 <= i <= s.len() && !at_end(s, i) {
        proof {
            lemma_lexeme_advances(s, i);
        }
        seq![lexeme_at(s, i).token] + tokens_from(s, lexeme_at(s, i).end)
    } else {
        Seq::empty()
    }
}

/// The tokens of a whole text, without the end marker.
pub open spec fn tokenize(s: Seq<char>) -> Seq<TokenView> {
    tokens_from(s, 0)
}

/// How the tokens from a position unfold: at the end of the text there are
/// none, there and behind the end marker; anywhere else they are the next
/// token followed by the tokens from where it ends.
pub proof fn lemma_tokens_unfold(s: Seq<char>, i: int)
    requires
        0 <= i <= s.len(),
    ensures
        0 <= lexeme_at(s, i).end <= s.len(),
        lexeme_at(s, i).token.t == TokenType::EOF ==> lexeme_at(s, i).token == eof_token()
            && tokens_from(s, i) == Seq::<TokenView>::empty() && tokens_from(
            s,
            lexeme_at(s, i).end,
        ) == Seq::<TokenView>::empty(),
        lexeme_at(s, i).token.t != TokenType::EOF ==> tokens_from(s, i) == seq![
            lexeme_at(s, i).token,
        ] + tokens_from(s, lexeme_at(s, i).end),
{
    lemma_lexeme_advances(s, i);
    if at_end(s, i) {
        lemma_run_end(s, CharClass::Space, s.len() as int);
    }
}

/// There are no more tokens than characters.
pub proof fn lemma_tokens_len(s: Seq<char>, i: int)
    requires
        0 <= i <= s.len(),
    ensures
        tokens_from(s, i).len() <= s.len() - i,
    decreases s.len() - i,
{
    lemma_lexeme_advances(s, i);
    if !at_end(s, i) {
        lemma_tokens_len(s, lexeme_at(s, i).end);
    }
}

/// Once the end marker has been given, every further token is the end marker
/// again and the position no longer moves.
pub proof fn lemma_end_marker_repeats(s: Seq<char>, i: int)
    requires
        0 <= i <= s.len(),
        lexeme_at(s, i).token.t == TokenType::EOF,
    ensures
        lexeme_at(s, lexeme_at(s, i).end) == lexeme_at(s, i),
{
    lemma_lexeme_advances(s, i);
    lemma_run_end(s, CharClass::Space, i);
    lemma_run_end(s, CharClass::Space, s.len() as int);
}

/// A text made of decimal digits alone is read as one integer token whose
/// literal is that very text, whatever its length.
pub proof fn lemma_digits_round_trip(digits: Seq<char>)
    requires
        digits.len() > 0,
        forall|k: int| 0 <= k < digits.len() ==> is_digit(#[trigger] digits[k]),
    ensures
        lexeme_at(digits, 0).token == (TokenView { t: TokenType::INT, literal: digits }),
        lexeme_at(digits, 0).end == digits.len(),
        tokenize(digits) == seq![TokenView { t: TokenType::INT, literal: digits }],
{
    let n = digits.len() as int;
    lemma_run_end(digits, CharClass::Space, 0);
    lemma_run_end(digits, CharClass::Digit, 0);
    assert(digits.subrange(0, n) =~= digits);
    lemma_run_end(digits, CharClass::Space, n);
    assert(tokens_from(digits, n) =~= Seq::empty());
}

/// A lexer over one unit of source text.
pub struct Lexer {
    input: String,
    length: usize,
    index: usize,
    ch: char,
}

impl Lexer {
    /// The text that is being read.
    pub closed spec fn source(&self) -> Seq<char> {
        self.input@
    }

    /// The position of the character under the cursor; the length of the
    /// text once it is exhausted.
    pub closed spec fn cursor(&self) -> int {
        self.index as int
    }

    /// The invariant of the lexer: the cursor lies inside the text or at its
    /// end, and the remembered character is the one under the cursor.
    pub closed spec fn wf(&self) -> bool {
        &&& self.length == self.input@.len()
        &&& self.index <= self.length
        &&& self.ch == char_at(self.input@, self.index as int)
    }

    /// The cursor of a well-formed lexer lies inside the text or at its end,
    /// and the length of the text is a machine number.
    pub proof fn lemma_cursor_in_range(&self)
        requires
            self.wf(),
        ensures
            0 <= self.cursor() <= self.source().len() <= usize::MAX,
    {
    }

    /// A lexer at the start of `input`.
    pub fn new(input: String) -> (lexer: Lexer)
        ensures
            lexer.wf(),
            lexer.source() == input@,
            lexer.cursor() == 0,
    {
        let length = input.as_str().unicode_len();
        let ch = if length > 0 {
            input.as_str().get_char(0)
        } else {
            '\0'
        };
        Lexer { input, length, index: 0, ch }
    }

    /// The character under the cursor, NUL at the end of the text.
    pub fn ch(&self) -> (c: char)
        requires
            self.wf(),
        ensures
            c == char_at(self.source(), self.cursor()),
    {
        self.ch
    }

    /// Moves the cursor one character forward; at the end of the text it
    /// stays.
    pub fn read_char(&mut self)
        requires
            old(self).wf(),
        ensures
            final(self).wf(),
            final(self).source() == old(self).source(),
            final(self).cursor() == if old(self).cursor() < old(self).source().len() {
                old(self).cursor() + 1
            } else {
                old(self).cursor()
            },
    {
        if self.index < self.length {
            self.index = self.index + 1;
        }
        self.ch = if self.index < self.length {
            self.input.as_str().get_char(self.index)
        } else {
            '\0'
        };
    }

    /// The character after the one under the cursor, NUL if there is none.
    /// The cursor does not move.
    pub fn peek_char(&self) -> (c: char)
        requires
            self.wf(),
        ensures
            c == char_at(self.source(), self.cursor() + 1),
    {
        if self.index < self.length && self.index + 1 < self.length {
            self.input.as_str().get_char(self.index + 1)
        } else {
            '\0'
        }
    }

    fn is_letter(ch: char) -> (yes: bool)
        ensures
            yes == is_letter(ch),
    {
        (ch >= 'a' && ch <= 'z') || (ch >= 'A' && ch <= 'Z') || ch == '_'
    }

    fn is_digit(ch: char) -> (yes: bool)
        ensures
            yes == is_digit(ch),
    {
        ch <= '9' && ch >= '0'
    }

    fn is_space(ch: char) -> (yes: bool)
        ensures
            yes == is_space(ch),
    {
        ch == ' ' || ch == '\t' || ch == '\n'
    }

    fn belongs(class: CharClass, ch: char) -> (yes: bool)
        ensures
            yes == in_class(class, ch),
    {
        match class {
            CharClass::Space => Lexer::is_space(ch),
            CharClass::Digit => Lexer::is_digit(ch),
            CharClass::Word => Lexer::is_letter(ch) || Lexer::is_digit(ch),
        }
    }

    /// Moves the cursor to the end of the run of `class` characters that
    /// starts under it.
    fn skip_run(&mut self, class: CharClass)
        requires
            old(self).wf(),
        ensures
            final(self).wf(),
            final(self).source() == old(self).source(),
            final(self).cursor() == run_end(old(self).source(), class, old(self).cursor()),
    {
        while self.index < self.length && Lexer::belongs(class, self.ch)
            invariant
                self.wf(),
                self.input@ == old(self).input@,
                old(self).index <= self.index,
                run_end(self.input@, class, self.index as int) == run_end(
                    old(self).input@,
                    class,
                    old(self).index as int,
                ),
            decreases self.length - self.index,
        {
            self.read_char();
        }
    }

    /// The text between two positions, as a string of its own.
    fn slice(&self, from: usize, to: usize) -> (text: String)
        requires
            self.wf(),
            from <= to <= self.source().len(),
        ensures
            text@ == self.source().subrange(from as int, to as int),
    {
        String::from_str(self.input.as_str().substring_char(from, to))
    }

    /// Reads the maximal run of letters, digits and underscores that starts
    /// under the cursor, and leaves the cursor behind it.
    pub fn read_identifier(&mut self) -> (word: String)
        requires
            old(self).wf(),
        ensures
            final(self).wf(),
            final(self).source() == old(self).source(),
            is_run_end(old(self).source(), CharClass::Word, old(self).cursor(), final(self).cursor()),
            word@ == old(self).source().subrange(old(self).cursor(), final(self).cursor()),
    {
        let s = self.index;
        proof {
            lemma_run_end(self.input@, CharClass::Word, s as int);
        }
        self.skip_run(CharClass::Word);
        let e = self.index;
        self.slice(s, e)
    }

    /// Reads the maximal run of decimal digits that starts under the cursor,
    /// and leaves the cursor behind it.
    pub fn read_number(&mut self) -> (digits: String)
        requires
            old(self).wf(),
        ensures
            final(self).wf(),
            final(self).source() == old(self).source(),
            is_run_end(old(self).source(), CharClass::Digit, old(self).cursor(), final(self).cursor()),
            digits@ == old(self).source().subrange(old(self).cursor(), final(self).cursor()),
    {
        let s = self.index;
        proof {
            lemma_run_end(self.input@, CharClass::Digit, s as int);
        }
        self.skip_run(CharClass::Digit);
        let e = self.index;
        self.slice(s, e)
    }

    /// Moves the cursor over spaces, tabs and newlines to the next character
    /// that is none of them, or to the end of the text.
    pub fn skip_spaces(&mut self)
        requires
            old(self).wf(),
        ensures
            final(self).wf(),
            final(self).source() == old(self).source(),
            is_run_end(old(self).source(), CharClass::Space, old(self).cursor(), final(self).cursor()),
    {
        proof {
            lemma_run_end(self.input@, CharClass::Space, self.index as int);
        }
        self.skip_run(CharClass::Space);
    }

    /// A token of `kind` made of the `width` characters under the cursor; the
    /// cursor moves behind them.
    fn take(&mut self, kind: TokenType, width: usize) -> (token: Token)
        requires
            old(self).wf(),
            1 <= width <= 2,
            old(self).cursor() + width <= old(self).source().len(),
        ensures
            final(self).wf(),
            final(self).source() == old(self).source(),
            final(self).cursor() == old(self).cursor() + width,
            token@ == (TokenView {
                t: kind,
                literal: old(self).source().subrange(
                    old(self).cursor(),
                    old(self).cursor() + width,
                ),
            }),
    {
        let literal = self.slice(self.index, self.index + width);
        self.read_char();
        if width == 2 {
            self.read_char();
        }
        Token { t: kind, literal }
    }

    /// Reads the next token: skips white space, then recognises a two-character
    /// operator, a punctuation character, a word, a number, or an illegal
    /// character. At the end of the text it gives the end marker, on every
    /// call.
    pub fn next_token(&mut self) -> (token: Token)
        requires
            old(self).wf(),
        ensures
            final(self).wf(),
            final(self).source() == old(self).source(),
            token@ == lexeme_at(old(self).source(), old(self).cursor()).token,
            final(self).cursor() == lexeme_at(old(self).source(), old(self).cursor()).end,
    {
        self.skip_spaces();
        proof {
            lemma_run_end(self.input@, CharClass::Space, old(self).index as int);
        }
        if self.index >= self.length {
            proof {
                reveal_strlit("\0");
                assert("\0"@ =~= seq!['\0']);
            }
            return Token { t: TokenType::EOF, literal: String::from_str("\0") };
        }
        let c = self.ch;
        if c == '=' {
            if self.peek_char() == '=' {
                self.take(TokenType::EQ, 2)
            } else {
                self.take(TokenType::ASSIGN, 1)
            }
        } else if c == '!' {
            if self.peek_char() == '=' {
                self.take(TokenType::NEQ, 2)
            } else {
                self.take(TokenType::BANG, 1)
            }
        } else if c == '+' {
            self.take(TokenType::PLUS, 1)
        } else if c == '-' {
            self.take(TokenType::MINUS, 1)
        } else if c == '*' {
            self.take(TokenType::STAR, 1)
        } else if c == '/' {
            self.take(TokenType::SLASH, 1)
        } else if c == '>' {
            self.take(TokenType::GT, 1)
        } else if c == '<' {
            self.take(TokenType::LT, 1)
        } else if c == ',' {
            self.take(TokenType::COMMA, 1)
        } else if c == ';' {
            self.take(TokenType::SEMICOLON, 1)
        } else if c == '(' {
            self.take(TokenType::LPAREN, 1)
        } else if c == ')' {
            self.take(TokenType::RPAREN, 1)
        } else if c == '{' {
            self.take(TokenType::LBRACE, 1)
        } else if c == '}' {
            self.take(TokenType::RBRACE, 1)
        } else if Lexer::is_letter(c) {
            let ghost start = self.index as int;
            let word = self.read_identifier();
            proof {
                lemma_run_end(self.input@, CharClass::Word, start);
            }
            let kind = Token::lookup_identifier(word.as_str());
            Token { t: kind, literal: word }
        } else if Lexer::is_digit(c) {
            let ghost start = self.index as int;
            let digits = self.read_number();
            proof {
                lemma_run_end(self.input@, CharClass::Digit, start);
            }
            Token { t: TokenType::INT, literal: digits }
        } else {
            self.take(TokenType::ILLEGAL, 1)
        }
    }
}

} // verus!

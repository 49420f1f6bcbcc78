//! The lexer: from the characters of a source text to tokens, one at a time.

use vstd::prelude::*;
use vstd::string::StrSliceExecFns;
use vstd::string::StringExecFns;
use crate::text::string_from_chars;

verus! {

/// The kinds of token.
#[derive(Debug, Clone, Copy, PartialEq, Eq, Structural)]
pub enum TokenType {
    // Single-character tokens
    LeftParen,
    RightParen,
    LeftBrace,
    RightBrace,
    Comma,
    Dot,
    Minus,
    Plus,
    Semicolon,
    Slash,
    Star,
    // One or two character tokens
    Bang,
    BangEqual,
    Equal,
    EqualEqual,
    Greater,
    GreaterEqual,
    Less,
    LessEqual,
    // Literals
    Identifier,
    String,
    Number,
    // Keywords
    And,
    Class,
    Else,
    False,
    For,
    Fun,
    If,
    Nil,
    Or,
    Print,
    Return,
    Super,
    This,
    True,
    Var,
    While,
    Error,
    Eof,
}

/// A token: its kind, the text it was made from, and the line it ends on. An
/// error token carries its message in place of the text.
#[derive(Debug)]
pub struct Token {
    pub token_type: TokenType,
    pub lexeme: String,
    pub line: usize,
}

/// What a token holds.
pub struct TokenView {
    pub kind: TokenType,
    pub lexeme: Seq<char>,
    pub line: nat,
}

impl View for Token {
    type V = TokenView;

    open spec fn view(&self) -> TokenView {
        TokenView { kind: self.token_type, lexeme: self.lexeme@, line: self.line as nat }
    }
}

impl Clone for Token {
    fn clone(&self) -> (r: Token)
        ensures
            r@ == self@,
    {
        Token { token_type: self.token_type, lexeme: self.lexeme.clone(), line: self.line }
    }
}

/// Where a lexer stands in its source.
pub struct Cursor {
    /// The characters of the source.
    pub chars: Seq<char>,
    /// The offset of the next character to read.
    pub pos: nat,
    /// The line of that character, counted from 1.
    pub line: nat,
}

/// Whether `c` is one of the ten ASCII digits.
pub open spec fn is_digit(c: char) -> bool {
    '0' <= c <= '9'
}

/// Whether `c` can start an identifier: an ASCII letter or an underscore.
pub open spec fn is_alpha(c: char) -> bool {
    ('a' <= c <= 'z') || ('A' <= c <= 'Z') || c == '_'
}

/// The offset of the first line feed at or after `pos`, or the length of the
/// text if there is none.
pub open spec fn line_end(chars: Seq<char>, pos: nat) -> nat
    decreases chars.len() - pos,
{
    if pos >= chars.len() || chars[pos as int] == '\n' {
        pos
    } else {
        line_end(chars, pos + 1)
    }
}

/// The offset of the first character at or after `pos` that is no digit.
pub open spec fn digits_end(chars: Seq<char>, pos: nat) -> nat
    decreases chars.len() - pos,
{
    if pos >= chars.len() || !is_digit(chars[pos as int]) {
        pos
    } else {
        digits_end(chars, pos + 1)
    }
}

/// The offset of the first character at or after `pos` that cannot be part
/// of an identifier.
pub open spec fn word_end(chars: Seq<char>, pos: nat) -> nat
    decreases chars.len() - pos,
{
    if pos >= chars.len() || !(is_alpha(chars[pos as int]) || is_digit(chars[pos as int])) {
        pos
    } else {
        word_end(chars, pos + 1)
    }
}

/// The offset of the first double quote at or after `pos`, or the length of
/// the text if there is none.
pub open spec fn quote_end(chars: Seq<char>, pos: nat) -> nat
    decreases chars.len() - pos,
{
    if pos >= chars.len() || chars[pos as int] == '"' {
        pos
    } else {
        quote_end(chars, pos + 1)
    }
}

/// The number of line feeds in `chars[from..to]`.
pub open spec fn line_feeds(chars: Seq<char>, from: nat, to: nat) -> nat
    decreases to - from,
{
    if from >= to || to > chars.len() {
        0
    } else if chars[(to - 1) as int] == '\n' {
        line_feeds(chars, from, (to - 1) as nat) + 1
    } else {
        line_feeds(chars, from, (to - 1) as nat)
    }
}

/// Where the blank stretch that starts at `pos` ends, and the line there.
/// Spaces, tabs, carriage returns and line feeds are blank, and so is a
/// comment: two slashes and all that follows them on their line.
pub open spec fn skip_blank(chars: Seq<char>, pos: nat, line: nat) -> (nat, nat)
    decreases chars.len() - pos,
{
    if pos >= chars.len() {
        (pos, line)
    } else if chars[pos as int] == ' ' || chars[pos as int] == '\r' || chars[pos as int] == '\t' {
        skip_blank(chars, pos + 1, line)
    } else if chars[pos as int] == '\n' {
        skip_blank(chars, pos + 1, line + 1)
    } else if chars[pos as int] == '/' && pos + 1 < chars.len() && chars[(pos + 1) as int] == '/' {
        let end = line_end(chars, pos + 2);
        if pos < end <= chars.len() {
            skip_blank(chars, end, line)
        } else {
            (pos, line)
        }
    } else {
        (pos, line)
    }
}

/// Where the number that starts at `pos` ends: after its digits, and after a
/// fraction if a dot and at least one digit follow them.
pub open spec fn number_end(chars: Seq<char>, pos: nat) -> nat {
    let whole = digits_end(chars, pos);
    if whole + 1 < chars.len() && chars[whole as int] == '.' && is_digit(
        chars[(whole + 1) as int],
    ) {
        digits_end(chars, whole + 1)
    } else {
        whole
    }
}

/// The kind of a word: that of the keyword it spells, else `Identifier`.
pub open spec fn word_kind(word: Seq<char>) -> TokenType {
    if word == "and"@ {
        TokenType::And
    } else if word == "class"@ {
        TokenType::Class
    } else if word == "else"@ {
        TokenType::Else
    } else if word == "false"@ {
        TokenType::False
    } else if word == "for"@ {
        TokenType::For
    } else if word == "fun"@ {
        TokenType::Fun
    } else if word == "if"@ {
        TokenType::If
    } else if word == "nil"@ {
        TokenType::Nil
    } else if word == "or"@ {
        TokenType::Or
    } else if word == "print"@ {
        TokenType::Print
    } else if word == "return"@ {
        TokenType::Return
    } else if word == "super"@ {
        TokenType::Super
    } else if word == "this"@ {
        TokenType::This
    } else if word == "true"@ {
        TokenType::True
    } else if word == "var"@ {
        TokenType::Var
    } else if word == "while"@ {
        TokenType::While
    } else {
        TokenType::Identifier
    }
}

/// The kind of the operator that starts with `first`: the two-character
/// form if an equals sign follows, else the one-character form.
pub open spec fn operator_kind(first: char, followed: bool) -> TokenType {
    if first == '!' {
        if followed {
            TokenType::BangEqual
        } else {
            TokenType::Bang
        }
    } else if first == '=' {
        if followed {
            TokenType::EqualEqual
        } else {
            TokenType::Equal
        }
    } else if first == '<' {
        if followed {
            TokenType::LessEqual
        } else {
            TokenType::Less
        }
    } else {
        if followed {
            TokenType::GreaterEqual
        } else {
            TokenType::Greater
        }
    }
}

/// The kind of the token that the punctuation character `c` makes by
/// itself, if it makes one.
pub open spec fn punctuation_kind(c: char) -> Option<TokenType> {
    if c == '(' {
        Some(TokenType::LeftParen)
    } else if c == ')' {
        Some(TokenType::RightParen)
    } else if c == '{' {
        Some(TokenType::LeftBrace)
    } else if c == '}' {
        Some(TokenType::RightBrace)
    } else if c == ';' {
        Some(TokenType::Semicolon)
    } else if c == ',' {
        Some(TokenType::Comma)
    } else if c == '.' {
        Some(TokenType::Dot)
    } else if c == '-' {
        Some(TokenType::Minus)
    } else if c == '+' {
        Some(TokenType::Plus)
    } else if c == '/' {
        Some(TokenType::Slash)
    } else if c == '*' {
        Some(TokenType::Star)
    } else {
        None
    }
}

/// Whether `c` starts an operator that an equals sign may extend.
pub open spec fn is_operator_start(c: char) -> bool {
    c == '!' || c == '=' || c == '<' || c == '>'
}

/// The token that starts at `start`, which is inside the text and not
/// blank, and the cursor behind it.
pub open spec fn token_at(chars: Seq<char>, start: nat, line: nat) -> (TokenView, Cursor) {
    let c = chars[start as int];
    if punctuation_kind(c) is Some {
        (
            TokenView {
                kind: punctuation_kind(c)->0,
                lexeme: chars.subrange(start as int, (start + 1) as int),
                line,
            },
            Cursor { chars, pos: start + 1, line },
        )
    } else if is_operator_start(c) {
        let followed = start + 1 < chars.len() && chars[(start + 1) as int] == '=';
        let end = if followed {
            start + 2
        } else {
            start + 1
        };
        (
            TokenView {
                kind: operator_kind(c, followed),
                lexeme: chars.subrange(start as int, end as int),
                line,
            },
            Cursor { chars, pos: end as nat, line },
        )
    } else if c == '"' {
        let close = quote_end(chars, start + 1);
        let last_line = line + line_feeds(chars, start + 1, close);
        if close >= chars.len() {
            (
                TokenView {
                    kind: TokenType::Error,
                    lexeme: "Unterminated string."@,
                    line: last_line,
                },
                Cursor { chars, pos: close, line: last_line },
            )
        } else {
            (
                TokenView {
                    kind: TokenType::String,
                    lexeme: chars.subrange(start as int, (close + 1) as int),
                    line: last_line,
                },
                Cursor { chars, pos: close + 1, line: last_line },
            )
        }
    } else if is_digit(c) {
        let end = number_end(chars, start + 1);
        (
            TokenView {
                kind: TokenType::Number,
                lexeme: chars.subrange(start as int, end as int),
                line,
            },
            Cursor { chars, pos: end, line },
        )
    } else if is_alpha(c) {
        let end = word_end(chars, start + 1);
        let word = chars.subrange(start as int, end as int);
        (TokenView { kind: word_kind(word), lexeme: word, line }, Cursor { chars, pos: end, line })
    } else {
        (
            TokenView { kind: TokenType::Error, lexeme: "Unexpected character."@, line },
            Cursor { chars, pos: start + 1, line },
        )
    }
}

impl Cursor {
    /// The cursor at the start of a text.
    pub open spec fn start(chars: Seq<char>) -> Cursor {
        Cursor { chars, pos: 0, line: 1 }
    }

    /// The cursor after `n` tokens have been scanned.
    pub open spec fn after(self, n: nat) -> Cursor
        decreases n,
    {
        if n == 0 {
            self
        } else {
            self.after((n - 1) as nat).scan().1
        }
    }

    /// The next token and the cursor behind it. Blanks before the token are
    /// skipped; where nothing but blanks is left, the token is the
    /// end-of-input token, with an empty text.
    pub open spec fn scan(self) -> (TokenView, Cursor) {
        let (start, line) = skip_blank(self.chars, self.pos, self.line);
        if start >= self.chars.len() {
            (
                TokenView { kind: TokenType::Eof, lexeme: Seq::empty(), line },
                Cursor { chars: self.chars, pos: start, line },
            )
        } else {
            token_at(self.chars, start, line)
        }
    }
}

/// The lexer. It reads its source once, front to back, and hands out one
/// token for each call of `scan_token`.
pub struct Scanner {
    /// The characters of the source.
    chars: Vec<char>,
    /// The offset of the first character of the token being scanned.
    start: usize,
    /// The offset of the next character to read.
    current: usize,
    /// The line of that character.
    line: usize,
}

impl View for Scanner {
    type V = Cursor;

    closed spec fn view(&self) -> Cursor {
        Cursor { chars: self.chars@, pos: self.current as nat, line: self.line as nat }
    }
}

impl Scanner {
    #[verifier::type_invariant]
    spec fn inv(&self) -> bool {
        &&& self.start <= self.current <= self.chars@.len()
        &&& 1 <= self.line <= self.current + 1
        &&& self.chars@.len() < usize::MAX
    }

    /// A lexer at the start of `source`.
    pub fn new(source: String) -> (r: Self)
        requires
            source@.len() < usize::MAX,
        ensures
            r@ == Cursor::start(source@),
            r@.pos <= r@.chars.len(),
    {
        let mut chars: Vec<char> = Vec::new();
        for c in it: source.as_str().chars()
            invariant
                it.seq() == source@,
                chars@ == it.seq().take(it.index() as int),
        {
            chars.push(c);
        }
        proof {
            assert(source@.take(source@.len() as int) == source@);
        }
        Scanner { chars, start: 0, current: 0, line: 1 }
    }

    fn is_at_end(&self) -> (r: bool)
        ensures
            r == (self.current >= self.chars@.len()),
    {
        self.current >= self.chars.len()
    }

    fn advance(&mut self) -> (c: char)
        ensures
            final(self).chars@ == old(self).chars@,
            final(self).start == old(self).start,
            final(self).line == old(self).line,
            old(self).current < old(self).chars@.len() ==> c == old(self).chars@[old(
                self,
            ).current as int] && final(self).current == old(self).current + 1,
            old(self).current >= old(self).chars@.len() ==> c == '\0' && final(self).current
                == old(self).current,
    {
        proof {
            use_type_invariant(&*self);
        }
        if self.is_at_end() {
            '\0'
        } else {
            let c = self.chars[self.current];
            self.current = self.current + 1;
            c
        }
    }

    fn peek(&self) -> (c: char)
        ensures
            self.current < self.chars@.len() ==> c == self.chars@[self.current as int],
            self.current >= self.chars@.len() ==> c == '\0',
    {
        if self.is_at_end() {
            '\0'
        } else {
            self.chars[self.current]
        }
    }

    fn peek_next(&self) -> (c: char)
        ensures
            self.current + 1 < self.chars@.len() ==> c == self.chars@[self.current + 1],
            self.current + 1 >= self.chars@.len() ==> c == '\0',
    {
        proof {
            use_type_invariant(self);
        }
        if self.current + 1 >= self.chars.len() {
            '\0'
        } else {
            self.chars[self.current + 1]
        }
    }

    fn match_char(&mut self, expected: char) -> (r: bool)
        ensures
            final(self).chars@ == old(self).chars@,
            final(self).start == old(self).start,
            final(self).line == old(self).line,
            r == (old(self).current < old(self).chars@.len() && old(self).chars@[old(
                self,
            ).current as int] == expected),
            final(self).current == if r {
                old(self).current + 1
            } else {
                old(self).current as int
            },
    {
        proof {
            use_type_invariant(&*self);
        }
        if self.is_at_end() || self.chars[self.current] != expected {
            false
        } else {
            self.current = self.current + 1;
            true
        }
    }

    fn make_token(&self, token_type: TokenType) -> (t: Token)
        ensures
            t@ == (TokenView {
                kind: token_type,
                lexeme: self.chars@.subrange(self.start as int, self.current as int),
                line: self.line as nat,
            }),
    {
        proof {
            use_type_invariant(self);
        }
        Token {
            token_type,
            lexeme: string_from_chars(&self.chars, self.start, self.current),
            line: self.line,
        }
    }

    fn error_token(&self, message: &str) -> (t: Token)
        ensures
            t@ == (TokenView { kind: TokenType::Error, lexeme: message@, line: self.line as nat }),
    {
        Token {
            token_type: TokenType::Error,
            lexeme: std::string::String::from_str(message),
            line: self.line,
        }
    }

    fn skip_whitespace(&mut self)
        ensures
            final(self).chars@ == old(self).chars@,
            final(self).start == old(self).start,
            (final(self).current as nat, final(self).line as nat) == skip_blank(
                old(self).chars@,
                old(self).current as nat,
                old(self).line as nat,
            ),
    {
        loop
            invariant
                self.chars@ == old(self).chars@,
                self.start == old(self).start,
                skip_blank(self.chars@, self.current as nat, self.line as nat) == skip_blank(
                    old(self).chars@,
                    old(self).current as nat,
                    old(self).line as nat,
                ),
            ensures
                self.chars@ == old(self).chars@,
                self.start == old(self).start,
                (self.current as nat, self.line as nat) == skip_blank(
                    old(self).chars@,
                    old(self).current as nat,
                    old(self).line as nat,
                ),
            decreases self.chars@.len() - self.current,
        {
            proof {
                use_type_invariant(&*self);
            }
            let c = self.peek();
            if self.is_at_end() {
                break;
            } else if c == ' ' || c == '\r' || c == '\t' {
                self.advance();
            } else if c == '\n' {
                self.advance();
                self.line = self.line + 1;
            } else if c == '/' && self.peek_next() == '/' {
                let ghost from = self.current as nat;
                proof {
                    lemma_line_end_bounds(self.chars@, from + 2);
                    assert(line_end(self.chars@, from) == line_end(self.chars@, from + 1));
                    assert(line_end(self.chars@, from + 1) == line_end(self.chars@, from + 2));
                }
                while self.peek() != '\n' && !self.is_at_end()
                    invariant
                        self.chars@ == old(self).chars@,
                        self.start == old(self).start,
                        from <= self.current <= self.chars@.len(),
                        line_end(self.chars@, self.current as nat) == line_end(
                            self.chars@,
                            from + 2,
                        ),
                        skip_blank(self.chars@, from, self.line as nat) == skip_blank(
                            old(self).chars@,
                            old(self).current as nat,
                            old(self).line as nat,
                        ),
                    decreases self.chars@.len() - self.current,
                {
                    self.advance();
                }
            } else {
                break;
            }
        }
    }

    /// Scans the next token. Blanks and comments before it are skipped. Once
    /// the source is used up, every call returns the end-of-input token.
    pub fn scan_token(&mut self) -> (t: Token)
        ensures
            (t@, final(self)@) == old(self)@.scan(),
            old(self)@.pos <= old(self)@.chars.len(),
            final(self)@.pos <= final(self)@.chars.len(),
    {
        proof {
            use_type_invariant(&*self);
            lemma_scan_advances(self@);
        }
        self.skip_whitespace();
        proof {
            use_type_invariant(&*self);
        }
        self.start = self.current;
        if self.is_at_end() {
            let t = self.make_token(TokenType::Eof);
            proof {
                assert(t@.lexeme == Seq::<char>::empty());
            }
            return t;
        }
        let c = self.advance();
        if c == '(' {
            self.make_token(TokenType::LeftParen)
        } else if c == ')' {
            self.make_token(TokenType::RightParen)
        } else if c == '{' {
            self.make_token(TokenType::LeftBrace)
        } else if c == '}' {
            self.make_token(TokenType::RightBrace)
        } else if c == ';' {
            self.make_token(TokenType::Semicolon)
        } else if c == ',' {
            self.make_token(TokenType::Comma)
        } else if c == '.' {
            self.make_token(TokenType::Dot)
        } else if c == '-' {
            self.make_token(TokenType::Minus)
        } else if c == '+' {
            self.make_token(TokenType::Plus)
        } else if c == '/' {
            self.make_token(TokenType::Slash)
        } else if c == '*' {
            self.make_token(TokenType::Star)
        } else if c == '!' {
            if self.match_char('=') {
                self.make_token(TokenType::BangEqual)
            } else {
                self.make_token(TokenType::Bang)
            }
        } else if c == '=' {
            if self.match_char('=') {
                self.make_token(TokenType::EqualEqual)
            } else {
                self.make_token(TokenType::Equal)
            }
        } else if c == '<' {
            if self.match_char('=') {
                self.make_token(TokenType::LessEqual)
            } else {
                self.make_token(TokenType::Less)
            }
        } else if c == '>' {
            if self.match_char('=') {
                self.make_token(TokenType::GreaterEqual)
            } else {
                self.make_token(TokenType::Greater)
            }
        } else if c == '"' {
            self.string()
        } else if c >= '0' && c <= '9' {
            self.number()
        } else if (c >= 'a' && c <= 'z') || (c >= 'A' && c <= 'Z') || c == '_' {
            self.identifier()
        } else {
            self.error_token("Unexpected character.")
        }
    }

    fn string(&mut self) -> (t: Token)
        requires
            old(self).current == old(self).start + 1,
            old(self).start < old(self).chars@.len(),
            old(self).chars@[old(self).start as int] == '"',
        ensures
            (t@, final(self)@) == token_at(
                old(self).chars@,
                old(self).start as nat,
                old(self).line as nat,
            ),
    {
        let ghost from = self.current as nat;
        let ghost line = self.line as nat;
        proof {
            use_type_invariant(&*self);
        }
        while self.peek() != '"' && !self.is_at_end()
            invariant
                self.chars@ == old(self).chars@,
                self.start == old(self).start,
                from <= self.current <= self.chars@.len(),
                quote_end(self.chars@, self.current as nat) == quote_end(self.chars@, from),
                self.line == line + line_feeds(self.chars@, from, self.current as nat),
            decreases self.chars@.len() - self.current,
        {
            proof {
                use_type_invariant(&*self);
            }
            let c = self.advance();
            if c == '\n' {
                self.line = self.line + 1;
            }
        }
        if self.is_at_end() {
            return self.error_token("Unterminated string.");
        }
        self.advance();
        self.make_token(TokenType::String)
    }

    fn number(&mut self) -> (t: Token)
        requires
            old(self).current == old(self).start + 1,
            old(self).start < old(self).chars@.len(),
            is_digit(old(self).chars@[old(self).start as int]),
        ensures
            (t@, final(self)@) == token_at(
                old(self).chars@,
                old(self).start as nat,
                old(self).line as nat,
            ),
    {
        let ghost from = self.current as nat;
        proof {
            use_type_invariant(&*self);
        }
        while is_ascii_digit(self.peek())
            invariant
                self.chars@ == old(self).chars@,
                self.start == old(self).start,
                self.line == old(self).line,
                from <= self.current <= self.chars@.len(),
                digits_end(self.chars@, self.current as nat) == digits_end(self.chars@, from),
            decreases self.chars@.len() - self.current,
        {
            self.advance();
        }
        if self.peek() == '.' && is_ascii_digit(self.peek_next()) {
            let ghost dot = self.current as nat;
            self.advance();
            while is_ascii_digit(self.peek())
                invariant
                    self.chars@ == old(self).chars@,
                    self.start == old(self).start,
                    self.line == old(self).line,
                    dot < self.current <= self.chars@.len(),
                    digits_end(self.chars@, self.current as nat) == digits_end(
                        self.chars@,
                        dot + 1,
                    ),
                decreases self.chars@.len() - self.current,
            {
                self.advance();
            }
        }
        self.make_token(TokenType::Number)
    }

    fn identifier_type(&self) -> (r: TokenType)
        ensures
            r == word_kind(self.chars@.subrange(self.start as int, self.current as int)),
    {
        let ghost chars = self.chars@;
        let ghost from = self.start as int;
        let ghost to = self.current as int;
        let ghost word = chars.subrange(from, to);
        proof {
            use_type_invariant(self);
            lemma_keyword_texts();
            assert(word.len() == self.current - self.start);
        }
        if self.current <= self.start {
            return TokenType::Identifier;
        }
        let first = self.chars[self.start];
        proof {
            assert(word[0] == first);
        }
        if first == 'a' {
            proof {
                lemma_rest_decides(chars, from, to, "and"@, 1, "nd"@);
            }
            self.check_keyword(1, "nd", TokenType::And)
        } else if first == 'c' {
            proof {
                lemma_rest_decides(chars, from, to, "class"@, 1, "lass"@);
            }
            self.check_keyword(1, "lass", TokenType::Class)
        } else if first == 'e' {
            proof {
                lemma_rest_decides(chars, from, to, "else"@, 1, "lse"@);
            }
            self.check_keyword(1, "lse", TokenType::Else)
        } else if first == 'f' {
            if self.current - self.start > 1 {
                let second = self.chars[self.start + 1];
                proof {
                    assert(word[1] == second);
                }
                if second == 'a' {
                    proof {
                        lemma_rest_decides(chars, from, to, "false"@, 2, "lse"@);
                    }
                    self.check_keyword(2, "lse", TokenType::False)
                } else if second == 'o' {
                    proof {
                        lemma_rest_decides(chars, from, to, "for"@, 2, "r"@);
                    }
                    self.check_keyword(2, "r", TokenType::For)
                } else if second == 'u' {
                    proof {
                        lemma_rest_decides(chars, from, to, "fun"@, 2, "n"@);
                    }
                    self.check_keyword(2, "n", TokenType::Fun)
                } else {
                    TokenType::Identifier
                }
            } else {
                TokenType::Identifier
            }
        } else if first == 'i' {
            proof {
                lemma_rest_decides(chars, from, to, "if"@, 1, "f"@);
            }
            self.check_keyword(1, "f", TokenType::If)
        } else if first == 'n' {
            proof {
                lemma_rest_decides(chars, from, to, "nil"@, 1, "il"@);
            }
            self.check_keyword(1, "il", TokenType::Nil)
        } else if first == 'o' {
            proof {
                lemma_rest_decides(chars, from, to, "or"@, 1, "r"@);
            }
            self.check_keyword(1, "r", TokenType::Or)
        } else if first == 'p' {
            proof {
                lemma_rest_decides(chars, from, to, "print"@, 1, "rint"@);
            }
            self.check_keyword(1, "rint", TokenType::Print)
        } else if first == 'r' {
            proof {
                lemma_rest_decides(chars, from, to, "return"@, 1, "eturn"@);
            }
            self.check_keyword(1, "eturn", TokenType::Return)
        } else if first == 's' {
            proof {
                lemma_rest_decides(chars, from, to, "super"@, 1, "uper"@);
            }
            self.check_keyword(1, "uper", TokenType::Super)
        } else if first == 't' {
            if self.current - self.start > 1 {
                let second = self.chars[self.start + 1];
                proof {
                    assert(word[1] == second);
                }
                if second == 'h' {
                    proof {
                        lemma_rest_decides(chars, from, to, "this"@, 2, "is"@);
                    }
                    self.check_keyword(2, "is", TokenType::This)
                } else if second == 'r' {
                    proof {
                        lemma_rest_decides(chars, from, to, "true"@, 2, "ue"@);
                    }
                    self.check_keyword(2, "ue", TokenType::True)
                } else {
                    TokenType::Identifier
                }
            } else {
                TokenType::Identifier
            }
        } else if first == 'v' {
            proof {
                lemma_rest_decides(chars, from, to, "var"@, 1, "ar"@);
            }
            self.check_keyword(1, "ar", TokenType::Var)
        } else if first == 'w' {
            proof {
                lemma_rest_decides(chars, from, to, "while"@, 1, "hile"@);
            }
            self.check_keyword(1, "hile", TokenType::While)
        } else {
            TokenType::Identifier
        }
    }

    fn check_keyword(&self, start_offset: usize, rest: &str, token_type: TokenType) -> (r:
        TokenType)
        requires
            self.start + start_offset <= self.current <= self.chars@.len(),
        ensures
            r == if self.chars@.subrange(self.start + start_offset, self.current as int)
                == rest@ {
                token_type
            } else {
                TokenType::Identifier
            },
    {
        proof {
            use_type_invariant(self);
        }
        let length = rest.unicode_len();
        let from = self.start + start_offset;
        let ghost tail = self.chars@.subrange(from as int, self.current as int);
        if self.current - from == length {
            let mut i: usize = 0;
            while i < length
                invariant
                    i <= length,
                    length == rest@.len(),
                    from == self.start + start_offset,
                    from + length == self.current <= self.chars@.len(),
                    tail == self.chars@.subrange(from as int, self.current as int),
                    forall|j: int| 0 <= j < i ==> tail[j] == rest@[j],
                decreases length - i,
            {
                if self.chars[from + i] != rest.get_char(i) {
                    proof {
                        assert(tail[i as int] != rest@[i as int]);
                    }
                    return TokenType::Identifier;
                }
                i = i + 1;
            }
            proof {
                assert(tail =~= rest@);
            }
            return token_type;
        }
        TokenType::Identifier
    }

    fn identifier(&mut self) -> (t: Token)
        requires
            old(self).current == old(self).start + 1,
            old(self).start < old(self).chars@.len(),
            is_alpha(old(self).chars@[old(self).start as int]),
            !is_digit(old(self).chars@[old(self).start as int]),
            punctuation_kind(old(self).chars@[old(self).start as int]) is None,
        ensures
            (t@, final(self)@) == token_at(
                old(self).chars@,
                old(self).start as nat,
                old(self).line as nat,
            ),
    {
        let ghost from = self.current as nat;
        proof {
            use_type_invariant(&*self);
        }
        while is_ascii_word(self.peek())
            invariant
                self.chars@ == old(self).chars@,
                self.start == old(self).start,
                self.line == old(self).line,
                from <= self.current <= self.chars@.len(),
                word_end(self.chars@, self.current as nat) == word_end(self.chars@, from),
            decreases self.chars@.len() - self.current,
        {
            self.advance();
        }
        let token_type = self.identifier_type();
        self.make_token(token_type)
    }
}

fn is_ascii_digit(c: char) -> (r: bool)
    ensures
        r == is_digit(c),
{
    c >= '0' && c <= '9'
}

fn is_ascii_word(c: char) -> (r: bool)
    ensures
        r == (is_alpha(c) || is_digit(c)),
{
    (c >= 'a' && c <= 'z') || (c >= 'A' && c <= 'Z') || c == '_' || (c >= '0' && c <= '9')
}

/// What the keywords are made of: their lengths, the characters that the
/// lexer dispatches on, and the tails that it compares.
proof fn lemma_keyword_texts()
    ensures
        "and"@.len() == 3,
        "and"@[0] == 'a',
        "and"@.skip(1) == "nd"@,
        "class"@.len() == 5,
        "class"@[0] == 'c',
        "class"@.skip(1) == "lass"@,
        "else"@.len() == 4,
        "else"@[0] == 'e',
        "else"@.skip(1) == "lse"@,
        "false"@.len() == 5,
        "false"@[0] == 'f',
        "false"@[1] == 'a',
        "false"@.skip(2) == "lse"@,
        "for"@.len() == 3,
        "for"@[0] == 'f',
        "for"@[1] == 'o',
        "for"@.skip(2) == "r"@,
        "fun"@.len() == 3,
        "fun"@[0] == 'f',
        "fun"@[1] == 'u',
        "fun"@.skip(2) == "n"@,
        "if"@.len() == 2,
        "if"@[0] == 'i',
        "if"@.skip(1) == "f"@,
        "nil"@.len() == 3,
        "nil"@[0] == 'n',
        "nil"@.skip(1) == "il"@,
        "or"@.len() == 2,
        "or"@[0] == 'o',
        "or"@.skip(1) == "r"@,
        "print"@.len() == 5,
        "print"@[0] == 'p',
        "print"@.skip(1) == "rint"@,
        "return"@.len() == 6,
        "return"@[0] == 'r',
        "return"@.skip(1) == "eturn"@,
        "super"@.len() == 5,
        "super"@[0] == 's',
        "super"@.skip(1) == "uper"@,
        "this"@.len() == 4,
        "this"@[0] == 't',
        "this"@[1] == 'h',
        "this"@.skip(2) == "is"@,
        "true"@.len() == 4,
        "true"@[0] == 't',
        "true"@[1] == 'r',
        "true"@.skip(2) == "ue"@,
        "var"@.len() == 3,
        "var"@[0] == 'v',
        "var"@.skip(1) == "ar"@,
        "while"@.len() == 5,
        "while"@[0] == 'w',
        "while"@.skip(1) == "hile"@,
{
    reveal_strlit("and");
    reveal_strlit("nd");
    reveal_strlit("class");
    reveal_strlit("lass");
    reveal_strlit("else");
    reveal_strlit("lse");
    reveal_strlit("false");
    reveal_strlit("for");
    reveal_strlit("r");
    reveal_strlit("fun");
    reveal_strlit("n");
    reveal_strlit("if");
    reveal_strlit("f");
    reveal_strlit("nil");
    reveal_strlit("il");
    reveal_strlit("or");
    reveal_strlit("print");
    reveal_strlit("rint");
    reveal_strlit("return");
    reveal_strlit("eturn");
    reveal_strlit("super");
    reveal_strlit("uper");
    reveal_strlit("this");
    reveal_strlit("is");
    reveal_strlit("true");
    reveal_strlit("ue");
    reveal_strlit("var");
    reveal_strlit("ar");
    reveal_strlit("while");
    reveal_strlit("hile");
}

/// A word that starts with the first `k` characters of a keyword is that
/// keyword exactly when the rest of it is the rest of the keyword.
proof fn lemma_rest_decides(
    chars: Seq<char>,
    start: int,
    current: int,
    keyword: Seq<char>,
    k: int,
    rest: Seq<char>,
)
    requires
        0 <= start,
        0 <= k <= keyword.len(),
        start + k <= current <= chars.len(),
        forall|i: int| 0 <= i < k ==> chars[start + i] == keyword[i],
        keyword.skip(k) == rest,
    ensures
        (chars.subrange(start, current) == keyword) <==> (chars.subrange(start + k, current)
            == rest),
{
    let word = chars.subrange(start, current);
    assert(word.skip(k) == chars.subrange(start + k, current));
    if word.skip(k) == rest {
        assert(word == word.take(k) + word.skip(k));
        assert(keyword == keyword.take(k) + keyword.skip(k));
        assert(word.take(k) == keyword.take(k));
    }
}

/// All tokens from a cursor on, up to and including the first end-of-input
/// token.
pub open spec fn tokens(c: Cursor) -> Seq<TokenView>
    decreases c.chars.len() - c.pos,
{
    let (token, next) = c.scan();
    if token.kind != TokenType::Eof && c.pos < next.pos <= c.chars.len() {
        seq![token] + tokens(next)
    } else {
        seq![token]
    }
}

/// A token sequence that ends in its only end-of-input token.
pub open spec fn well_ended(toks: Seq<TokenView>) -> bool {
    &&& toks.len() > 0
    &&& toks.last().kind == TokenType::Eof
    &&& forall|i: int| 0 <= i < toks.len() - 1 ==> (#[trigger] toks[i]).kind != TokenType::Eof
}

/// The tokens of a text are the first token followed by the tokens of what
/// is left, and they end in their only end-of-input token.
pub proof fn lemma_tokens_unfold(c: Cursor)
    requires
        c.pos <= c.chars.len(),
    ensures
        well_ended(tokens(c)),
        tokens(c)[0] == c.scan().0,
        c.scan().0.kind == TokenType::Eof ==> tokens(c).len() == 1,
        c.scan().0.kind != TokenType::Eof ==> tokens(c).skip(1) == tokens(c.scan().1),
    decreases c.chars.len() - c.pos,
{
    lemma_scan_advances(c);
    let (token, next) = c.scan();
    if token.kind != TokenType::Eof {
        lemma_tokens_unfold(next);
        assert(tokens(c) == seq![token] + tokens(next));
        assert(tokens(c).skip(1) == tokens(next));
        assert forall|i: int| 0 <= i < tokens(c).len() - 1 implies (#[trigger] tokens(
            c,
        )[i]).kind != TokenType::Eof by {
            if i > 0 {
                assert(tokens(c)[i] == tokens(next)[i - 1]);
            }
        }
    }
}

/// Once the lexer has returned the end-of-input token it has reached a
/// fixed point: the cursor no longer moves, and every further call returns
/// that same end-of-input token, never an error.
pub proof fn lemma_end_of_input_repeats(c: Cursor)
    requires
        c.scan().0.kind == TokenType::Eof,
    ensures
        c.scan().1.scan() == c.scan(),
        c.scan().0.lexeme == Seq::<char>::empty(),
{
}

/// However often the lexer is called after it has returned the
/// end-of-input token, each call returns that token again.
pub proof fn lemma_end_of_input_for_ever(c: Cursor, n: nat)
    requires
        c.scan().0.kind == TokenType::Eof,
    ensures
        c.after(n).scan() == c.scan(),
    decreases n,
{
    if n > 0 {
        lemma_end_of_input_for_ever(c, (n - 1) as nat);
        lemma_end_of_input_repeats(c);
    }
}

/// Scanning never leaves the text or goes backwards in it, nor in its line
/// count. A token other than end-of-input takes at least one character;
/// the end-of-input token is only returned at the end of the text.
pub proof fn lemma_scan_advances(c: Cursor)
    requires
        c.pos <= c.chars.len(),
    ensures
        c.scan().1.chars == c.chars,
        c.pos <= c.scan().1.pos <= c.chars.len(),
        c.line <= c.scan().1.line,
        c.scan().0.kind != TokenType::Eof ==> c.pos < c.scan().1.pos,
        c.scan().0.kind == TokenType::Eof ==> c.scan().1.pos == c.chars.len(),
{
    lemma_skip_blank_bounds(c.chars, c.pos, c.line);
    let (start, line) = skip_blank(c.chars, c.pos, c.line);
    if start < c.chars.len() {
        lemma_quote_end_bounds(c.chars, start + 1);
        lemma_word_end_bounds(c.chars, start + 1);
        lemma_digits_end_bounds(c.chars, start + 1);
        let whole = digits_end(c.chars, start + 1);
        if whole + 1 < c.chars.len() {
            lemma_digits_end_bounds(c.chars, whole + 1);
        }
    }
}

/// `skip_blank` stays inside the text and never goes backwards, in offset
/// or in line.
pub proof fn lemma_skip_blank_bounds(chars: Seq<char>, pos: nat, line: nat)
    requires
        pos <= chars.len(),
    ensures
        pos <= skip_blank(chars, pos, line).0 <= chars.len(),
        line <= skip_blank(chars, pos, line).1,
    decreases chars.len() - pos,
{
    if pos < chars.len() {
        let c = chars[pos as int];
        if c == ' ' || c == '\r' || c == '\t' {
            lemma_skip_blank_bounds(chars, pos + 1, line);
        } else if c == '\n' {
            lemma_skip_blank_bounds(chars, pos + 1, line + 1);
        } else if c == '/' && pos + 1 < chars.len() && chars[(pos + 1) as int] == '/' {
            lemma_line_end_bounds(chars, pos + 2);
            lemma_skip_blank_bounds(chars, line_end(chars, pos + 2), line);
        }
    }
}

/// `digits_end` stays inside the text and never goes backwards.
pub proof fn lemma_digits_end_bounds(chars: Seq<char>, pos: nat)
    requires
        pos <= chars.len(),
    ensures
        pos <= digits_end(chars, pos) <= chars.len(),
    decreases chars.len() - pos,
{
    if pos < chars.len() && is_digit(chars[pos as int]) {
        lemma_digits_end_bounds(chars, pos + 1);
    }
}

/// `word_end` stays inside the text and never goes backwards.
pub proof fn lemma_word_end_bounds(chars: Seq<char>, pos: nat)
    requires
        pos <= chars.len(),
    ensures
        pos <= word_end(chars, pos) <= chars.len(),
    decreases chars.len() - pos,
{
    if pos < chars.len() && (is_alpha(chars[pos as int]) || is_digit(chars[pos as int])) {
        lemma_word_end_bounds(chars, pos + 1);
    }
}

/// `quote_end` stays inside the text and never goes backwards.
pub proof fn lemma_quote_end_bounds(chars: Seq<char>, pos: nat)
    requires
        pos <= chars.len(),
    ensures
        pos <= quote_end(chars, pos) <= chars.len(),
    decreases chars.len() - pos,
{
    if pos < chars.len() && chars[pos as int] != '"' {
        lemma_quote_end_bounds(chars, pos + 1);
    }
}

/// `line_end` stays inside the text and never goes backwards.
pub proof fn lemma_line_end_bounds(chars: Seq<char>, pos: nat)
    requires
        pos <= chars.len(),
    ensures
        pos <= line_end(chars, pos) <= chars.len(),
    decreases chars.len() - pos,
{
    if pos < chars.len() && chars[pos as int] != '\n' {
        lemma_line_end_bounds(chars, pos + 1);
    }
}

} // verus!

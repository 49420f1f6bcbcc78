//! The single-pass compiler: from tokens straight to bytecode, by
//! precedence climbing.
//!
//! The value of a number literal is a floating-point number, and turning a
//! literal's text into one is floating-point work that this library leaves to
//! its caller: `number_lexemes` hands out the texts of the number literals of
//! a source in order, the caller converts each to the encoding of its value,
//! and `compile` takes the encodings in that same order.

use vstd::prelude::*;
use vstd::string::StringExecFns;
use crate::chunk::{Chunk, ChunkView, MAX_CONSTANTS};
use crate::opcode::{encoding, OpCode};
use crate::scanner::{
    lemma_end_of_input_repeats,
    lemma_tokens_unfold,
    tokens,
    well_ended,
    Cursor,
    Scanner,
    Token,
    TokenType,
    TokenView,
};
use crate::text::{decimal, decimal_string};
use crate::value::Value;

verus! {

/// Binding strength, from the loosest to the tightest.
#[derive(Debug, Clone, Copy, PartialEq, Eq, Structural)]
pub enum Precedence {
    Lowest,
    Assignment,
    Or,
    And,
    Equality,
    Comparison,
    Term,
    Factor,
    Unary,
    Call,
    Primary,
}

impl Precedence {
    /// The place of a precedence in the order, `Lowest` being 0.
    pub open spec fn rank(self) -> nat {
        match self {
            Precedence::Lowest => 0,
            Precedence::Assignment => 1,
            Precedence::Or => 2,
            Precedence::And => 3,
            Precedence::Equality => 4,
            Precedence::Comparison => 5,
            Precedence::Term => 6,
            Precedence::Factor => 7,
            Precedence::Unary => 8,
            Precedence::Call => 9,
            Precedence::Primary => 10,
        }
    }

    /// The next tighter precedence; `Primary` is the tightest and stays.
    pub open spec fn tighter(self) -> Precedence {
        match self {
            Precedence::Lowest => Precedence::Assignment,
            Precedence::Assignment => Precedence::Or,
            Precedence::Or => Precedence::And,
            Precedence::And => Precedence::Equality,
            Precedence::Equality => Precedence::Comparison,
            Precedence::Comparison => Precedence::Term,
            Precedence::Term => Precedence::Factor,
            Precedence::Factor => Precedence::Unary,
            Precedence::Unary => Precedence::Call,
            Precedence::Call => Precedence::Primary,
            Precedence::Primary => Precedence::Primary,
        }
    }

    /// The place of the precedence in the order.
    pub fn level(self) -> (r: u8)
        ensures
            r == self.rank(),
    {
        match self {
            Precedence::Lowest => 0,
            Precedence::Assignment => 1,
            Precedence::Or => 2,
            Precedence::And => 3,
            Precedence::Equality => 4,
            Precedence::Comparison => 5,
            Precedence::Term => 6,
            Precedence::Factor => 7,
            Precedence::Unary => 8,
            Precedence::Call => 9,
            Precedence::Primary => 10,
        }
    }

    /// The next tighter precedence.
    pub fn next(self) -> (r: Self)
        ensures
            r == self.tighter(),
            r.rank() == if self.rank() < 10 {
                self.rank() + 1
            } else {
                10
            },
    {
        match self {
            Precedence::Lowest => Precedence::Assignment,
            Precedence::Assignment => Precedence::Or,
            Precedence::Or => Precedence::And,
            Precedence::And => Precedence::Equality,
            Precedence::Equality => Precedence::Comparison,
            Precedence::Comparison => Precedence::Term,
            Precedence::Term => Precedence::Factor,
            Precedence::Factor => Precedence::Unary,
            Precedence::Unary => Precedence::Call,
            Precedence::Call => Precedence::Primary,
            Precedence::Primary => Precedence::Primary,
        }
    }
}

/// How an expression that starts with a given token is parsed.
#[derive(Debug, Clone, Copy, PartialEq, Eq, Structural)]
pub enum PrefixAction {
    /// A parenthesised expression.
    Grouping,
    /// A number literal.
    Number,
    /// An operator before its operand; the opcode is what it compiles to.
    Unary(OpCode),
}

/// How an expression goes on after a given token.
#[derive(Debug, Clone, Copy, PartialEq, Eq, Structural)]
pub enum InfixAction {
    /// An operator between its operands; the opcode is what it compiles to.
    Binary(OpCode),
}

/// What the parser does with a kind of token.
#[derive(Debug, Clone, Copy, PartialEq, Eq, Structural)]
pub struct ParseRule {
    pub prefix: Option<PrefixAction>,
    pub infix: Option<InfixAction>,
    pub precedence: Precedence,
}

/// The rule of each kind of token.
pub open spec fn rule(kind: TokenType) -> ParseRule {
    match kind {
        TokenType::LeftParen => ParseRule {
            prefix: Some(PrefixAction::Grouping),
            infix: None,
            precedence: Precedence::Lowest,
        },
        TokenType::Number => ParseRule {
            prefix: Some(PrefixAction::Number),
            infix: None,
            precedence: Precedence::Lowest,
        },
        TokenType::Minus => ParseRule {
            prefix: Some(PrefixAction::Unary(OpCode::Negate)),
            infix: Some(InfixAction::Binary(OpCode::Subtract)),
            precedence: Precedence::Term,
        },
        TokenType::Plus => ParseRule {
            prefix: None,
            infix: Some(InfixAction::Binary(OpCode::Add)),
            precedence: Precedence::Term,
        },
        TokenType::Star => ParseRule {
            prefix: None,
            infix: Some(InfixAction::Binary(OpCode::Multiply)),
            precedence: Precedence::Factor,
        },
        TokenType::Slash => ParseRule {
            prefix: None,
            infix: Some(InfixAction::Binary(OpCode::Divide)),
            precedence: Precedence::Factor,
        },
        _ => ParseRule { prefix: None, infix: None, precedence: Precedence::Lowest },
    }
}

/// Looks up the rule of a kind of token.
pub fn get_rule(token_type: TokenType) -> (r: ParseRule)
    ensures
        r == rule(token_type),
{
    match token_type {
        TokenType::LeftParen => ParseRule {
            prefix: Some(PrefixAction::Grouping),
            infix: None,
            precedence: Precedence::Lowest,
        },
        TokenType::Number => ParseRule {
            prefix: Some(PrefixAction::Number),
            infix: None,
            precedence: Precedence::Lowest,
        },
        TokenType::Minus => ParseRule {
            prefix: Some(PrefixAction::Unary(OpCode::Negate)),
            infix: Some(InfixAction::Binary(OpCode::Subtract)),
            precedence: Precedence::Term,
        },
        TokenType::Plus => ParseRule {
            prefix: None,
            infix: Some(InfixAction::Binary(OpCode::Add)),
            precedence: Precedence::Term,
        },
        TokenType::Star => ParseRule {
            prefix: None,
            infix: Some(InfixAction::Binary(OpCode::Multiply)),
            precedence: Precedence::Factor,
        },
        TokenType::Slash => ParseRule {
            prefix: None,
            infix: Some(InfixAction::Binary(OpCode::Divide)),
            precedence: Precedence::Factor,
        },
        _ => ParseRule { prefix: None, infix: None, precedence: Precedence::Lowest },
    }
}

/// An error of the source: the token it was found at and what is wrong.
#[derive(Debug)]
pub struct Diagnostic {
    pub token: Token,
    pub message: String,
}

/// What a diagnostic holds.
pub struct DiagnosticView {
    pub token: TokenView,
    pub message: Seq<char>,
}

impl View for Diagnostic {
    type V = DiagnosticView;

    open spec fn view(&self) -> DiagnosticView {
        DiagnosticView { token: self.token@, message: self.message@ }
    }
}

impl DiagnosticView {
    /// The words that say where the error is: nothing for an error of the
    /// lexer, `at end` at the end of input, else the token's text in quotes.
    pub open spec fn place(self) -> Seq<char> {
        match self.token.kind {
            TokenType::Eof => " at end"@,
            TokenType::Error => Seq::empty(),
            _ => " at '"@ + self.token.lexeme + "'"@,
        }
    }

    /// The diagnostic as one line of text.
    pub open spec fn text(self) -> Seq<char> {
        "[line "@ + decimal(self.token.line) + "] Error"@ + self.place() + ": "@ + self.message
    }
}

impl Diagnostic {
    /// Writes the diagnostic out as one line of text.
    pub fn render(&self) -> (r: String)
        ensures
            r@ == self@.text(),
    {
        let mut r = String::from_str("[line ").concat(decimal_string(self.token.line).as_str());
        r.append("] Error");
        match self.token.token_type {
            TokenType::Eof => {
                r.append(" at end");
            },
            TokenType::Error => {
                assert(r@ + Seq::<char>::empty() == r@);
            },
            _ => {
                let ghost before = r@;
                r.append(" at '");
                r.append(self.token.lexeme.as_str());
                r.append("'");
                assert(r@ == before + (" at '"@ + self.token.lexeme@ + "'"@));
            },
        }
        r.append(": ");
        r.append(self.message.as_str());
        r
    }
}

/// Why a source did not compile.
#[derive(Debug)]
pub enum CompileFailed {
    /// The first error of the source.
    Syntax(Diagnostic),
    /// The source holds more number literals than one chunk can address.
    TooManyConstants,
    /// The caller supplied no value for the number literal of this index.
    MissingNumber(usize),
}

/// What a failure holds.
pub enum Failure {
    Syntax(DiagnosticView),
    TooManyConstants,
    MissingNumber(nat),
}

impl View for CompileFailed {
    type V = Failure;

    open spec fn view(&self) -> Failure {
        match self {
            CompileFailed::Syntax(d) => Failure::Syntax(d@),
            CompileFailed::TooManyConstants => Failure::TooManyConstants,
            CompileFailed::MissingNumber(index) => Failure::MissingNumber(*index as nat),
        }
    }
}

/// How far a compilation has come: how many tokens it has taken from the
/// lexer, and what it has emitted.
pub struct Parse {
    /// The number of tokens taken so far. The one taken last is the current
    /// token, the lookahead; the one before it is the previous token, which
    /// is the one being compiled.
    pub scanned: nat,
    /// The chunk as emitted so far.
    pub chunk: ChunkView,
}

/// The `n`-th token that the lexer hands out, counted from 1. The
/// end-of-input token repeats for ever.
pub open spec fn token(toks: Seq<TokenView>, n: nat) -> TokenView {
    if 1 <= n <= toks.len() {
        toks[n - 1]
    } else {
        toks.last()
    }
}

/// The syntax error `message` at `token`.
pub open spec fn syntax_error(token: TokenView, message: Seq<char>) -> Failure {
    Failure::Syntax(DiagnosticView { token, message })
}

impl Parse {
    /// The lookahead token.
    pub open spec fn current(self, toks: Seq<TokenView>) -> TokenView {
        token(toks, self.scanned)
    }

    /// The token before the lookahead.
    pub open spec fn previous(self, toks: Seq<TokenView>) -> TokenView {
        token(toks, (self.scanned - 1) as nat)
    }

    /// Takes the next token. An error token fails the compilation with its
    /// own message.
    pub open spec fn advance(self, toks: Seq<TokenView>) -> Result<Parse, Failure> {
        let next = token(toks, self.scanned + 1);
        if next.kind == TokenType::Error {
            Err(syntax_error(next, next.lexeme))
        } else {
            Ok(Parse { scanned: self.scanned + 1, ..self })
        }
    }

    /// Takes the next token if the lookahead is of kind `kind`, and fails
    /// with `message` at the lookahead if it is not.
    pub open spec fn consume(self, toks: Seq<TokenView>, kind: TokenType, message: Seq<char>)
        -> Result<Parse, Failure> {
        if self.current(toks).kind == kind {
            self.advance(toks)
        } else {
            Err(syntax_error(self.current(toks), message))
        }
    }

    /// Emits `op`, attributed to the line of the previous token.
    pub open spec fn emit(self, toks: Seq<TokenView>, op: OpCode) -> Parse {
        Parse {
            chunk: self.chunk.write(encoding(op), self.previous(toks).line as usize),
            ..self
        }
    }

    /// Compiles the number literal that is the previous token: its value is
    /// the one that `numbers` holds at the index of the constant it becomes.
    pub open spec fn number(self, toks: Seq<TokenView>, numbers: Seq<u64>) -> Result<
        Parse,
        Failure,
    > {
        let index = self.chunk.constants.len();
        if index >= numbers.len() {
            Err(Failure::MissingNumber(index))
        } else if index >= MAX_CONSTANTS {
            Err(Failure::TooManyConstants)
        } else {
            Ok(
                Parse {
                    chunk: self.chunk.write_constant(
                        Value::Number(numbers[index as int]),
                        self.previous(toks).line as usize,
                    ),
                    ..self
                },
            )
        }
    }

    /// Compiles one expression whose operators all bind at least as tightly
    /// as `min`: takes a token, compiles what that token begins, and then
    /// goes on with operators as long as they bind tightly enough.
    pub open spec fn parse_precedence(
        self,
        toks: Seq<TokenView>,
        numbers: Seq<u64>,
        min: Precedence,
    ) -> Result<Parse, Failure>
        decreases toks.len() - self.scanned, 1nat,
        when well_ended(toks) && self.scanned >= 1
    {
        match self.advance(toks) {
            Err(failure) => Err(failure),
            Ok(taken) => {
                let begun = match rule(taken.previous(toks).kind).prefix {
                    None => Err(syntax_error(taken.previous(toks), "Expect expression."@)),
                    Some(PrefixAction::Number) => taken.number(toks, numbers),
                    Some(PrefixAction::Grouping) => match taken.parse_precedence(
                        toks,
                        numbers,
                        Precedence::Assignment,
                    ) {
                        Err(failure) => Err(failure),
                        Ok(inner) => inner.consume(
                            toks,
                            TokenType::RightParen,
                            "Expect ')' after expression."@,
                        ),
                    },
                    Some(PrefixAction::Unary(op)) => match taken.parse_precedence(
                        toks,
                        numbers,
                        Precedence::Unary,
                    ) {
                        Err(failure) => Err(failure),
                        Ok(operand) => Ok(operand.emit(toks, op)),
                    },
                };
                match begun {
                    Err(failure) => Err(failure),
                    Ok(left) => if self.scanned < left.scanned <= toks.len() {
                        left.infix_loop(toks, numbers, min)
                    } else {
                        Ok(left)
                    },
                }
            },
        }
    }

    /// Goes on after a complete operand: as long as the lookahead is an
    /// operator that binds at least as tightly as `min`, takes it, compiles
    /// its right operand one level tighter than the operator, and emits the
    /// operator.
    pub open spec fn infix_loop(self, toks: Seq<TokenView>, numbers: Seq<u64>, min: Precedence)
        -> Result<Parse, Failure>
        decreases toks.len() - self.scanned, 0nat,
        when well_ended(toks) && self.scanned >= 1
    {
        let operator = rule(self.current(toks).kind);
        if min.rank() == 0 || operator.precedence.rank() < min.rank() {
            Ok(self)
        } else {
            match self.advance(toks) {
                Err(failure) => Err(failure),
                Ok(taken) => {
                    let applied = match operator.infix {
                        None => Ok(taken),
                        Some(InfixAction::Binary(op)) => match taken.parse_precedence(
                            toks,
                            numbers,
                            operator.precedence.tighter(),
                        ) {
                            Err(failure) => Err(failure),
                            Ok(right) => Ok(right.emit(toks, op)),
                        },
                    };
                    match applied {
                        Err(failure) => Err(failure),
                        Ok(done) => if self.scanned < done.scanned <= toks.len() {
                            done.infix_loop(toks, numbers, min)
                        } else {
                            Ok(done)
                        },
                    }
                },
            }
        }
    }
}

/// What compiling a token sequence yields: the chunk of the one expression
/// that the tokens spell, closed by a `return`, or the first failure.
pub open spec fn compiled(toks: Seq<TokenView>, numbers: Seq<u64>) -> Result<ChunkView, Failure> {
    match (Parse { scanned: 0, chunk: ChunkView::empty() }).advance(toks) {
        Err(failure) => Err(failure),
        Ok(first) => match first.parse_precedence(toks, numbers, Precedence::Assignment) {
            Err(failure) => Err(failure),
            Ok(parsed) => match parsed.consume(
                toks,
                TokenType::Eof,
                "Expect end of expression."@,
            ) {
                Err(failure) => Err(failure),
                Ok(ended) => Ok(ended.emit(toks, OpCode::Return).chunk),
            },
        },
    }
}

/// The parser's window on the token stream, and its error flags.
struct Parser {
    /// The lookahead token.
    current: Token,
    /// The token taken before it, which is the one being compiled.
    previous: Token,
    /// Set by the first error and never cleared: the unit has failed.
    had_error: bool,
    /// Set by an error to keep the errors that follow from it quiet.
    panic_mode: bool,
}

impl Parser {
    /// A parser that has taken no token yet: both places of its window hold
    /// the placeholder, and no error is on record.
    fn new() -> (r: Self)
        ensures
            r.current@ == Parser::placeholder(),
            r.previous@ == Parser::placeholder(),
            !r.had_error,
            !r.panic_mode,
    {
        Parser {
            current: Token { token_type: TokenType::Eof, lexeme: String::new(), line: 0 },
            previous: Token { token_type: TokenType::Eof, lexeme: String::new(), line: 0 },
            had_error: false,
            panic_mode: false,
        }
    }

    /// What stands in the window where no token has been taken yet: an
    /// end-of-input token without text, on line 0, which no source has.
    spec fn placeholder() -> TokenView {
        TokenView { kind: TokenType::Eof, lexeme: Seq::empty(), line: 0 }
    }
}

struct Compiler<'a> {
    scanner: Scanner,
    parser: Parser,
    compiling_chunk: Chunk,
    /// The values of the number literals, in the order of the literals.
    numbers: &'a Vec<u64>,
    /// The first failure, once there is one.
    failure: Option<CompileFailed>,
    /// All tokens of the source.
    toks: Ghost<Seq<TokenView>>,
    /// How many of them have been taken from the lexer.
    scanned: Ghost<nat>,
}

impl<'a> Compiler<'a> {
    spec fn failed(&self) -> bool {
        self.failure is Some
    }

    spec fn state(&self) -> Parse {
        Parse { scanned: self.scanned@, chunk: self.compiling_chunk@ }
    }

    spec fn flags_agree(&self) -> bool {
        &&& self.parser.had_error == self.failed()
        &&& self.parser.panic_mode == self.failed()
    }

    /// The lexer stands behind the token taken last.
    spec fn lexer_in_step(&self) -> bool {
        &&& well_ended(self.toks@)
        &&& self.scanner@.pos <= self.scanner@.chars.len()
        &&& self.scanned@ < self.toks@.len() ==> tokens(self.scanner@) == self.toks@.skip(
            self.scanned@ as int,
        )
        &&& self.scanned@ >= self.toks@.len() ==> self.scanner@.scan() == (
            self.toks@.last(),
            self.scanner@,
        )
    }

    spec fn wf(&self) -> bool {
        &&& self.lexer_in_step()
        &&& self.flags_agree()
        &&& self.scanned@ >= 1 ==> self.parser.current@ == token(self.toks@, self.scanned@)
            && self.parser.current@.kind != TokenType::Error
        &&& !self.failed() && self.scanned@ >= 2 ==> self.parser.previous@ == token(
            self.toks@,
            (self.scanned@ - 1) as nat,
        )
    }

    /// Nothing but the error flags and the failure on record differs.
    spec fn stands_where(&self, before: &Self) -> bool {
        &&& self.scanner == before.scanner
        &&& self.parser.current == before.parser.current
        &&& self.parser.previous == before.parser.previous
        &&& self.compiling_chunk == before.compiling_chunk
        &&& self.numbers == before.numbers
        &&& self.toks == before.toks
        &&& self.scanned == before.scanned
    }

    /// The same compilation, further on.
    spec fn continues(&self, before: &Self) -> bool {
        &&& self.toks@ == before.toks@
        &&& self.numbers == before.numbers
        &&& self.scanned@ >= before.scanned@
    }

    /// `self` is what `before` has become by a step that the model says
    /// yields `expected`: a compilation that had failed keeps its failure;
    /// one that had not either is where the model says it is, or has failed
    /// as the model says it fails.
    spec fn follows(&self, before: &Self, expected: Result<Parse, Failure>) -> bool {
        if before.failed() {
            self.failure == before.failure
        } else {
            match expected {
                Ok(parse) => !self.failed() && self.state() == parse,
                Err(failure) => self.failure is Some && self.failure->0@ == failure,
            }
        }
    }

    fn new(scanner: Scanner, numbers: &'a Vec<u64>) -> (r: Self)
        requires
            scanner@.pos <= scanner@.chars.len(),
        ensures
            r.wf(),
            !r.failed(),
            r.toks@ == tokens(scanner@),
            r.numbers == numbers,
            r.state() == (Parse { scanned: 0, chunk: ChunkView::empty() }),
    {
        proof {
            lemma_tokens_unfold(scanner@);
            assert(tokens(scanner@).skip(0) == tokens(scanner@));
        }
        Compiler {
            toks: Ghost(tokens(scanner@)),
            scanned: Ghost(0),
            scanner,
            parser: Parser::new(),
            compiling_chunk: Chunk::new(),
            numbers,
            failure: None,
        }
    }

    /// Records `failure` unless one is on record already.
    fn fail(&mut self, failure: CompileFailed)
        requires
            old(self).flags_agree(),
        ensures
            final(self).flags_agree(),
            final(self).failed(),
            final(self).failure == if old(self).failed() {
                old(self).failure
            } else {
                Some(failure)
            },
            final(self).stands_where(old(self)),
    {
        if self.parser.panic_mode {
            return;
        }
        self.parser.panic_mode = true;
        self.failure = Some(failure);
        self.parser.had_error = true;
    }

    fn error_at(&mut self, token: Token, message: &str)
        requires
            old(self).flags_agree(),
        ensures
            final(self).flags_agree(),
            final(self).failed(),
            old(self).failed() ==> final(self).failure == old(self).failure,
            !old(self).failed() ==> final(self).failure->0@ == syntax_error(token@, message@),
            final(self).stands_where(old(self)),
    {
        let diagnostic = Diagnostic { token, message: String::from_str(message) };
        self.fail(CompileFailed::Syntax(diagnostic));
    }

    fn error_at_current(&mut self, message: &str)
        requires
            old(self).flags_agree(),
        ensures
            final(self).flags_agree(),
            final(self).failed(),
            old(self).failed() ==> final(self).failure == old(self).failure,
            !old(self).failed() ==> final(self).failure->0@ == syntax_error(
                old(self).parser.current@,
                message@,
            ),
            final(self).stands_where(old(self)),
    {
        let token = self.parser.current.clone();
        self.error_at(token, message);
    }

    fn error(&mut self, message: &str)
        requires
            old(self).flags_agree(),
        ensures
            final(self).flags_agree(),
            final(self).failed(),
            old(self).failed() ==> final(self).failure == old(self).failure,
            !old(self).failed() ==> final(self).failure->0@ == syntax_error(
                old(self).parser.previous@,
                message@,
            ),
            final(self).stands_where(old(self)),
    {
        let token = self.parser.previous.clone();
        self.error_at(token, message);
    }

    /// Makes the lookahead the previous token and takes the next token that
    /// is no error token from the lexer; each error token on the way is
    /// reported.
    fn advance(&mut self)
        requires
            old(self).wf(),
        ensures
            final(self).wf(),
            final(self).continues(old(self)),
            final(self).compiling_chunk == old(self).compiling_chunk,
            final(self).parser.previous@ == old(self).parser.current@,
            final(self).scanned@ > old(self).scanned@,
            old(self).scanned@ < old(self).toks@.len() ==> final(self).scanned@ <= old(
                self,
            ).toks@.len(),
            final(self).follows(old(self), old(self).state().advance(old(self).toks@)),
    {
        self.parser.previous = self.parser.current.clone();
        let ghost first = true;
        loop
            invariant_except_break
                self.lexer_in_step(),
                self.flags_agree(),
                self.continues(old(self)),
                self.compiling_chunk == old(self).compiling_chunk,
                self.parser.previous@ == old(self).parser.current@,
                first ==> self.scanned@ == old(self).scanned@ && self.failure == old(
                    self,
                ).failure,
                !first ==> self.scanned@ > old(self).scanned@ && self.failed() && self.follows(
                    old(self),
                    old(self).state().advance(old(self).toks@),
                ),
                old(self).scanned@ < old(self).toks@.len() ==> self.scanned@ < old(
                    self,
                ).toks@.len(),
                old(self).wf(),
            ensures
                self.wf(),
                self.continues(old(self)),
                self.compiling_chunk == old(self).compiling_chunk,
                self.parser.previous@ == old(self).parser.current@,
                self.scanned@ > old(self).scanned@,
                old(self).scanned@ < old(self).toks@.len() ==> self.scanned@ <= old(
                    self,
                ).toks@.len(),
                self.follows(old(self), old(self).state().advance(old(self).toks@)),
            decreases self.toks@.len() - self.scanned@,
        {
            proof {
                lemma_tokens_unfold(self.scanner@);
            }
            let ghost before = self.scanner@;
            let ghost count = self.scanned@;
            let taken = self.scanner.scan_token();
            proof {
                if count < self.toks@.len() {
                    assert(taken@ == self.toks@.skip(count as int)[0]);
                    if taken@.kind != TokenType::Eof {
                        assert(tokens(self.scanner@) == self.toks@.skip(count as int).skip(1));
                        assert(self.toks@.skip(count as int).skip(1) == self.toks@.skip(
                            (count + 1) as int,
                        ));
                        assert(count + 1 < self.toks@.len());
                    } else {
                        assert(self.toks@.skip(count as int).len() == 1);
                        lemma_end_of_input_repeats(before);
                    }
                }
                assert(taken@ == token(self.toks@, count + 1));
            }
            self.parser.current = taken;
            self.scanned = Ghost(self.scanned@ + 1);
            if self.parser.current.token_type != TokenType::Error {
                break;
            }
            let message = self.parser.current.lexeme.clone();
            self.error_at_current(message.as_str());
            proof {
                first = false;
            }
        }
    }

    /// Takes the lookahead if it is of the given kind, and reports `message`
    /// at it if it is not.
    fn consume(&mut self, token_type: TokenType, message: &str)
        requires
            old(self).wf(),
            old(self).scanned@ >= 1,
        ensures
            final(self).wf(),
            final(self).continues(old(self)),
            final(self).compiling_chunk == old(self).compiling_chunk,
            final(self).scanned@ >= 2 || final(self).failed(),
            final(self).follows(
                old(self),
                old(self).state().consume(old(self).toks@, token_type, message@),
            ),
    {
        if self.parser.current.token_type == token_type {
            self.advance();
            return;
        }
        self.error_at_current(message);
    }

    fn emit_opcode(&mut self, opcode: OpCode)
        requires
            old(self).wf(),
            old(self).scanned@ >= 2 || old(self).failed(),
        ensures
            final(self).wf(),
            final(self).continues(old(self)),
            final(self).scanned@ == old(self).scanned@,
            final(self).follows(old(self), Ok(old(self).state().emit(old(self).toks@, opcode))),
    {
        let line = self.parser.previous.line;
        self.compiling_chunk.write_opcode(opcode, line);
    }

    fn emit_constant(&mut self, value: Value)
        requires
            old(self).wf(),
            old(self).scanned@ >= 2 || old(self).failed(),
        ensures
            final(self).wf(),
            final(self).continues(old(self)),
            final(self).scanned@ == old(self).scanned@,
            final(self).follows(
                old(self),
                if old(self).compiling_chunk@.constants.len() >= MAX_CONSTANTS {
                    Err(Failure::TooManyConstants)
                } else {
                    Ok(
                        Parse {
                            chunk: old(self).compiling_chunk@.write_constant(
                                value,
                                old(self).state().previous(old(self).toks@).line as usize,
                            ),
                            ..old(self).state()
                        },
                    )
                },
            ),
    {
        let line = self.parser.previous.line;
        match self.compiling_chunk.write_constant(value, line) {
            Ok(()) => {},
            Err(_) => {
                self.fail(CompileFailed::TooManyConstants);
            },
        }
    }

    fn expression(&mut self)
        requires
            old(self).wf(),
            old(self).scanned@ >= 1,
        ensures
            final(self).wf(),
            final(self).continues(old(self)),
            final(self).scanned@ > old(self).scanned@,
            final(self).scanned@ <= final(self).toks@.len() || final(self).failed(),
            final(self).follows(
                old(self),
                old(self).state().parse_precedence(
                    old(self).toks@,
                    old(self).numbers@,
                    Precedence::Assignment,
                ),
            ),
        decreases old(self).toks@.len() - old(self).scanned@, 2nat,
    {
        self.parse_precedence(Precedence::Assignment);
    }

    /// The core of the compiler: takes a token, compiles what that token
    /// begins, and goes on with each operator that follows and binds at
    /// least as tightly as `precedence`.
    fn parse_precedence(&mut self, precedence: Precedence)
        requires
            old(self).wf(),
            old(self).scanned@ >= 1,
            precedence.rank() >= 1,
        ensures
            final(self).wf(),
            final(self).continues(old(self)),
            final(self).scanned@ > old(self).scanned@,
            final(self).scanned@ <= final(self).toks@.len() || final(self).failed(),
            final(self).follows(
                old(self),
                old(self).state().parse_precedence(
                    old(self).toks@,
                    old(self).numbers@,
                    precedence,
                ),
            ),
        decreases old(self).toks@.len() - old(self).scanned@, 1nat,
    {
        let ghost toks = self.toks@;
        let ghost numbers = self.numbers@;
        let ghost start = self.state();
        let ghost expected = start.parse_precedence(toks, numbers, precedence);
        proof {
            lemma_parse_advances(start, toks, numbers, precedence);
        }
        self.advance();
        let prefix_rule = get_rule(self.parser.previous.token_type).prefix;
        let ghost taken = self.state();
        match prefix_rule {
            Some(PrefixAction::Grouping) => {
                self.grouping();
            },
            Some(PrefixAction::Number) => {
                self.number();
            },
            Some(PrefixAction::Unary(opcode)) => {
                self.unary(opcode);
            },
            None => {
                self.error("Expect expression.");
                return;
            },
        }
        proof {
            if !old(self).failed() && !self.failed() {
                lemma_infix_loop_advances(self.state(), toks, numbers, precedence);
            }
        }
        while precedence.level() <= get_rule(self.parser.current.token_type).precedence.level()
            invariant
                self.wf(),
                self.continues(old(self)),
                toks == self.toks@,
                numbers == self.numbers@,
                well_ended(toks),
                precedence.rank() >= 1,
                self.scanned@ > old(self).scanned@,
                self.scanned@ <= toks.len() || self.failed(),
                self.scanned@ >= 2,
                old(self).failed() ==> self.failure == old(self).failure,
                !old(self).failed() ==> (if self.failed() {
                    expected == Err::<Parse, Failure>(self.failure->0@)
                } else {
                    expected == self.state().infix_loop(toks, numbers, precedence)
                }),
            decreases
                    (if self.scanned@ <= toks.len() {
                        toks.len() - self.scanned@ + 1
                    } else {
                        0
                    }),
        {
            let ghost before = self.state();
            let ghost was_failed = self.failed();
            proof {
                if !was_failed {
                    lemma_infix_loop_advances(before, toks, numbers, precedence);
                }
            }
            self.advance();
            let infix_rule = get_rule(self.parser.previous.token_type).infix;
            match infix_rule {
                Some(InfixAction::Binary(opcode)) => {
                    proof {
                        if !self.failed() {
                            lemma_parse_advances(
                                self.state(),
                                toks,
                                numbers,
                                rule(self.parser.previous@.kind).precedence.tighter(),
                            );
                        }
                    }
                    self.binary(opcode);
                },
                None => {},
            }
        }
    }

    /// Compiles the operand of a prefix operator that was just taken, then
    /// emits the operator.
    fn unary(&mut self, opcode: OpCode)
        requires
            old(self).wf(),
            old(self).scanned@ >= 2,
            old(self).scanned@ <= old(self).toks@.len(),
        ensures
            final(self).wf(),
            final(self).continues(old(self)),
            final(self).scanned@ > old(self).scanned@,
            final(self).scanned@ <= final(self).toks@.len() || final(self).failed(),
            final(self).follows(
                old(self),
                match old(self).state().parse_precedence(
                    old(self).toks@,
                    old(self).numbers@,
                    Precedence::Unary,
                ) {
                    Err(failure) => Err(failure),
                    Ok(operand) => Ok(operand.emit(old(self).toks@, opcode)),
                },
            ),
        decreases old(self).toks@.len() - old(self).scanned@, 2nat,
    {
        self.parse_precedence(Precedence::Unary);
        self.emit_opcode(opcode);
    }

    /// Compiles the right operand of an infix operator that was just taken,
    /// one level tighter than the operator, then emits the operator.
    fn binary(&mut self, opcode: OpCode)
        requires
            old(self).wf(),
            old(self).scanned@ >= 2,
            old(self).scanned@ <= old(self).toks@.len(),
        ensures
            final(self).wf(),
            final(self).continues(old(self)),
            final(self).scanned@ > old(self).scanned@,
            final(self).scanned@ <= final(self).toks@.len() || final(self).failed(),
            final(self).follows(
                old(self),
                match old(self).state().parse_precedence(
                    old(self).toks@,
                    old(self).numbers@,
                    rule(old(self).parser.previous@.kind).precedence.tighter(),
                ) {
                    Err(failure) => Err(failure),
                    Ok(right) => Ok(right.emit(old(self).toks@, opcode)),
                },
            ),
        decreases old(self).toks@.len() - old(self).scanned@, 2nat,
    {
        let operator_type = self.parser.previous.token_type;
        let rule = get_rule(operator_type);
        let next_precedence = rule.precedence.next();
        self.parse_precedence(next_precedence);
        self.emit_opcode(opcode);
    }

    /// Compiles the expression inside a pair of parentheses whose opening
    /// one was just taken, and takes the closing one.
    fn grouping(&mut self)
        requires
            old(self).wf(),
            old(self).scanned@ >= 2,
            old(self).scanned@ <= old(self).toks@.len(),
        ensures
            final(self).wf(),
            final(self).continues(old(self)),
            final(self).scanned@ > old(self).scanned@,
            final(self).scanned@ <= final(self).toks@.len() || final(self).failed(),
            final(self).follows(
                old(self),
                match old(self).state().parse_precedence(
                    old(self).toks@,
                    old(self).numbers@,
                    Precedence::Assignment,
                ) {
                    Err(failure) => Err(failure),
                    Ok(inner) => inner.consume(
                        old(self).toks@,
                        TokenType::RightParen,
                        "Expect ')' after expression."@,
                    ),
                },
            ),
        decreases old(self).toks@.len() - old(self).scanned@, 3nat,
    {
        self.expression();
        self.consume(TokenType::RightParen, "Expect ')' after expression.");
    }

    /// Compiles the number literal that was just taken.
    fn number(&mut self)
        requires
            old(self).wf(),
            old(self).scanned@ >= 2 || old(self).failed(),
        ensures
            final(self).wf(),
            final(self).continues(old(self)),
            final(self).scanned@ == old(self).scanned@,
            final(self).follows(
                old(self),
                old(self).state().number(old(self).toks@, old(self).numbers@),
            ),
    {
        let index = self.compiling_chunk.constants().count();
        if index < self.numbers.len() {
            let bits = self.numbers[index];
            self.emit_constant(Value::Number(bits));
        } else {
            self.fail(CompileFailed::MissingNumber(index));
        }
    }
}

/// Compiles `source`, which must be one expression, into a chunk that ends
/// in a `return`. `numbers` holds the values of the number literals of the
/// source, in the order of the literals, each as the encoding of a number.
/// A source with any error yields no chunk but the first of its errors.
pub fn compile(source: String, numbers: &Vec<u64>) -> (r: Result<Chunk, CompileFailed>)
    requires
        source@.len() < usize::MAX,
    ensures
        match compiled(tokens(Cursor::start(source@)), numbers@) {
            Ok(chunk) => r is Ok && r->Ok_0@ == chunk,
            Err(failure) => r is Err && r->Err_0@ == failure,
        },
        r matches Ok(chunk) ==> orderly(chunk@, numbers@),
{
    proof {
        lemma_tokens_unfold(Cursor::start(source@));
        lemma_compiled_is_orderly(tokens(Cursor::start(source@)), numbers@);
    }
    let scanner = Scanner::new(source);
    let mut compiler = Compiler::new(scanner, numbers);
    compiler.advance();
    compiler.expression();
    compiler.consume(TokenType::Eof, "Expect end of expression.");
    compiler.emit_opcode(OpCode::Return);
    let Compiler { failure, compiling_chunk, .. } = compiler;
    match failure {
        Some(failure) => Err(failure),
        None => Ok(compiling_chunk),
    }
}

/// The texts of the number tokens among `toks`, in order.
pub open spec fn number_texts(toks: Seq<TokenView>) -> Seq<Seq<char>>
    decreases toks.len(),
{
    if toks.len() == 0 {
        Seq::empty()
    } else if toks.last().kind == TokenType::Number {
        number_texts(toks.drop_last()).push(toks.last().lexeme)
    } else {
        number_texts(toks.drop_last())
    }
}

/// The texts of the number literals of `source`, in order: what the caller
/// of `compile` has to supply the values of.
pub fn number_lexemes(source: &str) -> (r: Vec<String>)
    requires
        source@.len() < usize::MAX,
    ensures
        r@.len() == number_texts(tokens(Cursor::start(source@))).len(),
        forall|i: int|
            0 <= i < r@.len() ==> (#[trigger] r@[i])@ == number_texts(
                tokens(Cursor::start(source@)),
            )[i],
{
    let mut scanner = Scanner::new(String::from_str(source));
    let ghost toks = tokens(scanner@);
    let ghost scanned: nat = 0;
    let mut lexemes: Vec<String> = Vec::new();
    proof {
        lemma_tokens_unfold(scanner@);
        assert(toks.skip(0) == toks);
        assert(toks.take(0) == Seq::<TokenView>::empty());
    }
    loop
        invariant_except_break
            scanned < toks.len(),
            tokens(scanner@) == toks.skip(scanned as int),
        invariant
            toks == tokens(Cursor::start(source@)),
            well_ended(toks),
            scanner@.pos <= scanner@.chars.len(),
            scanned <= toks.len(),
            lexemes@.len() == number_texts(toks.take(scanned as int)).len(),
            forall|i: int|
                0 <= i < lexemes@.len() ==> (#[trigger] lexemes@[i])@ == number_texts(
                    toks.take(scanned as int),
                )[i],
        ensures
            scanned == toks.len(),
        decreases toks.len() - scanned,
    {
        proof {
            lemma_tokens_unfold(scanner@);
        }
        let taken = scanner.scan_token();
        proof {
            assert(taken@ == toks.skip(scanned as int)[0]);
            assert(toks.take((scanned + 1) as int).drop_last() == toks.take(scanned as int));
            assert(toks.take((scanned + 1) as int).last() == taken@);
            if taken@.kind != TokenType::Eof {
                assert(tokens(scanner@) == toks.skip(scanned as int).skip(1));
                assert(toks.skip(scanned as int).skip(1) == toks.skip((scanned + 1) as int));
            } else {
                assert(toks.skip(scanned as int).len() == 1);
            }
            scanned = scanned + 1;
        }
        match taken.token_type {
            TokenType::Number => {
                lexemes.push(taken.lexeme);
            },
            TokenType::Eof => {
                break;
            },
            _ => {},
        }
    }
    proof {
        assert(toks.take(toks.len() as int) == toks);
    }
    lexemes
}

/// What holds of every chunk under compilation: its line table is as long
/// as its code, and its constants are the first of `numbers`, in order, and
/// few enough to be addressed.
pub open spec fn orderly(chunk: ChunkView, numbers: Seq<u64>) -> bool {
    &&& chunk.lines_parallel()
    &&& chunk.constants.len() <= numbers.len()
    &&& chunk.constants.len() <= MAX_CONSTANTS
    &&& forall|i: int|
        0 <= i < chunk.constants.len() ==> #[trigger] chunk.constants[i] == Value::Number(
            numbers[i],
        )
}

/// Compiling an expression keeps the chunk orderly.
pub proof fn lemma_parse_keeps_orderly(
    p: Parse,
    toks: Seq<TokenView>,
    numbers: Seq<u64>,
    min: Precedence,
)
    requires
        well_ended(toks),
        p.scanned >= 1,
        orderly(p.chunk, numbers),
    ensures
        p.parse_precedence(toks, numbers, min) matches Ok(q) ==> orderly(q.chunk, numbers),
    decreases toks.len() - p.scanned, 1nat,
{
    lemma_parse_advances(p, toks, numbers, min);
    if let Ok(taken) = p.advance(toks) {
        let begun = match rule(taken.previous(toks).kind).prefix {
            None => Err(syntax_error(taken.previous(toks), "Expect expression."@)),
            Some(PrefixAction::Number) => taken.number(toks, numbers),
            Some(PrefixAction::Grouping) => match taken.parse_precedence(
                toks,
                numbers,
                Precedence::Assignment,
            ) {
                Err(failure) => Err(failure),
                Ok(inner) => inner.consume(
                    toks,
                    TokenType::RightParen,
                    "Expect ')' after expression."@,
                ),
            },
            Some(PrefixAction::Unary(op)) => match taken.parse_precedence(
                toks,
                numbers,
                Precedence::Unary,
            ) {
                Err(failure) => Err(failure),
                Ok(operand) => Ok(operand.emit(toks, op)),
            },
        };
        match rule(taken.previous(toks).kind).prefix {
            None => {},
            Some(PrefixAction::Number) => {},
            Some(PrefixAction::Grouping) => {
                lemma_parse_advances(taken, toks, numbers, Precedence::Assignment);
                lemma_parse_keeps_orderly(taken, toks, numbers, Precedence::Assignment);
            },
            Some(PrefixAction::Unary(op)) => {
                lemma_parse_advances(taken, toks, numbers, Precedence::Unary);
                lemma_parse_keeps_orderly(taken, toks, numbers, Precedence::Unary);
            },
        }
        if let Ok(left) = begun {
            assert(orderly(left.chunk, numbers));
            assert(p.scanned < left.scanned <= toks.len());
            lemma_infix_loop_keeps_orderly(left, toks, numbers, min);
        }
    }
}

/// Compiling the operators after an operand keeps the chunk orderly.
pub proof fn lemma_infix_loop_keeps_orderly(
    p: Parse,
    toks: Seq<TokenView>,
    numbers: Seq<u64>,
    min: Precedence,
)
    requires
        well_ended(toks),
        1 <= p.scanned <= toks.len(),
        orderly(p.chunk, numbers),
    ensures
        p.infix_loop(toks, numbers, min) matches Ok(q) ==> orderly(q.chunk, numbers),
    decreases toks.len() - p.scanned, 0nat,
{
    let operator = rule(p.current(toks).kind);
    if !(min.rank() == 0 || operator.precedence.rank() < min.rank()) {
        if let Ok(taken) = p.advance(toks) {
            let applied = match operator.infix {
                None => Ok(taken),
                Some(InfixAction::Binary(op)) => match taken.parse_precedence(
                    toks,
                    numbers,
                    operator.precedence.tighter(),
                ) {
                    Err(failure) => Err(failure),
                    Ok(right) => Ok(right.emit(toks, op)),
                },
            };
            if let Some(InfixAction::Binary(op)) = operator.infix {
                lemma_parse_advances(taken, toks, numbers, operator.precedence.tighter());
                lemma_parse_keeps_orderly(taken, toks, numbers, operator.precedence.tighter());
            }
            if let Ok(done) = applied {
                assert(orderly(done.chunk, numbers));
                assert(p.scanned < done.scanned <= toks.len());
                lemma_infix_loop_keeps_orderly(done, toks, numbers, min);
            }
        }
    }
}

/// A chunk that comes out of the compiler is orderly and ends in a
/// `return`.
pub proof fn lemma_compiled_is_orderly(toks: Seq<TokenView>, numbers: Seq<u64>)
    requires
        well_ended(toks),
    ensures
        compiled(toks, numbers) matches Ok(chunk) ==> orderly(chunk, numbers) && chunk.code.len()
            > 0 && chunk.code.last() == encoding(OpCode::Return),
{
    if let Ok(first) = (Parse { scanned: 0, chunk: ChunkView::empty() }).advance(toks) {
        lemma_parse_keeps_orderly(first, toks, numbers, Precedence::Assignment);
    }
}

/// An expression takes at least one token and never reads beyond the
/// end-of-input token, so the guards in `parse_precedence` and `infix_loop`
/// hold wherever they are reached.
pub proof fn lemma_parse_advances(
    p: Parse,
    toks: Seq<TokenView>,
    numbers: Seq<u64>,
    min: Precedence,
)
    requires
        well_ended(toks),
        p.scanned >= 1,
    ensures
        p.parse_precedence(toks, numbers, min) matches Ok(q) ==> p.scanned < q.scanned
            <= toks.len(),
    decreases toks.len() - p.scanned, 1nat,
{
    if let Ok(taken) = p.advance(toks) {
        match rule(taken.previous(toks).kind).prefix {
            None => {},
            Some(PrefixAction::Number) => {},
            Some(PrefixAction::Grouping) => {
                lemma_parse_advances(taken, toks, numbers, Precedence::Assignment);
            },
            Some(PrefixAction::Unary(op)) => {
                lemma_parse_advances(taken, toks, numbers, Precedence::Unary);
            },
        }
        let begun = match rule(taken.previous(toks).kind).prefix {
            None => Err(syntax_error(taken.previous(toks), "Expect expression."@)),
            Some(PrefixAction::Number) => taken.number(toks, numbers),
            Some(PrefixAction::Grouping) => match taken.parse_precedence(
                toks,
                numbers,
                Precedence::Assignment,
            ) {
                Err(failure) => Err(failure),
                Ok(inner) => inner.consume(
                    toks,
                    TokenType::RightParen,
                    "Expect ')' after expression."@,
                ),
            },
            Some(PrefixAction::Unary(op)) => match taken.parse_precedence(
                toks,
                numbers,
                Precedence::Unary,
            ) {
                Err(failure) => Err(failure),
                Ok(operand) => Ok(operand.emit(toks, op)),
            },
        };
        if let Ok(left) = begun {
            assert(p.scanned < left.scanned <= toks.len());
            lemma_infix_loop_advances(left, toks, numbers, min);
        }
    }
}

/// The operators after an operand take tokens, if any, and never read
/// beyond the end-of-input token.
pub proof fn lemma_infix_loop_advances(
    p: Parse,
    toks: Seq<TokenView>,
    numbers: Seq<u64>,
    min: Precedence,
)
    requires
        well_ended(toks),
        1 <= p.scanned <= toks.len(),
    ensures
        p.infix_loop(toks, numbers, min) matches Ok(q) ==> p.scanned <= q.scanned <= toks.len(),
    decreases toks.len() - p.scanned, 0nat,
{
    let operator = rule(p.current(toks).kind);
    if !(min.rank() == 0 || operator.precedence.rank() < min.rank()) {
        if let Ok(taken) = p.advance(toks) {
            let applied = match operator.infix {
                None => Ok(taken),
                Some(InfixAction::Binary(op)) => match taken.parse_precedence(
                    toks,
                    numbers,
                    operator.precedence.tighter(),
                ) {
                    Err(failure) => Err(failure),
                    Ok(right) => Ok(right.emit(toks, op)),
                },
            };
            if let Some(InfixAction::Binary(op)) = operator.infix {
                lemma_parse_advances(taken, toks, numbers, operator.precedence.tighter());
            }
            if let Ok(done) = applied {
                assert(p.scanned < done.scanned <= toks.len());
                lemma_infix_loop_advances(done, toks, numbers, min);
            }
        }
    }
}

} // verus!

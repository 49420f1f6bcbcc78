//! What compiling means, in terms of expression trees in which operators
//! are nested by precedence, and to the left among equals.
//!
//! Three things are proved here. Whatever compiles is an expression: the
//! chunk is the postfix code of a well nested tree that the tokens of the
//! source spell (`lemma_compiled_is_postfix`). Every expression compiles:
//! a source that spells a well nested tree yields the code of that tree
//! (`lemma_expression_compiles`), so that the sources that compile are
//! exactly the expressions (`lemma_compiles_exactly_expressions`). And the
//! code computes the value: a machine that runs it ends with the value of
//! the tree (`lemma_source_evaluates`).

use vstd::prelude::*;
use crate::chunk::ChunkView;
use crate::compiler::{
    compiled,
    lemma_compiled_is_orderly,
    lemma_parse_advances,
    orderly,
    rule,
    token,
    Failure,
    InfixAction,
    Parse,
    Precedence,
    PrefixAction,
};
use crate::number;
use crate::opcode::{encoding, lemma_encoding_round_trip, OpCode};
use crate::scanner::{well_ended, TokenType, TokenView};
use crate::value::Value;
use crate::vm::{Arithmetic, Machine, Outcome, RuntimeFault, Transition, STACK_MAX};

verus! {

/// An expression. Operators are named by the kind of their token.
pub enum Expr {
    /// A number literal.
    Literal,
    /// An expression in parentheses.
    Group(Box<Expr>),
    /// A prefix operator and its operand.
    Unary(TokenType, Box<Expr>),
    /// An infix operator between its operands.
    Binary(Box<Expr>, TokenType, Box<Expr>),
}

/// The opcode that a prefix operator compiles to.
pub open spec fn prefix_opcode(kind: TokenType) -> OpCode {
    match rule(kind).prefix {
        Some(PrefixAction::Unary(op)) => op,
        _ => OpCode::Negate,
    }
}

/// The opcode that an infix operator compiles to.
pub open spec fn infix_opcode(kind: TokenType) -> OpCode {
    match rule(kind).infix {
        Some(InfixAction::Binary(op)) => op,
        None => OpCode::Add,
    }
}

impl Expr {
    /// The kinds of the tokens that spell the expression.
    pub open spec fn spelling(self) -> Seq<TokenType>
        decreases self,
    {
        match self {
            Expr::Literal => seq![TokenType::Number],
            Expr::Group(inner) => seq![TokenType::LeftParen] + inner.spelling()
                + seq![TokenType::RightParen],
            Expr::Unary(operator, operand) => seq![operator] + operand.spelling(),
            Expr::Binary(left, operator, right) => left.spelling() + seq![operator]
                + right.spelling(),
        }
    }

    /// The number of literals in the expression.
    pub open spec fn literals(self) -> nat
        decreases self,
    {
        match self {
            Expr::Literal => 1,
            Expr::Group(inner) => inner.literals(),
            Expr::Unary(_, operand) => operand.literals(),
            Expr::Binary(left, _, right) => left.literals() + right.literals(),
        }
    }

    /// The code of the expression in postfix order: operands first, left
    /// before right, then the operator. Its literals load the constants from
    /// index `first` on, in the order of the source.
    pub open spec fn code(self, first: nat) -> Seq<u8>
        decreases self,
    {
        match self {
            Expr::Literal => seq![encoding(OpCode::Constant), first as u8],
            Expr::Group(inner) => inner.code(first),
            Expr::Unary(operator, operand) => operand.code(first) + seq![
                encoding(prefix_opcode(operator)),
            ],
            Expr::Binary(left, operator, right) => left.code(first) + right.code(
                first + left.literals(),
            ) + seq![encoding(infix_opcode(operator))],
        }
    }

    /// How tightly the expression is held together: a literal and a group
    /// as tightly as can be, an operator expression as its operator binds.
    pub open spec fn binds(self) -> nat {
        match self {
            Expr::Literal => Precedence::Primary.rank(),
            Expr::Group(_) => Precedence::Primary.rank(),
            Expr::Unary(_, _) => Precedence::Unary.rank(),
            Expr::Binary(_, operator, _) => rule(operator).precedence.rank(),
        }
    }

    /// The expression is nested as precedence and associativity demand: the
    /// operand of a prefix operator binds at least as tightly as a prefix
    /// operator; the left operand of an infix operator binds at least as
    /// tightly as the operator, and the right operand more tightly. So `*`
    /// is never split by `+`, and a chain of equals leans to the left.
    pub open spec fn shaped(self) -> bool
        decreases self,
    {
        match self {
            Expr::Literal => true,
            Expr::Group(inner) => inner.shaped(),
            Expr::Unary(operator, operand) => {
                &&& rule(operator).prefix matches Some(PrefixAction::Unary(_))
                &&& operand.shaped()
                &&& operand.binds() >= Precedence::Unary.rank()
            },
            Expr::Binary(left, operator, right) => {
                &&& rule(operator).infix is Some
                &&& left.shaped()
                &&& right.shaped()
                &&& left.binds() >= rule(operator).precedence.rank()
                &&& right.binds() > rule(operator).precedence.rank()
            },
        }
    }
}

/// The kinds of the tokens `toks[from..to]`.
pub open spec fn kinds(toks: Seq<TokenView>, from: int, to: int) -> Seq<TokenType> {
    Seq::new((to - from) as nat, |i: int| toks[from + i].kind)
}

/// `e` is what the compiler made of the tokens it took between `before` and
/// `after`: the tokens spell it, and its code and constants are what was
/// added to the chunk.
pub open spec fn describes(e: Expr, toks: Seq<TokenView>, before: Parse, after: Parse) -> bool {
    &&& e.shaped()
    &&& 1 <= before.scanned <= after.scanned <= toks.len()
    &&& kinds(toks, before.scanned - 1, after.scanned - 1) == e.spelling()
    &&& after.chunk.code == before.chunk.code + e.code(before.chunk.constants.len())
    &&& after.chunk.constants.len() == before.chunk.constants.len() + e.literals()
}

/// No token binds as an infix operator more tightly than a factor.
proof fn lemma_precedence_bound(kind: TokenType)
    ensures
        rule(kind).precedence.rank() <= Precedence::Factor.rank(),
        rule(kind).precedence.rank() >= 1 ==> rule(kind).infix is Some && kind != TokenType::Eof,
        rule(kind).precedence.tighter().rank() == rule(kind).precedence.rank() + 1,
{
}

/// What `parse_precedence` compiles is an expression: it returns the tree
/// that the tokens it took spell and whose postfix code it emitted. The
/// tree binds at least as tightly as was asked for, and the token behind it
/// is no operator that would have to be part of it.
#[verifier::spinoff_prover]
pub proof fn lemma_parse_is_tree(
    p: Parse,
    toks: Seq<TokenView>,
    numbers: Seq<u64>,
    min: Precedence,
) -> (e: Expr)
    requires
        well_ended(toks),
        p.scanned >= 1,
        1 <= min.rank() <= Precedence::Unary.rank(),
    ensures
        p.parse_precedence(toks, numbers, min) matches Ok(q) ==> describes(e, toks, p, q)
            && e.binds() >= min.rank() && rule(q.current(toks).kind).precedence.rank()
            < min.rank(),
    decreases toks.len() - p.scanned, 1nat,
{
    lemma_parse_advances(p, toks, numbers, min);
    match p.advance(toks) {
        Err(_) => Expr::Literal,
        Ok(taken) => {
            let first = taken.previous(toks);
            match rule(first.kind).prefix {
                None => Expr::Literal,
                Some(PrefixAction::Number) => {
                    match taken.number(toks, numbers) {
                        Err(_) => Expr::Literal,
                        Ok(left) => {
                            assert(p.scanned < toks.len());
                            assert(kinds(toks, p.scanned - 1, left.scanned - 1)
                                == Expr::Literal.spelling());
                            assert(left.chunk.code == p.chunk.code + Expr::Literal.code(
                                p.chunk.constants.len(),
                            ));
                            assert(describes(Expr::Literal, toks, p, left));
                            lemma_loop_is_tree(p, left, toks, numbers, min, Expr::Literal)
                        },
                    }
                },
                Some(PrefixAction::Grouping) => {
                    lemma_parse_advances(taken, toks, numbers, Precedence::Assignment);
                    let inner = lemma_parse_is_tree(taken, toks, numbers, Precedence::Assignment);
                    match taken.parse_precedence(toks, numbers, Precedence::Assignment) {
                        Err(_) => Expr::Literal,
                        Ok(parsed) => match parsed.consume(
                            toks,
                            TokenType::RightParen,
                            "Expect ')' after expression."@,
                        ) {
                            Err(_) => Expr::Literal,
                            Ok(left) => {
                                let group = Expr::Group(Box::new(inner));
                                assert(kinds(toks, p.scanned - 1, left.scanned - 1)
                                    == group.spelling()) by {
                                    lemma_kinds_split(
                                        toks,
                                        p.scanned - 1,
                                        p.scanned as int,
                                        left.scanned - 1,
                                    );
                                    lemma_kinds_split(
                                        toks,
                                        p.scanned as int,
                                        parsed.scanned - 1,
                                        left.scanned - 1,
                                    );
                                    lemma_kinds_one(toks, p.scanned - 1);
                                    lemma_kinds_one(toks, parsed.scanned - 1);
                                }
                                assert(describes(group, toks, p, left));
                                lemma_loop_is_tree(p, left, toks, numbers, min, group)
                            },
                        },
                    }
                },
                Some(PrefixAction::Unary(op)) => {
                    lemma_parse_advances(taken, toks, numbers, Precedence::Unary);
                    let operand = lemma_parse_is_tree(taken, toks, numbers, Precedence::Unary);
                    match taken.parse_precedence(toks, numbers, Precedence::Unary) {
                        Err(_) => Expr::Literal,
                        Ok(parsed) => {
                            let left = parsed.emit(toks, op);
                            let unary = Expr::Unary(first.kind, Box::new(operand));
                            assert(kinds(toks, p.scanned - 1, left.scanned - 1)
                                == unary.spelling()) by {
                                lemma_kinds_split(
                                    toks,
                                    p.scanned - 1,
                                    p.scanned as int,
                                    left.scanned - 1,
                                );
                                lemma_kinds_one(toks, p.scanned - 1);
                            }
                            assert(left.chunk.code == p.chunk.code + unary.code(
                                p.chunk.constants.len(),
                            ));
                            assert(describes(unary, toks, p, left));
                            lemma_precedence_bound(left.current(toks).kind);
                            lemma_loop_is_tree(p, left, toks, numbers, min, unary)
                        },
                    }
                },
            }
        },
    }
}

/// What `infix_loop` adds to a left operand: the tree that has the operand
/// at its far left and each operator that followed above it.
#[verifier::spinoff_prover]
pub proof fn lemma_loop_is_tree(
    start: Parse,
    p: Parse,
    toks: Seq<TokenView>,
    numbers: Seq<u64>,
    min: Precedence,
    left: Expr,
) -> (e: Expr)
    requires
        well_ended(toks),
        1 <= min.rank() <= Precedence::Unary.rank(),
        describes(left, toks, start, p),
        left.binds() >= min.rank(),
        left.binds() >= rule(p.current(toks).kind).precedence.rank(),
    ensures
        p.infix_loop(toks, numbers, min) matches Ok(q) ==> describes(e, toks, start, q)
            && e.binds() >= min.rank() && rule(q.current(toks).kind).precedence.rank()
            < min.rank(),
    decreases toks.len() - p.scanned, 0nat,
{
    let kind = p.current(toks).kind;
    let operator = rule(kind);
    lemma_precedence_bound(kind);
    if operator.precedence.rank() < min.rank() {
        left
    } else {
        match p.advance(toks) {
            Err(_) => left,
            Ok(taken) => {
                let tighter = operator.precedence.tighter();
                lemma_parse_advances(taken, toks, numbers, tighter);
                let operand = lemma_parse_is_tree(taken, toks, numbers, tighter);
                match taken.parse_precedence(toks, numbers, tighter) {
                    Err(_) => left,
                    Ok(right) => {
                        let done = right.emit(toks, infix_opcode(kind));
                        let binary = Expr::Binary(Box::new(left), kind, Box::new(operand));
                        assert(kinds(toks, start.scanned - 1, done.scanned - 1)
                            == binary.spelling()) by {
                            lemma_kinds_split(
                                toks,
                                start.scanned - 1,
                                p.scanned - 1,
                                done.scanned - 1,
                            );
                            lemma_kinds_split(
                                toks,
                                p.scanned - 1,
                                p.scanned as int,
                                done.scanned - 1,
                            );
                            lemma_kinds_one(toks, p.scanned - 1);
                        }
                        assert(done.chunk.code == start.chunk.code + binary.code(
                            start.chunk.constants.len(),
                        ));
                        assert(describes(binary, toks, start, done));
                        lemma_loop_is_tree(start, done, toks, numbers, min, binary)
                    },
                }
            },
        }
    }
}

/// The kinds of a stretch of tokens are those of its two parts, one after
/// the other.
proof fn lemma_kinds_split(toks: Seq<TokenView>, from: int, mid: int, to: int)
    requires
        from <= mid <= to,
    ensures
        kinds(toks, from, to) == kinds(toks, from, mid) + kinds(toks, mid, to),
{
}

/// The kinds of a single token.
proof fn lemma_kinds_one(toks: Seq<TokenView>, at: int)
    ensures
        kinds(toks, at, at + 1) == seq![toks[at].kind],
{
}

/// Every chunk that comes out of the compiler is the postfix code of a well
/// nested expression, closed by a `return`; the tokens of the source are
/// the spelling of that expression, followed by the end of input; and the
/// chunk has one constant for each literal.
pub proof fn lemma_compiled_is_postfix(toks: Seq<TokenView>, numbers: Seq<u64>) -> (e: Expr)
    requires
        well_ended(toks),
    ensures
        compiled(toks, numbers) matches Ok(chunk) ==> {
            &&& e.shaped()
            &&& kinds(toks, 0, toks.len() as int) == e.spelling() + seq![TokenType::Eof]
            &&& chunk.code == e.code(0) + seq![encoding(OpCode::Return)]
            &&& chunk.constants.len() == e.literals()
        },
{
    match (Parse { scanned: 0, chunk: ChunkView::empty() }).advance(toks) {
        Err(_) => Expr::Literal,
        Ok(first) => {
            let e = lemma_parse_is_tree(first, toks, numbers, Precedence::Assignment);
            match first.parse_precedence(toks, numbers, Precedence::Assignment) {
                Err(_) => e,
                Ok(parsed) => {
                    if parsed.current(toks).kind == TokenType::Eof {
                        assert(parsed.scanned == toks.len());
                        lemma_kinds_split(toks, 0, toks.len() - 1, toks.len() as int);
                        lemma_kinds_one(toks, toks.len() - 1);
                    }
                    e
                },
            }
        },
    }
}

impl Expr {
    /// Where the compiler stands, and what it has emitted, once it has
    /// compiled this expression from `p` on: `p` is where the expression's
    /// first token is the lookahead.
    pub open spec fn emitted(self, toks: Seq<TokenView>, numbers: Seq<u64>, p: Parse) -> Parse
        decreases self,
    {
        let taken = Parse { scanned: p.scanned + 1, ..p };
        match self {
            Expr::Literal => Parse {
                chunk: taken.chunk.write_constant(
                    Value::Number(numbers[taken.chunk.constants.len() as int]),
                    taken.previous(toks).line as usize,
                ),
                ..taken
            },
            Expr::Group(inner) => {
                let done = inner.emitted(toks, numbers, taken);
                Parse { scanned: done.scanned + 1, ..done }
            },
            Expr::Unary(operator, operand) => operand.emitted(toks, numbers, taken).emit(
                toks,
                prefix_opcode(operator),
            ),
            Expr::Binary(left, operator, right) => {
                let half = left.emitted(toks, numbers, p);
                right.emitted(toks, numbers, Parse { scanned: half.scanned + 1, ..half }).emit(
                    toks,
                    infix_opcode(operator),
                )
            },
        }
    }
}

/// The tokens from offset `at` on spell `e`, and a token that is no error
/// token and that binds no tighter than `e` follows them.
pub open spec fn spelled_at(e: Expr, toks: Seq<TokenView>, at: int) -> bool {
    let end = at + e.spelling().len();
    &&& 0 <= at
    &&& end < toks.len()
    &&& kinds(toks, at, end) == e.spelling()
    &&& toks[end].kind != TokenType::Error
    &&& rule(toks[end].kind).precedence.rank() <= e.binds()
}

/// The spelling of a well nested expression has no error token and no end
/// of input in it, and it is not empty; and the expression binds at least
/// as tightly as a term.
proof fn lemma_spelling_kinds(e: Expr)
    requires
        e.shaped(),
    ensures
        e.spelling().len() >= 1,
        e.binds() >= Precedence::Term.rank(),
        forall|i: int|
            0 <= i < e.spelling().len() ==> (#[trigger] e.spelling()[i]) != TokenType::Error
                && e.spelling()[i] != TokenType::Eof,
    decreases e,
{
    match e {
        Expr::Literal => {},
        Expr::Group(inner) => {
            lemma_spelling_kinds(*inner);
        },
        Expr::Unary(_, operand) => {
            lemma_spelling_kinds(*operand);
        },
        Expr::Binary(left, _, right) => {
            lemma_spelling_kinds(*left);
            lemma_spelling_kinds(*right);
        },
    }
}

/// What `emitted` adds: the tokens of the expression to the count, its code
/// to the code, and one constant for each of its literals.
pub proof fn lemma_emitted_code(e: Expr, toks: Seq<TokenView>, numbers: Seq<u64>, p: Parse)
    ensures
        e.emitted(toks, numbers, p).scanned == p.scanned + e.spelling().len(),
        e.emitted(toks, numbers, p).chunk.code == p.chunk.code + e.code(
            p.chunk.constants.len(),
        ),
        e.emitted(toks, numbers, p).chunk.constants.len() == p.chunk.constants.len()
            + e.literals(),
    decreases e,
{
    let taken = Parse { scanned: p.scanned + 1, ..p };
    match e {
        Expr::Literal => {
            assert(e.emitted(toks, numbers, p).chunk.code == p.chunk.code + e.code(
                p.chunk.constants.len(),
            ));
        },
        Expr::Group(inner) => {
            lemma_emitted_code(*inner, toks, numbers, taken);
        },
        Expr::Unary(operator, operand) => {
            lemma_emitted_code(*operand, toks, numbers, taken);
            assert(e.emitted(toks, numbers, p).chunk.code == p.chunk.code + e.code(
                p.chunk.constants.len(),
            ));
        },
        Expr::Binary(left, operator, right) => {
            lemma_emitted_code(*left, toks, numbers, p);
            let half = left.emitted(toks, numbers, p);
            lemma_emitted_code(*right, toks, numbers, Parse { scanned: half.scanned + 1, ..half });
            assert(e.emitted(toks, numbers, p).chunk.code == p.chunk.code + e.code(
                p.chunk.constants.len(),
            ));
        },
    }
}

/// Tokens that spell two pieces one after the other spell each of them.
proof fn lemma_kinds_parts(
    toks: Seq<TokenView>,
    at: int,
    front: Seq<TokenType>,
    back: Seq<TokenType>,
)
    requires
        kinds(toks, at, at + (front + back).len()) == front + back,
    ensures
        kinds(toks, at, at + front.len()) == front,
        kinds(toks, at + front.len(), at + front.len() + back.len()) == back,
{
    let all = kinds(toks, at, at + (front + back).len());
    assert forall|i: int| 0 <= i < front.len() implies kinds(toks, at, at + front.len())[i]
        == front[i] by {
        assert(all[i] == (front + back)[i]);
    }
    assert forall|i: int| 0 <= i < back.len() implies kinds(
        toks,
        at + front.len(),
        at + front.len() + back.len(),
    )[i] == back[i] by {
        assert(all[front.len() + i] == (front + back)[front.len() + i]);
    }
}

/// The compiler accepts every well nested expression: where the tokens
/// ahead spell one, and its literals have values and room in the pool,
/// `parse_precedence` compiles exactly that expression as an operand and
/// goes on with the operators behind it.
pub proof fn lemma_tree_parses(
    e: Expr,
    p: Parse,
    toks: Seq<TokenView>,
    numbers: Seq<u64>,
    min: Precedence,
)
    requires
        well_ended(toks),
        p.scanned >= 1,
        e.shaped(),
        spelled_at(e, toks, p.scanned - 1),
        1 <= min.rank() <= e.binds(),
        p.chunk.constants.len() + e.literals() <= numbers.len(),
        p.chunk.constants.len() + e.literals() <= 256,
    ensures
        p.parse_precedence(toks, numbers, min) == e.emitted(toks, numbers, p).infix_loop(
            toks,
            numbers,
            min,
        ),
    decreases e, 1nat,
{
    match e {
        Expr::Literal => {
            lemma_literal_parses(e, p, toks, numbers, min);
        },
        Expr::Group(_) => {
            lemma_group_parses(e, p, toks, numbers, min);
        },
        Expr::Unary(_, _) => {
            lemma_unary_parses(e, p, toks, numbers, min);
        },
        Expr::Binary(_, _, _) => {
            lemma_binary_parses(e, p, toks, numbers, min);
        },
    }
}

/// `lemma_tree_parses` for a literal.
#[verifier::spinoff_prover]
proof fn lemma_literal_parses(
    e: Expr,
    p: Parse,
    toks: Seq<TokenView>,
    numbers: Seq<u64>,
    min: Precedence,
)
    requires
        well_ended(toks),
        p.scanned >= 1,
        e.shaped(),
        spelled_at(e, toks, p.scanned - 1),
        1 <= min.rank() <= e.binds(),
        p.chunk.constants.len() + e.literals() <= numbers.len(),
        p.chunk.constants.len() + e.literals() <= 256,
        e is Literal,
    ensures
        p.parse_precedence(toks, numbers, min) == e.emitted(toks, numbers, p).infix_loop(
            toks,
            numbers,
            min,
        ),
{
    let at = p.scanned - 1;
    let taken = Parse { scanned: p.scanned + 1, ..p };
    lemma_spelling_kinds(e);
    lemma_emitted_code(e, toks, numbers, p);
    let spelling = e.spelling();
    assert(kinds(toks, at, at + spelling.len())[0] == spelling[0]);
    assert(toks[at].kind == spelling[0]);
    assert(p.advance(toks) == Ok::<Parse, Failure>(taken)) by {
        if spelling.len() > 1 {
            assert(kinds(toks, at, at + spelling.len())[1] == spelling[1]);
        }
    }
}

/// `lemma_tree_parses` for an expression in parentheses.
#[verifier::spinoff_prover]
proof fn lemma_group_parses(
    e: Expr,
    p: Parse,
    toks: Seq<TokenView>,
    numbers: Seq<u64>,
    min: Precedence,
)
    requires
        well_ended(toks),
        p.scanned >= 1,
        e.shaped(),
        spelled_at(e, toks, p.scanned - 1),
        1 <= min.rank() <= e.binds(),
        p.chunk.constants.len() + e.literals() <= numbers.len(),
        p.chunk.constants.len() + e.literals() <= 256,
        e is Group,
    ensures
        p.parse_precedence(toks, numbers, min) == e.emitted(toks, numbers, p).infix_loop(
            toks,
            numbers,
            min,
        ),
    decreases e, 0nat,
{
    let at = p.scanned - 1;
    let taken = Parse { scanned: p.scanned + 1, ..p };
    lemma_spelling_kinds(e);
    lemma_emitted_code(e, toks, numbers, p);
    let spelling = e.spelling();
    assert(kinds(toks, at, at + spelling.len())[0] == spelling[0]);
    assert(toks[at].kind == spelling[0]);
    assert(p.advance(toks) == Ok::<Parse, Failure>(taken)) by {
        if spelling.len() > 1 {
            assert(kinds(toks, at, at + spelling.len())[1] == spelling[1]);
        }
    }
    let inner = e->Group_0;
    let open = seq![TokenType::LeftParen];
    let close = seq![TokenType::RightParen];
    lemma_kinds_parts(toks, at, open + inner.spelling(), close);
    lemma_kinds_parts(toks, at, open, inner.spelling());
    lemma_spelling_kinds(*inner);
    lemma_emitted_code(*inner, toks, numbers, taken);
    let done = inner.emitted(toks, numbers, taken);
    let end = at + 1 + inner.spelling().len();
    assert(kinds(toks, end, end + 1)[0] == close[0]);
    assert(toks[end].kind == TokenType::RightParen);
    lemma_tree_parses(*inner, taken, toks, numbers, Precedence::Assignment);
    assert(done.infix_loop(toks, numbers, Precedence::Assignment) == Ok::<Parse, Failure>(done));
}

/// `lemma_tree_parses` for a prefix operator and its operand.
#[verifier::spinoff_prover]
proof fn lemma_unary_parses(
    e: Expr,
    p: Parse,
    toks: Seq<TokenView>,
    numbers: Seq<u64>,
    min: Precedence,
)
    requires
        well_ended(toks),
        p.scanned >= 1,
        e.shaped(),
        spelled_at(e, toks, p.scanned - 1),
        1 <= min.rank() <= e.binds(),
        p.chunk.constants.len() + e.literals() <= numbers.len(),
        p.chunk.constants.len() + e.literals() <= 256,
        e is Unary,
    ensures
        p.parse_precedence(toks, numbers, min) == e.emitted(toks, numbers, p).infix_loop(
            toks,
            numbers,
            min,
        ),
    decreases e, 0nat,
{
    let at = p.scanned - 1;
    let taken = Parse { scanned: p.scanned + 1, ..p };
    lemma_spelling_kinds(e);
    lemma_emitted_code(e, toks, numbers, p);
    let spelling = e.spelling();
    assert(kinds(toks, at, at + spelling.len())[0] == spelling[0]);
    assert(toks[at].kind == spelling[0]);
    assert(p.advance(toks) == Ok::<Parse, Failure>(taken)) by {
        if spelling.len() > 1 {
            assert(kinds(toks, at, at + spelling.len())[1] == spelling[1]);
        }
    }
    let operator = e->Unary_0;
    let operand = e->Unary_1;
    lemma_kinds_parts(toks, at, seq![operator], operand.spelling());
    lemma_spelling_kinds(*operand);
    lemma_emitted_code(*operand, toks, numbers, taken);
    let done = operand.emitted(toks, numbers, taken);
    lemma_precedence_bound(toks[at + spelling.len()].kind);
    lemma_tree_parses(*operand, taken, toks, numbers, Precedence::Unary);
    assert(done.infix_loop(toks, numbers, Precedence::Unary) == Ok::<Parse, Failure>(done));
}

/// `lemma_tree_parses` for an infix operator between its operands.
#[verifier::spinoff_prover]
proof fn lemma_binary_parses(
    e: Expr,
    p: Parse,
    toks: Seq<TokenView>,
    numbers: Seq<u64>,
    min: Precedence,
)
    requires
        well_ended(toks),
        p.scanned >= 1,
        e.shaped(),
        spelled_at(e, toks, p.scanned - 1),
        1 <= min.rank() <= e.binds(),
        p.chunk.constants.len() + e.literals() <= numbers.len(),
        p.chunk.constants.len() + e.literals() <= 256,
        e is Binary,
    ensures
        p.parse_precedence(toks, numbers, min) == e.emitted(toks, numbers, p).infix_loop(
            toks,
            numbers,
            min,
        ),
    decreases e, 0nat,
{
    let at = p.scanned - 1;
    let left = e->Binary_0;
    let operator = e->Binary_1;
    let right = e->Binary_2;
    lemma_spelling_kinds(e);
    lemma_emitted_code(e, toks, numbers, p);
    lemma_kinds_parts(toks, at, left.spelling() + seq![operator], right.spelling());
    lemma_kinds_parts(toks, at, left.spelling(), seq![operator]);
    lemma_spelling_kinds(*left);
    lemma_spelling_kinds(*right);
    lemma_emitted_code(*left, toks, numbers, p);
    let half = left.emitted(toks, numbers, p);
    let middle = at + left.spelling().len();
    assert(kinds(toks, middle, middle + 1)[0] == seq![operator][0]);
    assert(toks[middle].kind == operator);
    lemma_tree_parses(*left, p, toks, numbers, min);
    let beyond = Parse { scanned: half.scanned + 1, ..half };
    lemma_emitted_code(*right, toks, numbers, beyond);
    let whole = right.emitted(toks, numbers, beyond);
    let tighter = rule(operator).precedence.tighter();
    lemma_precedence_bound(operator);
    lemma_tree_parses(*right, beyond, toks, numbers, tighter);
    assert(kinds(toks, middle + 1, middle + 1 + right.spelling().len())[0]
        == right.spelling()[0]);
    assert(half.advance(toks) == Ok::<Parse, Failure>(beyond));
    assert(whole.infix_loop(toks, numbers, tighter) == Ok::<Parse, Failure>(whole));
    assert(half.infix_loop(toks, numbers, min) == e.emitted(toks, numbers, p).infix_loop(
        toks,
        numbers,
        min,
    ));
}

/// A source that spells a well nested expression compiles, whenever its
/// literals have values and are few enough for one chunk; and what comes
/// out is the postfix code of that very expression, closed by a `return`.
pub proof fn lemma_expression_compiles(e: Expr, toks: Seq<TokenView>, numbers: Seq<u64>)
    requires
        well_ended(toks),
        e.shaped(),
        kinds(toks, 0, toks.len() - 1) == e.spelling(),
        e.literals() <= numbers.len(),
        e.literals() <= 256,
    ensures
        compiled(toks, numbers) matches Ok(chunk) && chunk.code == e.code(0) + seq![
            encoding(OpCode::Return),
        ] && chunk.constants.len() == e.literals(),
{
    let start = Parse { scanned: 0, chunk: ChunkView::empty() };
    let first = Parse { scanned: 1, chunk: ChunkView::empty() };
    lemma_spelling_kinds(e);
    assert(kinds(toks, 0, toks.len() - 1).len() == toks.len() - 1);
    assert(kinds(toks, 0, toks.len() - 1)[0] == e.spelling()[0]);
    assert(toks[0].kind == e.spelling()[0]);
    assert(token(toks, 1) == toks[0]);
    assert(start.advance(toks) == Ok::<Parse, Failure>(first));
    lemma_tree_parses(e, first, toks, numbers, Precedence::Assignment);
    lemma_emitted_code(e, toks, numbers, first);
    let done = e.emitted(toks, numbers, first);
    assert(done.infix_loop(toks, numbers, Precedence::Assignment) == Ok::<Parse, Failure>(done));
    assert(e.code(0) + seq![encoding(OpCode::Return)] == (Seq::<u8>::empty() + e.code(0)).push(
        encoding(OpCode::Return),
    ));
}

/// The tokens before the end of input spell the well nested expression
/// `e`, and `e` has no more literals than there are values for them and
/// than one chunk can address.
pub open spec fn spells(e: Expr, toks: Seq<TokenView>, numbers: Seq<u64>) -> bool {
    &&& e.shaped()
    &&& kinds(toks, 0, toks.len() - 1) == e.spelling()
    &&& e.literals() <= numbers.len()
    &&& e.literals() <= 256
}

/// The sources that compile are exactly those that spell a well nested
/// expression whose literals have values and fit into one chunk.
pub proof fn lemma_compiles_exactly_expressions(toks: Seq<TokenView>, numbers: Seq<u64>)
    requires
        well_ended(toks),
    ensures
        compiled(toks, numbers) is Ok <==> exists|e: Expr| spells(e, toks, numbers),
{
    if compiled(toks, numbers) is Ok {
        let e = lemma_compiled_is_postfix(toks, numbers);
        lemma_compiled_is_orderly(toks, numbers);
        let all = kinds(toks, 0, toks.len() as int);
        assert(kinds(toks, 0, toks.len() - 1) == e.spelling()) by {
            assert(all.len() == e.spelling().len() + 1);
            assert forall|i: int| 0 <= i < toks.len() - 1 implies kinds(
                toks,
                0,
                toks.len() - 1,
            )[i] == e.spelling()[i] by {
                assert(all[i] == (e.spelling() + seq![TokenType::Eof])[i]);
            }
        }
        assert(spells(e, toks, numbers));
    }
    if exists|e: Expr| spells(e, toks, numbers) {
        let e = choose|e: Expr| spells(e, toks, numbers);
        lemma_expression_compiles(e, toks, numbers);
    }
}

/// The arithmetic operation that an opcode asks the caller for.
pub open spec fn operation(op: OpCode) -> Arithmetic {
    match op {
        OpCode::Add => Arithmetic::Add,
        OpCode::Subtract => Arithmetic::Subtract,
        OpCode::Multiply => Arithmetic::Multiply,
        _ => Arithmetic::Divide,
    }
}

impl Expr {
    /// The value of the expression, as the encoding of a number, or the
    /// fault that evaluating it raises. Its literals are `numbers[first]` and
    /// those that follow, operands are evaluated left before right,
    /// arithmetic is done by `arith`, and a division by a zero faults.
    pub open spec fn value(
        self,
        numbers: Seq<u64>,
        first: nat,
        arith: spec_fn(Arithmetic, u64, u64) -> u64,
    ) -> Result<u64, RuntimeFault>
        decreases self,
    {
        match self {
            Expr::Literal => Ok(numbers[first as int]),
            Expr::Group(inner) => inner.value(numbers, first, arith),
            Expr::Unary(_, operand) => match operand.value(numbers, first, arith) {
                Ok(bits) => Ok(number::negated(bits)),
                Err(fault) => Err(fault),
            },
            Expr::Binary(left, operator, right) => match left.value(numbers, first, arith) {
                Err(fault) => Err(fault),
                Ok(lhs) => match right.value(numbers, first + left.literals(), arith) {
                    Err(fault) => Err(fault),
                    Ok(rhs) => if infix_opcode(operator) == OpCode::Divide && number::zero(rhs) {
                        Err(RuntimeFault::DivisionByZero)
                    } else {
                        Ok(arith(operation(infix_opcode(operator)), lhs, rhs))
                    },
                },
            },
        }
    }

    /// The number of stack slots that evaluating the expression takes.
    pub open spec fn depth(self) -> nat
        decreases self,
    {
        match self {
            Expr::Literal => 1,
            Expr::Group(inner) => inner.depth(),
            Expr::Unary(_, operand) => operand.depth(),
            Expr::Binary(left, _, right) => if left.depth() >= right.depth() + 1 {
                left.depth()
            } else {
                right.depth() + 1
            },
        }
    }
}

/// `piece` stands in `code` at offset `at`.
pub open spec fn holds(code: Seq<u8>, at: int, piece: Seq<u8>) -> bool {
    &&& 0 <= at
    &&& at + piece.len() <= code.len()
    &&& forall|i: int| 0 <= i < piece.len() ==> code[at + i] == #[trigger] piece[i]
}

/// The machine after it has computed `bits` from the `size` bytes of code
/// before it.
pub open spec fn computed(m: Machine, size: nat, bits: u64) -> Machine {
    Machine { ip: m.ip + size, stack: m.stack.push(Value::Number(bits)), ..m }
}

/// The code of a well nested expression computes the expression's value:
/// wherever it stands in a chunk whose constants are the numbers it refers
/// to, a machine with room on its stack that runs into it either comes out
/// behind it with the value on top of the stack, or faults as the
/// evaluation does.
#[verifier::spinoff_prover]
pub proof fn lemma_code_computes(
    e: Expr,
    m: Machine,
    numbers: Seq<u64>,
    first: nat,
    arith: spec_fn(Arithmetic, u64, u64) -> u64,
)
    requires
        e.shaped(),
        holds(m.code, m.ip as int, e.code(first)),
        first + e.literals() <= m.constants.len(),
        first + e.literals() <= numbers.len(),
        first + e.literals() <= 256,
        forall|i: int|
            first <= i < first + e.literals() ==> #[trigger] m.constants[i] == Value::Number(
                numbers[i],
            ),
        m.stack.len() + e.depth() <= STACK_MAX,
    ensures
        match e.value(numbers, first, arith) {
            Ok(bits) => m.run_with(arith) == computed(m, e.code(first).len(), bits).run_with(
                arith,
            ),
            Err(fault) => m.run_with(arith) == Outcome::Faulted(fault),
        },
    decreases e,
{
    match e {
        Expr::Literal => {
            lemma_encoding_round_trip(OpCode::Constant, 0);
            let piece = e.code(first);
            assert(m.code[m.ip as int] == piece[0]);
            assert(m.code[(m.ip + 1) as int] == piece[1]);
            assert(m.constants[first as int] == Value::Number(numbers[first as int]));
        },
        Expr::Group(inner) => {
            lemma_code_computes(*inner, m, numbers, first, arith);
        },
        Expr::Unary(operator, operand) => {
            let inner = operand.code(first);
            let op = prefix_opcode(operator);
            lemma_holds_split(m.code, m.ip as int, inner, seq![encoding(op)]);
            lemma_code_computes(*operand, m, numbers, first, arith);
            if let Ok(bits) = operand.value(numbers, first, arith) {
                let after = computed(m, inner.len(), bits);
                lemma_encoding_round_trip(op, 0);
                lemma_depth_positive(*operand);
                assert(op == OpCode::Negate);
                assert(after.code[after.ip as int] == seq![encoding(op)][0]);
                assert(after.peek(0) == Value::Number(bits));
                assert(after.drop(1).stack == m.stack);
                assert(e.code(first).len() == inner.len() + 1);
                assert(after.step_with(arith) == Transition::Next(
                    computed(m, e.code(first).len(), number::negated(bits)),
                ));
            }
        },
        Expr::Binary(left, operator, right) => {
            let op = infix_opcode(operator);
            let left_code = left.code(first);
            let right_code = right.code(first + left.literals());
            lemma_holds_split(m.code, m.ip as int, left_code + right_code, seq![encoding(op)]);
            lemma_holds_split(m.code, m.ip as int, left_code, right_code);
            lemma_code_computes(*left, m, numbers, first, arith);
            if let Ok(lhs) = left.value(numbers, first, arith) {
                let middle = computed(m, left_code.len(), lhs);
                lemma_code_computes(*right, middle, numbers, first + left.literals(), arith);
                if let Ok(rhs) = right.value(numbers, first + left.literals(), arith) {
                    let after = computed(middle, right_code.len(), rhs);
                    lemma_encoding_round_trip(op, 0);
                    assert(after.code[after.ip as int] == seq![encoding(op)][0]);
                    assert(after.peek(0) == Value::Number(rhs));
                    assert(after.peek(1) == Value::Number(lhs));
                    assert(after.drop(2).stack == m.stack);
                    if !(op == OpCode::Divide && number::zero(rhs)) {
                        assert(after.step_with(arith) == Transition::Next(
                            computed(m, e.code(first).len(), arith(operation(op), lhs, rhs)),
                        ));
                    }
                }
            }
        },
    }
}

/// Every expression takes at least one stack slot.
proof fn lemma_depth_positive(e: Expr)
    ensures
        e.depth() >= 1,
    decreases e,
{
    match e {
        Expr::Literal => {},
        Expr::Group(inner) => {
            lemma_depth_positive(*inner);
        },
        Expr::Unary(_, operand) => {
            lemma_depth_positive(*operand);
        },
        Expr::Binary(_, _, _) => {},
    }
}

/// A piece of code that stands in a chunk has each of its two parts
/// standing there, one behind the other.
proof fn lemma_holds_split(code: Seq<u8>, at: int, front: Seq<u8>, back: Seq<u8>)
    requires
        holds(code, at, front + back),
    ensures
        holds(code, at, front),
        holds(code, at + front.len(), back),
{
    let piece = front + back;
    assert forall|i: int| 0 <= i < front.len() implies code[at + i] == #[trigger] front[i] by {
        assert(piece[i] == front[i]);
    }
    assert forall|i: int| 0 <= i < back.len() implies code[at + front.len() + i]
        == #[trigger] back[i] by {
        assert(piece[front.len() + i] == back[i]);
    }
}

/// What evaluating an expression comes to as the outcome of a run.
pub open spec fn outcome_of(value: Result<u64, RuntimeFault>) -> Outcome {
    match value {
        Ok(bits) => Outcome::Completed(Value::Number(bits)),
        Err(fault) => Outcome::Faulted(fault),
    }
}

/// A chunk that holds the code of an expression, a `return` behind it, and
/// the values of its literals as its constants, computes the value of the
/// expression, if the stack has room for it.
pub proof fn lemma_chunk_computes(
    e: Expr,
    chunk: ChunkView,
    numbers: Seq<u64>,
    arith: spec_fn(Arithmetic, u64, u64) -> u64,
)
    requires
        e.shaped(),
        chunk.code == e.code(0) + seq![encoding(OpCode::Return)],
        chunk.constants.len() == e.literals(),
        orderly(chunk, numbers),
        e.depth() <= STACK_MAX,
    ensures
        Machine::start(chunk).run_with(arith) == outcome_of(e.value(numbers, 0, arith)),
{
    let m = Machine::start(chunk);
    let body = e.code(0);
    assert(holds(m.code, 0, body)) by {
        assert forall|i: int| 0 <= i < body.len() implies m.code[0 + i] == #[trigger] body[i] by {
            assert((body + seq![encoding(OpCode::Return)])[i] == body[i]);
        }
    }
    lemma_code_computes(e, m, numbers, 0, arith);
    if let Ok(bits) = e.value(numbers, 0, arith) {
        let after = computed(m, body.len(), bits);
        lemma_encoding_round_trip(OpCode::Return, 0);
        assert(after.code[after.ip as int] == encoding(OpCode::Return));
        assert(after.peek(0) == Value::Number(bits));
    }
}

/// Whatever compiles is an expression, and running it computes that
/// expression's value: for every chunk that comes out of the compiler there
/// is a well nested expression that the tokens of the source spell and
/// whose value a machine that runs the chunk, and whose caller does the
/// arithmetic by `arith`, completes with, or whose fault it faults with.
/// This holds of every expression that the stack has room for.
pub proof fn lemma_compiled_computes(
    toks: Seq<TokenView>,
    numbers: Seq<u64>,
    arith: spec_fn(Arithmetic, u64, u64) -> u64,
) -> (e: Expr)
    requires
        well_ended(toks),
    ensures
        compiled(toks, numbers) matches Ok(chunk) ==> {
            &&& e.shaped()
            &&& kinds(toks, 0, toks.len() as int) == e.spelling() + seq![TokenType::Eof]
            &&& e.depth() <= STACK_MAX ==> Machine::start(chunk).run_with(arith) == outcome_of(
                e.value(numbers, 0, arith),
            )
        },
{
    let e = lemma_compiled_is_postfix(toks, numbers);
    lemma_compiled_is_orderly(toks, numbers);
    if let Ok(chunk) = compiled(toks, numbers) {
        if e.depth() <= STACK_MAX {
            lemma_chunk_computes(e, chunk, numbers, arith);
        }
    }
    e
}

/// Compiling and running a source yields the value of the expression that
/// the source spells, with multiplication and division nested inside
/// addition and subtraction, operators of one precedence nested to the
/// left, and parentheses overriding both. For every well nested expression
/// `e`: a source whose tokens spell `e` compiles, given the values of its
/// literals and room for them in one chunk; and a machine that runs the
/// chunk, and whose caller does the arithmetic by `arith`, completes with
/// the value of `e`, or faults as its evaluation does, if the stack has
/// room for `e`.
pub proof fn lemma_source_evaluates(
    e: Expr,
    toks: Seq<TokenView>,
    numbers: Seq<u64>,
    arith: spec_fn(Arithmetic, u64, u64) -> u64,
)
    requires
        well_ended(toks),
        e.shaped(),
        kinds(toks, 0, toks.len() - 1) == e.spelling(),
        e.literals() <= numbers.len(),
        e.literals() <= 256,
        e.depth() <= STACK_MAX,
    ensures
        compiled(toks, numbers) matches Ok(chunk) && Machine::start(chunk).run_with(arith)
            == outcome_of(e.value(numbers, 0, arith)),
{
    lemma_expression_compiles(e, toks, numbers);
    lemma_compiled_is_orderly(toks, numbers);
    lemma_chunk_computes(e, compiled(toks, numbers)->Ok_0, numbers, arith);
}

} // verus!

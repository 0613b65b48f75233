//! The single-pass compiler: a Pratt parser that emits bytecode as it reads.
//!
//! There is no syntax tree. Each parsing function reads tokens and appends to
//! the chunk; what it does is stated by a function of the same name on
//! [`ParserView`], the parser's state as plain values.
//!
//! A number literal is compiled to a constant whose binary64 pattern is taken
//! from a table that the caller supplies: one pattern for each number literal
//! of the source, in source order.
use crate::chunk::{Chunk, ChunkView, MAX_CONSTANTS};
use crate::common::{
    OP_ADD, OP_CONSTANT, OP_DEFINE_GLOBAL, OP_DIVIDE, OP_EQUAL, OP_FALSE, OP_GET_GLOBAL,
    OP_GREATER, OP_LESS, OP_MULTIPLY, OP_NEGATE, OP_NIL, OP_NOT, OP_POP, OP_PRINT, OP_SET_GLOBAL,
    OP_SUBTRACT, OP_TRUE,
};
use crate::scanner::{lemma_scan, scan, Scanner, Token, TokenType, TokenView};
use crate::valid_code::{grows, lemma_compiled, valid_code};
use crate::value::{Value, ValueView};
use vstd::prelude::*;
use vstd::string::StringSliceAdditionalSpecFns;

verus! {

/// Why compilation stopped.
#[derive(Debug)]
pub enum CompileErrorPayload {
    /// The scanner met text that is no token.
    ScannerError,
    /// The tokens do not form a statement.
    ParserError,
    /// Another token was required where this kind stood.
    UnexpectedToken(TokenType),
    /// The constant pool already holds 256 values.
    TooManyConstants,
}

/// The first error that compilation met.
#[derive(Debug)]
pub struct CompileError {
    pub line_no: u64,
    pub payload: CompileErrorPayload,
    pub message: Option<String>,
}

/// A compile error as plain values.
pub struct CompileErrorView {
    pub line_no: u64,
    pub payload: CompileErrorPayload,
    pub message: Option<Seq<char>>,
}

impl View for CompileError {
    type V = CompileErrorView;

    open spec fn view(&self) -> CompileErrorView {
        CompileErrorView {
            line_no: self.line_no,
            payload: self.payload,
            message: match self.message {
                Some(m) => Some(m@),
                None => None,
            },
        }
    }
}

/// Binding strength, from loosest to tightest.
#[derive(Debug, Copy, Clone, PartialEq, Eq, Structural)]
pub enum Precedence {
    PREC_NONE,
    PREC_ASSIGNMENT,  // =
    PREC_OR,  // or
    PREC_AND,  // and
    PREC_EQUALITY,  // == !=
    PREC_COMPARISON,  // < > <= >=
    PREC_TERM,  // + -
    PREC_FACTOR,  // * /
    PREC_UNARY,  // ! -
    PREC_CALL,  // . () []
    PREC_PRIMARY,
}

impl Precedence {
    /// The place of a level on the ladder, 0 for the loosest.
    pub open spec fn rank(self) -> int {
        match self {
            Precedence::PREC_NONE => 0,
            Precedence::PREC_ASSIGNMENT => 1,
            Precedence::PREC_OR => 2,
            Precedence::PREC_AND => 3,
            Precedence::PREC_EQUALITY => 4,
            Precedence::PREC_COMPARISON => 5,
            Precedence::PREC_TERM => 6,
            Precedence::PREC_FACTOR => 7,
            Precedence::PREC_UNARY => 8,
            Precedence::PREC_CALL => 9,
            Precedence::PREC_PRIMARY => 10,
        }
    }

    /// The place of a level on the ladder.
    pub fn level(self) -> (r: u8)
        ensures
            r == self.rank(),
    {
        match self {
            Precedence::PREC_NONE => 0,
            Precedence::PREC_ASSIGNMENT => 1,
            Precedence::PREC_OR => 2,
            Precedence::PREC_AND => 3,
            Precedence::PREC_EQUALITY => 4,
            Precedence::PREC_COMPARISON => 5,
            Precedence::PREC_TERM => 6,
            Precedence::PREC_FACTOR => 7,
            Precedence::PREC_UNARY => 8,
            Precedence::PREC_CALL => 9,
            Precedence::PREC_PRIMARY => 10,
        }
    }

    /// The next level up; the tightest level is its own next.
    pub fn higher(self) -> (r: Self)
        ensures
            r.rank() == (if self.rank() < 10 {
                self.rank() + 1
            } else {
                10
            }),
    {
        match self {
            Precedence::PREC_NONE => Precedence::PREC_ASSIGNMENT,
            Precedence::PREC_ASSIGNMENT => Precedence::PREC_OR,
            Precedence::PREC_OR => Precedence::PREC_AND,
            Precedence::PREC_AND => Precedence::PREC_EQUALITY,
            Precedence::PREC_EQUALITY => Precedence::PREC_COMPARISON,
            Precedence::PREC_COMPARISON => Precedence::PREC_TERM,
            Precedence::PREC_TERM => Precedence::PREC_FACTOR,
            Precedence::PREC_FACTOR => Precedence::PREC_UNARY,
            Precedence::PREC_UNARY => Precedence::PREC_CALL,
            Precedence::PREC_CALL => Precedence::PREC_PRIMARY,
            Precedence::PREC_PRIMARY => self,
        }
    }
}

/// What a token can start: the handlers for a token at the head of an
/// expression.
#[derive(Debug, Copy, Clone, PartialEq, Eq, Structural)]
pub enum PrefixRule {
    Grouping,
    Unary,
    Variable,
    String,
    Number,
    Literal,
}

/// What a token can continue: the handlers for a token after an operand.
#[derive(Debug, Copy, Clone, PartialEq, Eq, Structural)]
pub enum InfixRule {
    Binary,
}

/// The row of the rule table for one token kind.
#[derive(Debug, Copy, Clone)]
pub struct ParseRule {
    pub prefix: Option<PrefixRule>,
    pub infix: Option<InfixRule>,
    pub precedence: Precedence,
}

/// The prefix handler of a token kind.
pub open spec fn prefix_of(ty: TokenType) -> Option<PrefixRule> {
    match ty {
        TokenType::TOKEN_LEFT_PAREN => Some(PrefixRule::Grouping),
        TokenType::TOKEN_MINUS | TokenType::TOKEN_BANG => Some(PrefixRule::Unary),
        TokenType::TOKEN_IDENTIFIER => Some(PrefixRule::Variable),
        TokenType::TOKEN_STRING => Some(PrefixRule::String),
        TokenType::TOKEN_NUMBER => Some(PrefixRule::Number),
        TokenType::TOKEN_FALSE | TokenType::TOKEN_TRUE | TokenType::TOKEN_NIL => Some(
            PrefixRule::Literal,
        ),
        _ => None,
    }
}

/// The infix handler of a token kind.
pub open spec fn infix_of(ty: TokenType) -> Option<InfixRule> {
    match ty {
        TokenType::TOKEN_MINUS
        | TokenType::TOKEN_PLUS
        | TokenType::TOKEN_SLASH
        | TokenType::TOKEN_STAR
        | TokenType::TOKEN_BANG_EQUAL
        | TokenType::TOKEN_EQUAL_EQUAL
        | TokenType::TOKEN_GREATER
        | TokenType::TOKEN_GREATER_EQUAL
        | TokenType::TOKEN_LESS
        | TokenType::TOKEN_LESS_EQUAL => Some(InfixRule::Binary),
        _ => None,
    }
}

/// How tightly a token kind binds as an infix operator.
pub open spec fn precedence_of(ty: TokenType) -> Precedence {
    match ty {
        TokenType::TOKEN_LEFT_PAREN => Precedence::PREC_CALL,
        TokenType::TOKEN_MINUS | TokenType::TOKEN_PLUS => Precedence::PREC_TERM,
        TokenType::TOKEN_SLASH | TokenType::TOKEN_STAR => Precedence::PREC_FACTOR,
        TokenType::TOKEN_BANG_EQUAL | TokenType::TOKEN_EQUAL_EQUAL => Precedence::PREC_EQUALITY,
        TokenType::TOKEN_GREATER
        | TokenType::TOKEN_GREATER_EQUAL
        | TokenType::TOKEN_LESS
        | TokenType::TOKEN_LESS_EQUAL => Precedence::PREC_COMPARISON,
        TokenType::TOKEN_AND => Precedence::PREC_AND,
        TokenType::TOKEN_OR => Precedence::PREC_OR,
        _ => Precedence::PREC_NONE,
    }
}

/// The state of the parser as plain values: the source and how far the
/// scanner has read it, the two tokens in hand, the chunk written so far, and
/// the table of number patterns with the count of those already used.
pub struct ParserView {
    pub source: Seq<u8>,
    pub pos: int,
    pub line: int,
    pub previous: TokenView,
    pub current: TokenView,
    pub chunk: ChunkView,
    pub numbers: Seq<u64>,
    pub used: int,
}

/// The outcome of a parsing step: the state it leaves and the error it
/// stopped on, if any.
pub struct Parsed {
    pub state: ParserView,
    pub error: Option<CompileErrorView>,
}

pub open spec fn done(s: ParserView) -> Parsed {
    Parsed { state: s, error: None }
}

pub open spec fn stopped(s: ParserView, e: CompileErrorView) -> Parsed {
    Parsed { state: s, error: Some(e) }
}

/// A parser error at a token.
pub open spec fn error_at(token: TokenView, message: Seq<char>) -> CompileErrorView {
    CompileErrorView {
        line_no: token.line,
        payload: CompileErrorPayload::ParserError,
        message: Some(message),
    }
}

/// The scanner's error: what an error token carries.
pub open spec fn scanner_error(token: TokenView) -> CompileErrorView {
    CompileErrorView {
        line_no: token.line,
        payload: CompileErrorPayload::ScannerError,
        message: Some(token.raw),
    }
}

/// The error of a token that stands where another was required.
pub open spec fn unexpected(token: TokenView, message: Option<Seq<char>>) -> CompileErrorView {
    CompileErrorView {
        line_no: token.line,
        payload: CompileErrorPayload::UnexpectedToken(token.ty),
        message,
    }
}

/// The error of one constant too many, at a token.
pub open spec fn too_many_constants(token: TokenView) -> CompileErrorView {
    CompileErrorView {
        line_no: token.line,
        payload: CompileErrorPayload::TooManyConstants,
        message: None,
    }
}

/// How much is left to parse: it falls whenever a token is taken, which
/// bounds the depth of the parse.
pub open spec fn measure(s: ParserView) -> int {
    2 * (s.source.len() - s.pos) + if s.current.ty == TokenType::TOKEN_EOF {
        0int
    } else {
        1int
    }
}

/// Whether state `after` is nearer the end of the parse than state `before`.
/// The recursive definitions below test this before they recurse.
pub open spec fn closer(before: ParserView, after: ParserView) -> bool {
    0 <= measure(after) < measure(before)
}

/// Takes the next token: the current token becomes the previous one and the
/// scanner supplies the new current one. An error token stops the parse with
/// the scanner's diagnostic.
pub open spec fn advance(s: ParserView) -> Parsed {
    let scanned = scan(s.source, s.pos, s.line);
    let next = ParserView {
        previous: s.current,
        current: scanned.token,
        pos: scanned.pos,
        line: scanned.line,
        ..s
    };
    if scanned.token.ty == TokenType::TOKEN_ERROR {
        stopped(next, scanner_error(scanned.token))
    } else {
        done(next)
    }
}

/// Takes the current token if it is of kind `ty`; otherwise nothing changes.
pub open spec fn match_ty(s: ParserView, ty: TokenType) -> Parsed {
    if s.current.ty == ty {
        advance(s)
    } else {
        done(s)
    }
}

/// Takes the current token, which must be of kind `ty`.
pub open spec fn consume(s: ParserView, ty: TokenType, message: Option<Seq<char>>) -> Parsed {
    if s.current.ty == ty {
        advance(s)
    } else {
        stopped(s, unexpected(s.current, message))
    }
}

/// Appends one code byte, on the line of the previous token.
pub open spec fn emit(s: ParserView, byte: u8) -> ParserView {
    ParserView {
        chunk: ChunkView {
            code: s.chunk.code.push(byte),
            lines: s.chunk.lines.push(s.previous.line),
            ..s.chunk
        },
        ..s
    }
}

/// Adds a constant to the pool; its index is the pool's length before. A full
/// pool stops the parse.
pub open spec fn add_constant(s: ParserView, value: ValueView) -> Parsed {
    if s.chunk.constants.len() < MAX_CONSTANTS {
        done(
            ParserView {
                chunk: ChunkView { constants: s.chunk.constants.push(value), ..s.chunk },
                ..s
            },
        )
    } else {
        stopped(s, too_many_constants(s.previous))
    }
}

/// Adds a constant and emits the instruction that loads it.
pub open spec fn emit_constant(s: ParserView, value: ValueView) -> Parsed {
    let added = add_constant(s, value);
    if added.error is Some {
        added
    } else {
        done(emit(emit(added.state, OP_CONSTANT), s.chunk.constants.len() as u8))
    }
}

/// The instructions of a binary operator: one opcode, or two for the
/// operators that are compiled as the negation of another.
pub open spec fn binary_code(ty: TokenType) -> Seq<u8> {
    match ty {
        TokenType::TOKEN_PLUS => seq![OP_ADD],
        TokenType::TOKEN_MINUS => seq![OP_SUBTRACT],
        TokenType::TOKEN_STAR => seq![OP_MULTIPLY],
        TokenType::TOKEN_SLASH => seq![OP_DIVIDE],
        TokenType::TOKEN_BANG_EQUAL => seq![OP_EQUAL, OP_NOT],
        TokenType::TOKEN_EQUAL_EQUAL => seq![OP_EQUAL],
        TokenType::TOKEN_GREATER => seq![OP_GREATER],
        TokenType::TOKEN_GREATER_EQUAL => seq![OP_LESS, OP_NOT],
        TokenType::TOKEN_LESS => seq![OP_LESS],
        TokenType::TOKEN_LESS_EQUAL => seq![OP_GREATER, OP_NOT],
        _ => seq![],
    }
}

/// Appends several code bytes, each on the line of the previous token.
pub open spec fn emit_all(s: ParserView, bytes: Seq<u8>) -> ParserView
    decreases bytes.len(),
{
    if bytes.len() == 0 {
        s
    } else {
        emit(emit_all(s, bytes.drop_last()), bytes.last())
    }
}

/// Appending one byte is emitting it.
pub proof fn lemma_emit_one(s: ParserView, a: u8)
    ensures
        emit_all(s, seq![a]) == emit(s, a),
{
    assert(seq![a].drop_last() =~= Seq::<u8>::empty());
    reveal_with_fuel(emit_all, 2);
}

/// Appending two bytes is emitting the one and then the other.
pub proof fn lemma_emit_two(s: ParserView, a: u8, b: u8)
    ensures
        emit_all(s, seq![a, b]) == emit(emit(s, a), b),
{
    assert(seq![a, b].drop_last() =~= seq![a]);
    assert(seq![a].drop_last() =~= Seq::<u8>::empty());
    reveal_with_fuel(emit_all, 3);
}

/// A literal `false`, `true` or `nil`: one opcode.
pub open spec fn literal(s: ParserView) -> Parsed {
    match s.previous.ty {
        TokenType::TOKEN_FALSE => done(emit(s, OP_FALSE)),
        TokenType::TOKEN_TRUE => done(emit(s, OP_TRUE)),
        TokenType::TOKEN_NIL => done(emit(s, OP_NIL)),
        _ => stopped(s, error_at(s.previous, "Unknown Literal"@)),
    }
}

/// A number literal: a constant with the next pattern of the table. The parse
/// stops where the table has no pattern left.
pub open spec fn number(s: ParserView) -> Parsed {
    if 0 <= s.used < s.numbers.len() {
        emit_constant(
            ParserView { used: s.used + 1, ..s },
            ValueView::Number(s.numbers[s.used]),
        )
    } else {
        stopped(s, error_at(s.previous, "Expect number value"@))
    }
}

/// A string literal: a constant with the text between the quotes.
pub open spec fn string(s: ParserView) -> Parsed {
    emit_constant(s, ValueView::Str(s.previous.raw.subrange(1, s.previous.raw.len() - 1)))
}

/// An expression: anything from an assignment up.
pub open spec fn expression(s: ParserView) -> Parsed
    decreases measure(s), 2int,
{
    parse_precedence(s, Precedence::PREC_ASSIGNMENT)
}

/// A parenthesised expression.
pub open spec fn grouping(s: ParserView) -> Parsed
    decreases measure(s), 4int,
{
    let inner = expression(s);
    if inner.error is Some {
        inner
    } else {
        consume(inner.state, TokenType::TOKEN_RIGHT_PAREN, Some("expect ) after expression"@))
    }
}

/// A prefix operator: its operand, then `OP_NEGATE` for `-` or `OP_NOT` for `!`.
pub open spec fn unary(s: ParserView) -> Parsed
    decreases measure(s), 4int,
{
    let operand = parse_precedence(s, Precedence::PREC_UNARY);
    if operand.error is Some {
        operand
    } else {
        match s.previous.ty {
            TokenType::TOKEN_MINUS => done(emit(operand.state, OP_NEGATE)),
            TokenType::TOKEN_BANG => done(emit(operand.state, OP_NOT)),
            _ => operand,
        }
    }
}

/// The level above a level; the tightest level is its own next.
pub open spec fn next_level(p: Precedence) -> Precedence {
    match p {
        Precedence::PREC_NONE => Precedence::PREC_ASSIGNMENT,
        Precedence::PREC_ASSIGNMENT => Precedence::PREC_OR,
        Precedence::PREC_OR => Precedence::PREC_AND,
        Precedence::PREC_AND => Precedence::PREC_EQUALITY,
        Precedence::PREC_EQUALITY => Precedence::PREC_COMPARISON,
        Precedence::PREC_COMPARISON => Precedence::PREC_TERM,
        Precedence::PREC_TERM => Precedence::PREC_FACTOR,
        Precedence::PREC_FACTOR => Precedence::PREC_UNARY,
        Precedence::PREC_UNARY => Precedence::PREC_CALL,
        Precedence::PREC_CALL => Precedence::PREC_PRIMARY,
        Precedence::PREC_PRIMARY => Precedence::PREC_PRIMARY,
    }
}

/// A binary operator, which has been taken: its right operand, parsed one
/// level above the operator's own so that operators of one level group to the
/// left, then the operator's instructions.
pub open spec fn binary(s: ParserView) -> Parsed
    decreases measure(s), 4int,
{
    let operand = parse_precedence(s, next_level(precedence_of(s.previous.ty)));
    if operand.error is Some {
        operand
    } else {
        done(emit_all(operand.state, binary_code(s.previous.ty)))
    }
}

/// A variable of the given name: the name becomes a string constant. Where
/// assignment is allowed and `=` follows, the value is compiled and stored
/// with `OP_SET_GLOBAL`; otherwise the variable is read with `OP_GET_GLOBAL`.
pub open spec fn named_variable(s: ParserView, name: TokenView, can_assign: bool) -> Parsed
    decreases measure(s), 3int,
{
    let named = add_constant(s, ValueView::Str(name.raw));
    let index = s.chunk.constants.len() as u8;
    if named.error is Some {
        named
    } else if can_assign && s.current.ty == TokenType::TOKEN_EQUAL {
        let taken = advance(named.state);
        if taken.error is Some {
            taken
        } else if closer(s, taken.state) {
            let value = expression(taken.state);
            if value.error is Some {
                value
            } else {
                done(emit(emit(value.state, OP_SET_GLOBAL), index))
            }
        } else {
            taken
        }
    } else {
        done(emit(emit(named.state, OP_GET_GLOBAL), index))
    }
}

/// A variable, whose name is the previous token.
pub open spec fn variable(s: ParserView, can_assign: bool) -> Parsed
    decreases measure(s), 4int,
{
    named_variable(s, s.previous, can_assign)
}

/// Runs the prefix handler that the rule table names.
pub open spec fn prefix(s: ParserView, rule: PrefixRule, can_assign: bool) -> Parsed
    decreases measure(s), 5int,
{
    match rule {
        PrefixRule::Grouping => grouping(s),
        PrefixRule::Unary => unary(s),
        PrefixRule::Variable => variable(s, can_assign),
        PrefixRule::String => string(s),
        PrefixRule::Number => number(s),
        PrefixRule::Literal => literal(s),
    }
}

/// The operators that follow an operand: while the current token binds at
/// least as tightly as `p`, it is taken and its infix handler run. A token that
/// binds so but has no infix handler stops the parse.
pub open spec fn infix_loop(s: ParserView, p: Precedence) -> Parsed
    decreases measure(s), 6int,
{
    if p.rank() <= precedence_of(s.current.ty).rank() {
        let taken = advance(s);
        if taken.error is Some {
            taken
        } else if infix_of(taken.state.previous.ty) is None {
            stopped(
                taken.state,
                unexpected(taken.state.previous, Some("Expect binary operator"@)),
            )
        } else if closer(s, taken.state) {
            let applied = binary(taken.state);
            if applied.error is Some {
                applied
            } else if closer(s, applied.state) {
                infix_loop(applied.state, p)
            } else {
                applied
            }
        } else {
            taken
        }
    } else {
        done(s)
    }
}

/// The end of an expression that started in state `s` and has been parsed up
/// to state `tail`. Where assignment is allowed and a `=` is left over, the
/// target was not a variable: the `=` is taken, an expression is parsed after
/// it, whatever comes of that, and the parse stops.
pub open spec fn leftover_assignment(s: ParserView, tail: ParserView, can_assign: bool) -> Parsed
    decreases measure(s), 0int,
{
    if can_assign && tail.current.ty == TokenType::TOKEN_EQUAL {
        let target = advance(tail);
        if target.error is Some {
            target
        } else if closer(s, target.state) {
            let rest = expression(target.state).state;
            stopped(rest, error_at(rest.previous, "Invalid assignment target"@))
        } else {
            target
        }
    } else {
        done(tail)
    }
}

/// The core of the parser: an expression whose operators all bind at least as
/// tightly as `p`.
///
/// One token is taken and must have a prefix handler, which is run; then
/// the operators that follow. Assignment is allowed only where `p` is
/// no tighter than assignment; a `=` that is left over where it is allowed
/// stops the parse.
///
/// The tests with `closer` make the definition well-founded. They hold on
/// every path, as the module `progress` proves: taking a token lowers the
/// measure and no step raises it.
pub open spec fn parse_precedence(s: ParserView, p: Precedence) -> Parsed
    decreases measure(s), 1int,
{
    let taken = advance(s);
    if taken.error is Some {
        taken
    } else {
        match prefix_of(taken.state.previous.ty) {
            None => stopped(taken.state, error_at(taken.state.previous, "Expect expression"@)),
            Some(rule) => {
                let can_assign = p.rank() <= Precedence::PREC_ASSIGNMENT.rank();
                if closer(s, taken.state) {
                    let head = prefix(taken.state, rule, can_assign);
                    if head.error is Some {
                        head
                    } else if closer(s, head.state) {
                        let tail = infix_loop(head.state, p);
                        if tail.error is Some {
                            tail
                        } else {
                            leftover_assignment(s, tail.state, can_assign)
                        }
                    } else {
                        head
                    }
                } else {
                    taken
                }
            },
        }
    }
}

/// A print statement, whose keyword has been taken: an expression, `;`, then
/// `OP_PRINT`.
pub open spec fn print_statement(s: ParserView) -> Parsed {
    let value = expression(s);
    if value.error is Some {
        value
    } else {
        let end = consume(
            value.state,
            TokenType::TOKEN_SEMICOLON,
            Some("Expect ; after print statement"@),
        );
        if end.error is Some {
            end
        } else {
            done(emit(end.state, OP_PRINT))
        }
    }
}

/// An expression statement: an expression, `OP_POP` to drop its value, `;`.
pub open spec fn expression_statement(s: ParserView) -> Parsed {
    let value = expression(s);
    if value.error is Some {
        value
    } else {
        consume(
            emit(value.state, OP_POP),
            TokenType::TOKEN_SEMICOLON,
            Some("Expect ; after expression"@),
        )
    }
}

/// A statement: a print statement where `print` leads, else an expression
/// statement.
pub open spec fn statement(s: ParserView) -> Parsed {
    if s.current.ty == TokenType::TOKEN_PRINT {
        let taken = advance(s);
        if taken.error is Some {
            taken
        } else {
            print_statement(taken.state)
        }
    } else {
        expression_statement(s)
    }
}

/// The name of a variable that is being declared: an identifier, which
/// becomes a string constant. The constant's index is the pool's length
/// before.
pub open spec fn parse_variable(s: ParserView, message: Seq<char>) -> Parsed {
    let name = consume(s, TokenType::TOKEN_IDENTIFIER, Some(message));
    if name.error is Some {
        name
    } else {
        add_constant(name.state, ValueView::Str(name.state.previous.raw))
    }
}

/// A variable declaration, whose `var` has been taken: the name; the
/// initialiser after `=`, or `OP_NIL` without one; `;`; then
/// `OP_DEFINE_GLOBAL` with the name's index.
pub open spec fn var_declaration(s: ParserView) -> Parsed {
    let name = parse_variable(s, "Expect global variable"@);
    if name.error is Some {
        name
    } else {
        let index = (name.state.chunk.constants.len() - 1) as u8;
        let value = if name.state.current.ty == TokenType::TOKEN_EQUAL {
            let taken = advance(name.state);
            if taken.error is Some {
                taken
            } else {
                expression(taken.state)
            }
        } else {
            done(emit(name.state, OP_NIL))
        };
        if value.error is Some {
            value
        } else {
            let end = consume(
                value.state,
                TokenType::TOKEN_SEMICOLON,
                Some("Expect ; after variable declaration"@),
            );
            if end.error is Some {
                end
            } else {
                done(emit(emit(end.state, OP_DEFINE_GLOBAL), index))
            }
        }
    }
}

/// A declaration: a variable declaration where `var` leads, else a statement.
#[verifier::opaque]
pub open spec fn declaration(s: ParserView) -> Parsed {
    if s.current.ty == TokenType::TOKEN_VAR {
        let taken = advance(s);
        if taken.error is Some {
            taken
        } else {
            var_declaration(taken.state)
        }
    } else {
        statement(s)
    }
}

/// Declarations up to the end of the source, whose token is taken.
pub open spec fn program(s: ParserView) -> Parsed
    decreases measure(s),
{
    let first = declaration(s);
    if first.error is Some {
        first
    } else if first.state.current.ty == TokenType::TOKEN_EOF {
        advance(first.state)
    } else if closer(s, first.state) {
        program(first.state)
    } else {
        first
    }
}

/// The parser's state before the first declaration: the first token is in
/// hand as the current one, and the previous one is a placeholder on line 0.
pub open spec fn initial(src: Seq<u8>, numbers: Seq<u64>, chunk: ChunkView) -> ParserView {
    let first = scan(src, 0, 1);
    ParserView {
        source: src,
        pos: first.pos,
        line: first.line,
        previous: TokenView { ty: TokenType::TOKEN_EOF, raw: Seq::empty(), line: 0 },
        current: first.token,
        chunk,
        numbers,
        used: 0,
    }
}

/// What compiling a source does to a chunk, and the error it stops on.
///
/// An error token at the very start stops the parse with the scanner's
/// diagnostic. An empty source compiles to nothing. Otherwise declarations
/// are compiled up to the end of the source.
pub open spec fn compiled(src: Seq<u8>, numbers: Seq<u64>, chunk: ChunkView) -> Parsed {
    let start = initial(src, numbers, chunk);
    if start.current.ty == TokenType::TOKEN_ERROR {
        stopped(start, scanner_error(start.current))
    } else if start.current.ty == TokenType::TOKEN_EOF {
        advance(start)
    } else {
        let all = program(start);
        if all.error is Some {
            all
        } else {
            consume(all.state, TokenType::TOKEN_EOF, None)
        }
    }
}

/// The outcome of a parsing function: the state it left the parser in, and
/// its error if it returned one.
pub open spec fn outcome<T>(s: ParserView, r: Result<T, CompileError>) -> Parsed {
    Parsed {
        state: s,
        error: match r {
            Ok(_) => None,
            Err(e) => Some(e@),
        },
    }
}

/// Compiles `source` into `chunk`, appending to what the chunk holds.
///
/// `numbers` holds the binary64 pattern of each number literal of the
/// source, in source order; `scanner::number_literals` lists the literals. The
/// first error stops the compilation; the chunk then holds what was emitted up
/// to it. Valid code stays valid.
pub fn compile<'a>(source: &'a str, numbers: &'a [u64], chunk: &mut Chunk) -> (r: Result<
    (),
    CompileError,
>)
    requires
        source.spec_bytes().len() < u64::MAX,
        old(chunk).well_formed(),
    ensures
        final(chunk).well_formed(),
        final(chunk)@.lines.len() == final(chunk)@.code.len(),
        final(chunk)@ == compiled(source.spec_bytes(), numbers@, old(chunk)@).state.chunk,
        valid_code(old(chunk)@) ==> valid_code(final(chunk)@) && grows(old(chunk)@, final(chunk)@),
        match r {
            Ok(_) => compiled(source.spec_bytes(), numbers@, old(chunk)@).error is None,
            Err(e) => compiled(source.spec_bytes(), numbers@, old(chunk)@).error == Some(e@),
        },
{
    let scanner = Scanner::new(source);
    let mut taken = Chunk::new();
    core::mem::swap(chunk, &mut taken);
    let mut parser = Parser::new(scanner, taken, numbers);
    let result = parser.program();
    let mut written = parser.into_chunk();
    core::mem::swap(chunk, &mut written);
    proof {
        chunk.lemma_well_formed();
        if valid_code(old(chunk)@) {
            lemma_compiled(source.spec_bytes(), numbers@, old(chunk)@);
        }
    }
    result
}

/// The parser: two tokens in hand, the scanner that supplies more, and the
/// chunk that the bytecode goes to.
pub struct Parser<'a> {
    previous: Token<'a>,
    current: Token<'a>,
    scanner: Scanner<'a>,
    chunk: Chunk,
    numbers: &'a [u64],
    used: usize,
}

impl<'a> View for Parser<'a> {
    type V = ParserView;

    closed spec fn view(&self) -> ParserView {
        ParserView {
            source: self.scanner@.source,
            pos: self.scanner@.current,
            line: self.scanner@.line,
            previous: self.previous@,
            current: self.current@,
            chunk: self.chunk@,
            numbers: self.numbers@,
            used: self.used as int,
        }
    }
}

/// A string token has room for its two quotes.
pub open spec fn token_ok(token: TokenView) -> bool {
    token.ty == TokenType::TOKEN_STRING ==> token.raw.len() >= 2
}

impl<'a> Parser<'a> {
    /// The scanner and the chunk are well formed, and so are the tokens in
    /// hand.
    pub closed spec fn well_formed(&self) -> bool {
        &&& self.scanner.well_formed()
        &&& self.chunk.well_formed()
        &&& token_ok(self.previous@)
        &&& token_ok(self.current@)
    }

    /// A parser at the start of the scanner's source, with the first token in
    /// hand. The bytecode is appended to `chunk`, which `into_chunk` gives
    /// back.
    pub fn new(mut scanner: Scanner<'a>, chunk: Chunk, numbers: &'a [u64]) -> (r: Self)
        requires
            scanner.well_formed(),
            scanner@.current == 0,
            scanner@.line == 1,
            chunk.well_formed(),
        ensures
            r.well_formed(),
            r@ == initial(scanner@.source, numbers@, chunk@),
    {
        let previous = Token { ty: TokenType::TOKEN_EOF, raw: "", line: 0 };
        proof {
            reveal_strlit("");
            assert(previous@.raw =~= Seq::<char>::empty());
            crate::scanner::lemma_string_token(scanner@.source, 0, 1);
        }
        let current = scanner.scan_token();
        Parser { previous, current, scanner, chunk, numbers, used: 0 }
    }

    /// Ends the parse and hands the chunk back.
    pub fn into_chunk(self) -> (r: Chunk)
        requires
            self.well_formed(),
        ensures
            r.well_formed(),
            r@ == self@.chunk,
    {
        self.chunk
    }

    /// Compiles the whole source: declarations up to its end.
    pub fn program(&mut self) -> (r: Result<(), CompileError>)
        requires
            old(self).well_formed(),
            old(self)@ == initial(old(self)@.source, old(self)@.numbers, old(self)@.chunk),
        ensures
            final(self).well_formed(),
            outcome(final(self)@, r) == compiled(
                old(self)@.source,
                old(self)@.numbers,
                old(self)@.chunk,
            ),
    {
        if self.check_ty(TokenType::TOKEN_ERROR) {
            return Err(self.scanner_error());
        }
        match self.match_ty(TokenType::TOKEN_EOF) {
            Ok(true) => {
                return Ok(());
            },
            Ok(false) => {},
            Err(e) => {
                return Err(e);
            },
        }
        let ghost start = self@;
        loop
            invariant_except_break
                program(self@) == program(start),
                self@.current.ty != TokenType::TOKEN_EOF,
            invariant
                self.well_formed(),
                start == old(self)@,
                start == initial(start.source, start.numbers, start.chunk),
                start.current.ty != TokenType::TOKEN_ERROR,
                start.current.ty != TokenType::TOKEN_EOF,
            ensures
                program(start) == done(self@),
            decreases measure(self@),
        {
            match self.declaration() {
                Ok(()) => {},
                Err(e) => {
                    return Err(e);
                },
            }
            match self.match_ty(TokenType::TOKEN_EOF) {
                Ok(true) => {
                    break ;
                },
                Ok(false) => {},
                Err(e) => {
                    return Err(e);
                },
            }
        }
        self.consume(TokenType::TOKEN_EOF)
    }

    fn declaration(&mut self) -> (r: Result<(), CompileError>)
        requires
            old(self).well_formed(),
        ensures
            final(self).well_formed(),
            outcome(final(self)@, r) == declaration(old(self)@),
            0 <= measure(final(self)@) <= measure(old(self)@),
            r is Ok && old(self)@.current.ty != TokenType::TOKEN_EOF ==> measure(final(self)@)
                < measure(old(self)@),
    {
        reveal(declaration);
        match self.match_ty(TokenType::TOKEN_VAR) {
            Ok(true) => self.var_declaration(),
            Ok(false) => self.statement(),
            Err(e) => Err(e),
        }
    }

    fn statement(&mut self) -> (r: Result<(), CompileError>)
        requires
            old(self).well_formed(),
        ensures
            final(self).well_formed(),
            outcome(final(self)@, r) == statement(old(self)@),
            0 <= measure(final(self)@) <= measure(old(self)@),
            r is Ok && old(self)@.current.ty != TokenType::TOKEN_EOF ==> measure(final(self)@)
                < measure(old(self)@),
    {
        match self.match_ty(TokenType::TOKEN_PRINT) {
            Ok(true) => self.print_statement(),
            Ok(false) => self.expression_statement(),
            Err(e) => Err(e),
        }
    }

    fn var_declaration(&mut self) -> (r: Result<(), CompileError>)
        requires
            old(self).well_formed(),
        ensures
            final(self).well_formed(),
            outcome(final(self)@, r) == var_declaration(old(self)@),
            0 <= measure(final(self)@) <= measure(old(self)@),
    {
        let offset = match self.parse_variable("Expect global variable") {
            Ok(offset) => offset,
            Err(e) => {
                return Err(e);
            },
        };
        match self.match_ty(TokenType::TOKEN_EQUAL) {
            Ok(true) => {
                match self.expression() {
                    Ok(()) => {},
                    Err(e) => {
                        return Err(e);
                    },
                }
            },
            Ok(false) => {
                self.emit_byte(OP_NIL);
            },
            Err(e) => {
                return Err(e);
            },
        }
        match self.consume_with_error_message(
            TokenType::TOKEN_SEMICOLON,
            "Expect ; after variable declaration",
        ) {
            Ok(()) => {},
            Err(e) => {
                return Err(e);
            },
        }
        self.define_variable(offset)
    }

    fn expression_statement(&mut self) -> (r: Result<(), CompileError>)
        requires
            old(self).well_formed(),
        ensures
            final(self).well_formed(),
            outcome(final(self)@, r) == expression_statement(old(self)@),
            0 <= measure(final(self)@) <= measure(old(self)@),
            r is Ok && old(self)@.current.ty != TokenType::TOKEN_EOF ==> measure(final(self)@)
                < measure(old(self)@),
    {
        match self.expression() {
            Ok(()) => {},
            Err(e) => {
                return Err(e);
            },
        }
        self.emit_byte(OP_POP);
        self.consume_with_error_message(TokenType::TOKEN_SEMICOLON, "Expect ; after expression")
    }

    fn print_statement(&mut self) -> (r: Result<(), CompileError>)
        requires
            old(self).well_formed(),
        ensures
            final(self).well_formed(),
            outcome(final(self)@, r) == print_statement(old(self)@),
            0 <= measure(final(self)@) <= measure(old(self)@),
    {
        match self.expression() {
            Ok(()) => {},
            Err(e) => {
                return Err(e);
            },
        }
        match self.consume_with_error_message(
            TokenType::TOKEN_SEMICOLON,
            "Expect ; after print statement",
        ) {
            Ok(()) => {},
            Err(e) => {
                return Err(e);
            },
        }
        self.emit_byte(OP_PRINT);
        Ok(())
    }

    fn expression(&mut self) -> (r: Result<(), CompileError>)
        requires
            old(self).well_formed(),
        ensures
            final(self).well_formed(),
            outcome(final(self)@, r) == expression(old(self)@),
            0 <= measure(final(self)@) <= measure(old(self)@),
            r is Ok && old(self)@.current.ty != TokenType::TOKEN_EOF ==> measure(final(self)@)
                < measure(old(self)@),
        decreases measure(old(self)@), 2int,
    {
        self.parse_precedence(Precedence::PREC_ASSIGNMENT)
    }

    fn grouping(&mut self, _can_assign: bool) -> (r: Result<(), CompileError>)
        requires
            old(self).well_formed(),
        ensures
            final(self).well_formed(),
            outcome(final(self)@, r) == grouping(old(self)@),
            0 <= measure(final(self)@) <= measure(old(self)@),
        decreases measure(old(self)@), 4int,
    {
        match self.expression() {
            Ok(()) => {},
            Err(e) => {
                return Err(e);
            },
        }
        self.consume_with_error_message(TokenType::TOKEN_RIGHT_PAREN, "expect ) after expression")
    }

    #[verifier::rlimit(50)]
    fn binary(&mut self, _can_assign: bool) -> (r: Result<(), CompileError>)
        requires
            old(self).well_formed(),
            infix_of(old(self)@.previous.ty) is Some,
        ensures
            final(self).well_formed(),
            outcome(final(self)@, r) == binary(old(self)@),
            0 <= measure(final(self)@) <= measure(old(self)@),
        decreases measure(old(self)@), 4int,
    {
        let op_type = self.previous.ty;
        let rule = Self::get_rule(op_type);
        match self.parse_precedence(rule.precedence.higher()) {
            Ok(()) => {},
            Err(e) => {
                return Err(e);
            },
        }
        proof {
            lemma_emit_one(self@, binary_code(op_type)[0]);
            if binary_code(op_type).len() == 2 {
                lemma_emit_two(self@, binary_code(op_type)[0], binary_code(op_type)[1]);
            }
        }
        match op_type {
            TokenType::TOKEN_PLUS => {
                self.emit_byte(OP_ADD);
            },
            TokenType::TOKEN_MINUS => {
                self.emit_byte(OP_SUBTRACT);
            },
            TokenType::TOKEN_STAR => {
                self.emit_byte(OP_MULTIPLY);
            },
            TokenType::TOKEN_SLASH => {
                self.emit_byte(OP_DIVIDE);
            },
            TokenType::TOKEN_BANG_EQUAL => {
                self.emit_bytes(OP_EQUAL, OP_NOT);
            },
            TokenType::TOKEN_EQUAL_EQUAL => {
                self.emit_byte(OP_EQUAL);
            },
            TokenType::TOKEN_GREATER => {
                self.emit_byte(OP_GREATER);
            },
            TokenType::TOKEN_GREATER_EQUAL => {
                self.emit_bytes(OP_LESS, OP_NOT);
            },
            TokenType::TOKEN_LESS => {
                self.emit_byte(OP_LESS);
            },
            TokenType::TOKEN_LESS_EQUAL => {
                self.emit_bytes(OP_GREATER, OP_NOT);
            },
            _ => {},
        }
        Ok(())
    }

    fn unary(&mut self, _can_assign: bool) -> (r: Result<(), CompileError>)
        requires
            old(self).well_formed(),
        ensures
            final(self).well_formed(),
            outcome(final(self)@, r) == unary(old(self)@),
            0 <= measure(final(self)@) <= measure(old(self)@),
        decreases measure(old(self)@), 4int,
    {
        let op_type = self.previous.ty;
        match self.parse_precedence(Precedence::PREC_UNARY) {
            Ok(()) => {},
            Err(e) => {
                return Err(e);
            },
        }
        match op_type {
            TokenType::TOKEN_MINUS => {
                self.emit_byte(OP_NEGATE);
                Ok(())
            },
            TokenType::TOKEN_BANG => {
                self.emit_byte(OP_NOT);
                Ok(())
            },
            _ => Ok(()),
        }
    }

    /// Runs the prefix handler that the rule table names.
    fn prefix(&mut self, rule: PrefixRule, can_assign: bool) -> (r: Result<(), CompileError>)
        requires
            old(self).well_formed(),
            prefix_of(old(self)@.previous.ty) == Some(rule),
        ensures
            final(self).well_formed(),
            outcome(final(self)@, r) == prefix(old(self)@, rule, can_assign),
            0 <= measure(final(self)@) <= measure(old(self)@),
        decreases measure(old(self)@), 5int,
    {
        match rule {
            PrefixRule::Grouping => self.grouping(can_assign),
            PrefixRule::Unary => self.unary(can_assign),
            PrefixRule::Variable => self.variable(can_assign),
            PrefixRule::String => self.string(can_assign),
            PrefixRule::Number => self.number(can_assign),
            PrefixRule::Literal => self.literal(can_assign),
        }
    }

    #[verifier::rlimit(50)]
    fn parse_precedence(&mut self, precedence: Precedence) -> (r: Result<(), CompileError>)
        requires
            old(self).well_formed(),
        ensures
            final(self).well_formed(),
            outcome(final(self)@, r) == parse_precedence(old(self)@, precedence),
            0 <= measure(final(self)@) <= measure(old(self)@),
            r is Ok && old(self)@.current.ty != TokenType::TOKEN_EOF ==> measure(final(self)@)
                < measure(old(self)@),
        decreases measure(old(self)@), 1int,
    {
        match self.advance() {
            Ok(()) => {},
            Err(e) => {
                return Err(e);
            },
        }
        let rule = Self::get_rule(self.previous.ty);
        let prefix = match rule.prefix {
            Some(prefix) => prefix,
            None => {
                return Err(self.error("Expect expression"));
            },
        };
        let can_assign = precedence.level() <= Precedence::PREC_ASSIGNMENT.level();
        match self.prefix(prefix, can_assign) {
            Ok(()) => {},
            Err(e) => {
                return Err(e);
            },
        }
        let ghost head = self@;
        loop
            invariant
                self.well_formed(),
                infix_loop(self@, precedence) == infix_loop(head, precedence),
                0 <= measure(self@) <= measure(head),
                measure(head) < measure(old(self)@),
                can_assign == (precedence.rank() <= Precedence::PREC_ASSIGNMENT.rank()),
                parse_precedence(old(self)@, precedence) == (if infix_loop(
                    head,
                    precedence,
                ).error is Some {
                    infix_loop(head, precedence)
                } else {
                    leftover_assignment(
                        old(self)@,
                        infix_loop(head, precedence).state,
                        can_assign,
                    )
                }),
            ensures
                infix_loop(head, precedence) == done(self@),
            decreases measure(self@),
        {
            if !(precedence.level() <= Self::get_rule(self.current.ty).precedence.level()) {
                break ;
            }
            match self.advance() {
                Ok(()) => {},
                Err(e) => {
                    return Err(e);
                },
            }
            let rule = Self::get_rule(self.previous.ty);
            match rule.infix {
                Some(InfixRule::Binary) => {
                    match self.binary(can_assign) {
                        Ok(()) => {},
                        Err(e) => {
                            return Err(e);
                        },
                    }
                },
                None => {
                    return Err(self.unexpected("Expect binary operator"));
                },
            }
        }
        if can_assign {
            match self.match_ty(TokenType::TOKEN_EQUAL) {
                Ok(true) => {
                    let _ = self.expression();
                    Err(self.error("Invalid assignment target"))
                },
                Ok(false) => Ok(()),
                Err(e) => Err(e),
            }
        } else {
            Ok(())
        }
    }

    fn literal(&mut self, _can_assign: bool) -> (r: Result<(), CompileError>)
        requires
            old(self).well_formed(),
        ensures
            final(self).well_formed(),
            outcome(final(self)@, r) == literal(old(self)@),
            measure(final(self)@) == measure(old(self)@),
    {
        match self.previous.ty {
            TokenType::TOKEN_FALSE => {
                self.emit_byte(OP_FALSE);
                Ok(())
            },
            TokenType::TOKEN_TRUE => {
                self.emit_byte(OP_TRUE);
                Ok(())
            },
            TokenType::TOKEN_NIL => {
                self.emit_byte(OP_NIL);
                Ok(())
            },
            _ => Err(self.error("Unknown Literal")),
        }
    }

    fn number(&mut self, _can_assign: bool) -> (r: Result<(), CompileError>)
        requires
            old(self).well_formed(),
        ensures
            final(self).well_formed(),
            outcome(final(self)@, r) == number(old(self)@),
            measure(final(self)@) == measure(old(self)@),
    {
        if self.used < self.numbers.len() {
            let val = self.numbers[self.used];
            self.used = self.used + 1;
            self.emit_constant(Value::number(val))
        } else {
            Err(self.error("Expect number value"))
        }
    }

    fn string(&mut self, _can_assign: bool) -> (r: Result<(), CompileError>)
        requires
            old(self).well_formed(),
            old(self)@.previous.ty == TokenType::TOKEN_STRING,
        ensures
            final(self).well_formed(),
            outcome(final(self)@, r) == string(old(self)@),
            measure(final(self)@) == measure(old(self)@),
    {
        let length = self.previous.raw.unicode_len();
        // remove open close quotes
        let value = Value::string(self.previous.raw.substring_char(1, length - 1));
        self.emit_constant(value)
    }

    fn variable(&mut self, can_assign: bool) -> (r: Result<(), CompileError>)
        requires
            old(self).well_formed(),
        ensures
            final(self).well_formed(),
            outcome(final(self)@, r) == variable(old(self)@, can_assign),
            0 <= measure(final(self)@) <= measure(old(self)@),
        decreases measure(old(self)@), 4int,
    {
        let previous = self.previous;
        self.named_variable(previous, can_assign)
    }

    fn named_variable(&mut self, name: Token<'a>, can_assign: bool) -> (r: Result<
        (),
        CompileError,
    >)
        requires
            old(self).well_formed(),
        ensures
            final(self).well_formed(),
            outcome(final(self)@, r) == named_variable(old(self)@, name@, can_assign),
            0 <= measure(final(self)@) <= measure(old(self)@),
        decreases measure(old(self)@), 3int,
    {
        let identifier: Value = Value::string(name.raw);
        let offset = match self.chunk.add_constant(identifier) {
            Ok(offset) => offset,
            Err(payload) => {
                return Err(
                    CompileError { line_no: self.previous.line, payload, message: None },
                );
            },
        };
        if can_assign {
            match self.match_ty(TokenType::TOKEN_EQUAL) {
                Ok(true) => {
                    match self.expression() {
                        Ok(()) => {},
                        Err(e) => {
                            return Err(e);
                        },
                    }
                    self.emit_bytes(OP_SET_GLOBAL, offset as u8);
                    return Ok(());
                },
                Ok(false) => {},
                Err(e) => {
                    return Err(e);
                },
            }
        }
        self.emit_bytes(OP_GET_GLOBAL, offset as u8);
        Ok(())
    }

    fn define_variable(&mut self, global: usize) -> (r: Result<(), CompileError>)
        requires
            old(self).well_formed(),
        ensures
            final(self).well_formed(),
            r is Ok,
            final(self)@ == emit(emit(old(self)@, OP_DEFINE_GLOBAL), global as u8),
    {
        self.emit_bytes(OP_DEFINE_GLOBAL, global as u8);
        Ok(())
    }

    // result constant for identifier name offset
    fn parse_variable(&mut self, message: &str) -> (r: Result<usize, CompileError>)
        requires
            old(self).well_formed(),
        ensures
            final(self).well_formed(),
            outcome(final(self)@, r) == parse_variable(old(self)@, message@),
            0 <= measure(final(self)@) <= measure(old(self)@),
            r matches Ok(offset) ==> offset == final(self)@.chunk.constants.len() - 1 && offset
                < MAX_CONSTANTS,
    {
        match self.consume_with_error_message(TokenType::TOKEN_IDENTIFIER, message) {
            Ok(()) => {},
            Err(e) => {
                return Err(e);
            },
        }
        let identifier: Value = Value::string(self.previous.raw);
        match self.chunk.add_constant(identifier) {
            Ok(offset) => Ok(offset),
            Err(payload) => Err(
                CompileError { line_no: self.previous.line, payload, message: None },
            ),
        }
    }

    fn check_ty(&self, ty: TokenType) -> (r: bool)
        ensures
            r == (self@.current.ty == ty),
    {
        self.current.ty == ty
    }

    /// Takes the current token if it is of kind `ty`, and tells whether it
    /// was.
    fn match_ty(&mut self, ty: TokenType) -> (r: Result<bool, CompileError>)
        requires
            old(self).well_formed(),
        ensures
            final(self).well_formed(),
            outcome(final(self)@, r) == match_ty(old(self)@, ty),
            r matches Ok(taken) ==> taken == (old(self)@.current.ty == ty),
            0 <= measure(final(self)@) <= measure(old(self)@),
            old(self)@.current.ty == ty && ty != TokenType::TOKEN_EOF ==> measure(final(self)@)
                < measure(old(self)@),
    {
        if !self.check_ty(ty) {
            proof {
                self.lemma_measure();
            }
            Ok(false)
        } else {
            match self.advance() {
                Ok(()) => Ok(true),
                Err(e) => Err(e),
            }
        }
    }

    #[inline]
    fn consume(&mut self, ty: TokenType) -> (r: Result<(), CompileError>)
        requires
            old(self).well_formed(),
        ensures
            final(self).well_formed(),
            outcome(final(self)@, r) == consume(old(self)@, ty, None),
            0 <= measure(final(self)@) <= measure(old(self)@),
    {
        self._consume(ty, None)
    }

    #[inline]
    fn consume_with_error_message(&mut self, ty: TokenType, message: &str) -> (r: Result<
        (),
        CompileError,
    >)
        requires
            old(self).well_formed(),
        ensures
            final(self).well_formed(),
            outcome(final(self)@, r) == consume(old(self)@, ty, Some(message@)),
            0 <= measure(final(self)@) <= measure(old(self)@),
            old(self)@.current.ty != TokenType::TOKEN_EOF && r is Ok ==> measure(final(self)@)
                < measure(old(self)@),
    {
        self._consume(ty, Some(message))
    }

    fn _consume(&mut self, ty: TokenType, message: Option<&str>) -> (r: Result<
        (),
        CompileError,
    >)
        requires
            old(self).well_formed(),
        ensures
            final(self).well_formed(),
            outcome(final(self)@, r) == consume(
                old(self)@,
                ty,
                match message {
                    Some(m) => Some(m@),
                    None => None,
                },
            ),
            0 <= measure(final(self)@) <= measure(old(self)@),
            old(self)@.current.ty != TokenType::TOKEN_EOF && r is Ok ==> measure(final(self)@)
                < measure(old(self)@),
    {
        if self.current.ty == ty {
            self.advance()
        } else {
            proof {
                self.lemma_measure();
            }
            Err(
                CompileError {
                    line_no: self.current.line,
                    payload: CompileErrorPayload::UnexpectedToken(self.current.ty),
                    message: match message {
                        Some(s) => Some(s.to_owned()),
                        None => None,
                    },
                },
            )
        }
    }

    /// In a well-formed parser the measure is not negative.
    proof fn lemma_measure(&self)
        requires
            self.well_formed(),
        ensures
            0 <= measure(self@),
    {
    }

    #[inline]
    fn error(&mut self, message: &str) -> (e: CompileError)
        ensures
            *final(self) == *old(self),
            e@ == error_at(old(self)@.previous, message@),
    {
        Self::error_at(&self.previous, message)
    }

    /// The error of the previous token standing where it cannot.
    fn unexpected(&self, message: &str) -> (e: CompileError)
        ensures
            e@ == unexpected(self@.previous, Some(message@)),
    {
        CompileError {
            line_no: self.previous.line,
            payload: CompileErrorPayload::UnexpectedToken(self.previous.ty),
            message: Some(message.to_owned()),
        }
    }

    /// The scanner's error that the current token, an error token, carries.
    fn scanner_error(&self) -> (e: CompileError)
        ensures
            e@ == scanner_error(self@.current),
    {
        CompileError {
            line_no: self.current.line,
            payload: CompileErrorPayload::ScannerError,
            message: Some(self.current.raw.to_owned()),
        }
    }

    fn error_at(token: &Token<'a>, message: &str) -> (e: CompileError)
        ensures
            e@ == error_at(token@, message@),
    {
        CompileError {
            line_no: token.line,
            payload: CompileErrorPayload::ParserError,
            message: Some(message.to_owned()),
        }
    }

    fn advance(&mut self) -> (r: Result<(), CompileError>)
        requires
            old(self).well_formed(),
        ensures
            final(self).well_formed(),
            outcome(final(self)@, r) == advance(old(self)@),
            0 <= measure(final(self)@) <= measure(old(self)@),
            old(self)@.current.ty != TokenType::TOKEN_EOF ==> measure(final(self)@) < measure(
                old(self)@,
            ),
    {
        proof {
            lemma_scan(self@.source, self@.pos, self@.line);
            crate::scanner::lemma_string_token(self@.source, self@.pos, self@.line);
        }
        self.previous = self.current;
        self.current = self.scanner.scan_token();
        if self.current.ty == TokenType::TOKEN_ERROR {
            Err(self.scanner_error())
        } else {
            Ok(())
        }
    }

    fn emit_byte(&mut self, b: u8)
        requires
            old(self).well_formed(),
        ensures
            final(self).well_formed(),
            final(self)@ == emit(old(self)@, b),
    {
        self.chunk.write(b, self.previous.line);
    }

    fn emit_bytes(&mut self, b1: u8, b2: u8)
        requires
            old(self).well_formed(),
        ensures
            final(self).well_formed(),
            final(self)@ == emit(emit(old(self)@, b1), b2),
    {
        self.emit_byte(b1);
        self.emit_byte(b2);
    }

    fn emit_constant(&mut self, c: Value) -> (r: Result<(), CompileError>)
        requires
            old(self).well_formed(),
        ensures
            final(self).well_formed(),
            outcome(final(self)@, r) == emit_constant(old(self)@, c@),
    {
        match self.chunk.write_constant(c, self.previous.line) {
            Ok(_) => Ok(()),
            Err(payload) => Err(
                CompileError { line_no: self.previous.line, payload, message: None },
            ),
        }
    }

    /// The row of the rule table for a token kind.
    fn get_rule(ty: TokenType) -> (r: ParseRule)
        ensures
            r.prefix == prefix_of(ty),
            r.infix == infix_of(ty),
            r.precedence == precedence_of(ty),
    {
        match ty {
            TokenType::TOKEN_LEFT_PAREN => ParseRule {
                prefix: Some(PrefixRule::Grouping),
                infix: None,
                precedence: Precedence::PREC_CALL,
            },
            TokenType::TOKEN_RIGHT_PAREN => ParseRule {
                prefix: None,
                infix: None,
                precedence: Precedence::PREC_NONE,
            },
            TokenType::TOKEN_LEFT_BRACE => ParseRule {
                prefix: None,
                infix: None,
                precedence: Precedence::PREC_NONE,
            },
            TokenType::TOKEN_RIGHT_BRACE => ParseRule {
                prefix: None,
                infix: None,
                precedence: Precedence::PREC_NONE,
            },
            TokenType::TOKEN_COMMA => ParseRule {
                prefix: None,
                infix: None,
                precedence: Precedence::PREC_NONE,
            },
            TokenType::TOKEN_DOT => ParseRule {
                prefix: None,
                infix: None,
                precedence: Precedence::PREC_NONE,
            },
            TokenType::TOKEN_MINUS => ParseRule {
                prefix: Some(PrefixRule::Unary),
                infix: Some(InfixRule::Binary),
                precedence: Precedence::PREC_TERM,
            },
            TokenType::TOKEN_PLUS => ParseRule {
                prefix: None,
                infix: Some(InfixRule::Binary),
                precedence: Precedence::PREC_TERM,
            },
            TokenType::TOKEN_SEMICOLON => ParseRule {
                prefix: None,
                infix: None,
                precedence: Precedence::PREC_NONE,
            },
            TokenType::TOKEN_SLASH => ParseRule {
                prefix: None,
                infix: Some(InfixRule::Binary),
                precedence: Precedence::PREC_FACTOR,
            },
            TokenType::TOKEN_STAR => ParseRule {
                prefix: None,
                infix: Some(InfixRule::Binary),
                precedence: Precedence::PREC_FACTOR,
            },
            TokenType::TOKEN_BANG => ParseRule {
                prefix: Some(PrefixRule::Unary),
                infix: None,
                precedence: Precedence::PREC_NONE,
            },
            TokenType::TOKEN_BANG_EQUAL => ParseRule {
                prefix: None,
                infix: Some(InfixRule::Binary),
                precedence: Precedence::PREC_EQUALITY,
            },
            TokenType::TOKEN_EQUAL => ParseRule {
                prefix: None,
                infix: None,
                precedence: Precedence::PREC_NONE,
            },
            TokenType::TOKEN_EQUAL_EQUAL => ParseRule {
                prefix: None,
                infix: Some(InfixRule::Binary),
                precedence: Precedence::PREC_EQUALITY,
            },
            TokenType::TOKEN_GREATER => ParseRule {
                prefix: None,
                infix: Some(InfixRule::Binary),
                precedence: Precedence::PREC_COMPARISON,
            },
            TokenType::TOKEN_GREATER_EQUAL => ParseRule {
                prefix: None,
                infix: Some(InfixRule::Binary),
                precedence: Precedence::PREC_COMPARISON,
            },
            TokenType::TOKEN_LESS => ParseRule {
                prefix: None,
                infix: Some(InfixRule::Binary),
                precedence: Precedence::PREC_COMPARISON,
            },
            TokenType::TOKEN_LESS_EQUAL => ParseRule {
                prefix: None,
                infix: Some(InfixRule::Binary),
                precedence: Precedence::PREC_COMPARISON,
            },
            TokenType::TOKEN_IDENTIFIER => ParseRule {
                prefix: Some(PrefixRule::Variable),
                infix: None,
                precedence: Precedence::PREC_NONE,
            },
            TokenType::TOKEN_STRING => ParseRule {
                prefix: Some(PrefixRule::String),
                infix: None,
                precedence: Precedence::PREC_NONE,
            },
            TokenType::TOKEN_NUMBER => ParseRule {
                prefix: Some(PrefixRule::Number),
                infix: None,
                precedence: Precedence::PREC_NONE,
            },
            TokenType::TOKEN_AND => ParseRule {
                prefix: None,
                infix: None,
                precedence: Precedence::PREC_AND,
            },
            TokenType::TOKEN_CLASS => ParseRule {
                prefix: None,
                infix: None,
                precedence: Precedence::PREC_NONE,
            },
            TokenType::TOKEN_ELSE => ParseRule {
                prefix: None,
                infix: None,
                precedence: Precedence::PREC_NONE,
            },
            TokenType::TOKEN_FALSE => ParseRule {
                prefix: Some(PrefixRule::Literal),
                infix: None,
                precedence: Precedence::PREC_NONE,
            },
            TokenType::TOKEN_FUN => ParseRule {
                prefix: None,
                infix: None,
                precedence: Precedence::PREC_NONE,
            },
            TokenType::TOKEN_FOR => ParseRule {
                prefix: None,
                infix: None,
                precedence: Precedence::PREC_NONE,
            },
            TokenType::TOKEN_IF => ParseRule {
                prefix: None,
                infix: None,
                precedence: Precedence::PREC_NONE,
            },
            TokenType::TOKEN_NIL => ParseRule {
                prefix: Some(PrefixRule::Literal),
                infix: None,
                precedence: Precedence::PREC_NONE,
            },
            TokenType::TOKEN_OR => ParseRule {
                prefix: None,
                infix: None,
                precedence: Precedence::PREC_OR,
            },
            TokenType::TOKEN_PRINT => ParseRule {
                prefix: None,
                infix: None,
                precedence: Precedence::PREC_NONE,
            },
            TokenType::TOKEN_RETURN => ParseRule {
                prefix: None,
                infix: None,
                precedence: Precedence::PREC_NONE,
            },
            TokenType::TOKEN_SUPER => ParseRule {
                prefix: None,
                infix: None,
                precedence: Precedence::PREC_NONE,
            },
            TokenType::TOKEN_THIS => ParseRule {
                prefix: None,
                infix: None,
                precedence: Precedence::PREC_NONE,
            },
            TokenType::TOKEN_TRUE => ParseRule {
                prefix: Some(PrefixRule::Literal),
                infix: None,
                precedence: Precedence::PREC_NONE,
            },
            TokenType::TOKEN_VAR => ParseRule {
                prefix: None,
                infix: None,
                precedence: Precedence::PREC_NONE,
            },
            TokenType::TOKEN_WHILE => ParseRule {
                prefix: None,
                infix: None,
                precedence: Precedence::PREC_NONE,
            },
            TokenType::TOKEN_ERROR => ParseRule {
                prefix: None,
                infix: None,
                precedence: Precedence::PREC_NONE,
            },
            TokenType::TOKEN_EOF => ParseRule {
                prefix: None,
                infix: None,
                precedence: Precedence::PREC_NONE,
            },
        }
    }
}

} // verus!

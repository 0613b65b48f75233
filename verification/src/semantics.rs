//! What an expression means, and that its bytecode computes it.
//!
//! An expression is evaluated here straight from its tokens, without any
//! bytecode: operand by operand and operator by operator, as one would on
//! paper. The lemmas show that the machine, running the code that the compiler
//! emits for the expression, arrives at the same value, the same globals and
//! the same failures.
//!
//! Arithmetic that rounds is the host's. Evaluation and execution are both
//! stated for an arbitrary host, a function from an operation and two
//! binary64 patterns to the pattern of the result.
use crate::chunk::ChunkView;
use crate::common::{
    OP_CONSTANT, OP_FALSE, OP_GET_GLOBAL, OP_NEGATE, OP_NIL, OP_NOT, OP_PRINT, OP_SET_GLOBAL,
    OP_TRUE,
};
use crate::compiler::{
    add_constant, advance, binary, binary_code, closer, compiled, declaration, emit_all,
    emit_constant, expression, infix_loop, infix_of, initial, measure, named_variable,
    next_level, parse_precedence, precedence_of, prefix, prefix_of, print_statement, program,
    ParserView, Precedence, PrefixRule,
};
use crate::number::number_less;
use crate::progress::within;
use crate::scanner::{TokenType, TokenView};
use crate::valid_code::{grows, valid_code};
use crate::value::{falsy, negation, text_of, values_equal, ValueView};
use crate::vm::{resume, step, ActionView, ArithOp, InterpretError, Stepped, VmView};
use vstd::prelude::*;

verus! {

/// One instruction, with the arithmetic that the machine asks for done by
/// the host and handed back at once.
pub open spec fn hosted_step(s: VmView, host: spec_fn(ArithOp, u64, u64) -> u64) -> Stepped {
    match step(s).result {
        Ok(ActionView::Arithmetic(op, a, b)) => resume(s, host(op, a, b)),
        _ => step(s),
    }
}

/// Running with a host up to offset `end`: instruction after instruction until
/// the machine stands at `end` or behind it, or an instruction does not ask
/// to continue.
#[verifier::opaque]
pub open spec fn run_to(s: VmView, host: spec_fn(ArithOp, u64, u64) -> u64, end: int) -> Stepped
    decreases
            (if end > s.ip {
                end - s.ip
            } else {
                0
            }),
{
    if s.ip >= end {
        Stepped { state: s, result: Ok(ActionView::Continue) }
    } else {
        let next = hosted_step(s, host);
        if next.result == Ok::<ActionView, InterpretError>(ActionView::Continue) && next.state.ip
            > s.ip {
            run_to(next.state, host, end)
        } else {
            next
        }
    }
}

/// What evaluating an expression gives: a value and the globals after it, or
/// a failure.
pub enum Evaluated {
    Value(ValueView, Map<Seq<char>, ValueView>),
    Failed,
}

/// What a binary operator makes of two values; `None` where it does not
/// apply to them. `!=`, `<=` and `>=` are the negations of `==`, `>` and `<`.
pub open spec fn apply_binary(
    ty: TokenType,
    a: ValueView,
    b: ValueView,
    host: spec_fn(ArithOp, u64, u64) -> u64,
) -> Option<ValueView> {
    match ty {
        TokenType::TOKEN_EQUAL_EQUAL => Some(ValueView::Bool(values_equal(a, b))),
        TokenType::TOKEN_BANG_EQUAL => Some(ValueView::Bool(!values_equal(a, b))),
        _ => match (a, b) {
            (ValueView::Number(x), ValueView::Number(y)) => match ty {
                TokenType::TOKEN_PLUS => Some(ValueView::Number(host(ArithOp::Add, x, y))),
                TokenType::TOKEN_MINUS => Some(ValueView::Number(host(ArithOp::Subtract, x, y))),
                TokenType::TOKEN_STAR => Some(ValueView::Number(host(ArithOp::Multiply, x, y))),
                TokenType::TOKEN_SLASH => Some(ValueView::Number(host(ArithOp::Divide, x, y))),
                TokenType::TOKEN_LESS => Some(ValueView::Bool(number_less(x, y))),
                TokenType::TOKEN_LESS_EQUAL => Some(ValueView::Bool(!number_less(y, x))),
                TokenType::TOKEN_GREATER => Some(ValueView::Bool(number_less(y, x))),
                TokenType::TOKEN_GREATER_EQUAL => Some(ValueView::Bool(!number_less(x, y))),
                _ => None,
            },
            (ValueView::Str(x), ValueView::Str(y)) => if ty == TokenType::TOKEN_PLUS {
                Some(ValueView::Str(x + y))
            } else {
                None
            },
            _ => None,
        },
    }
}

/// The value of the expression that starts with the current token and whose
/// operators all bind at least as tightly as `p`.
///
/// The evaluation follows the tokens as the parser does and takes from the
/// parser's functions only where each operand ends. As there, the tests with
/// `closer` hold on every path.
pub open spec fn eval_precedence(
    s: ParserView,
    p: Precedence,
    globals: Map<Seq<char>, ValueView>,
    host: spec_fn(ArithOp, u64, u64) -> u64,
) -> Evaluated
    decreases measure(s), 1int,
{
    let taken = advance(s);
    match prefix_of(taken.state.previous.ty) {
        None => Evaluated::Failed,
        Some(rule) => {
            let can_assign = p.rank() <= Precedence::PREC_ASSIGNMENT.rank();
            if closer(s, taken.state) {
                match eval_prefix(taken.state, rule, can_assign, globals, host) {
                    Evaluated::Failed => Evaluated::Failed,
                    Evaluated::Value(v, g) => {
                        let head = prefix(taken.state, rule, can_assign);
                        if closer(s, head.state) {
                            eval_infix_loop(head.state, p, v, g, host)
                        } else {
                            Evaluated::Failed
                        }
                    },
                }
            } else {
                Evaluated::Failed
            }
        },
    }
}

/// The value of a prefix expression whose first token has been taken: a
/// literal, a variable or an assignment to one, a parenthesised expression,
/// or a prefix operator applied to its operand.
pub open spec fn eval_prefix(
    s: ParserView,
    rule: PrefixRule,
    can_assign: bool,
    globals: Map<Seq<char>, ValueView>,
    host: spec_fn(ArithOp, u64, u64) -> u64,
) -> Evaluated
    decreases measure(s), 5int,
{
    match rule {
        PrefixRule::Grouping => eval_precedence(s, Precedence::PREC_ASSIGNMENT, globals, host),
        PrefixRule::Unary => negated_of(
            s.previous.ty,
            eval_precedence(s, Precedence::PREC_UNARY, globals, host),
        ),
        PrefixRule::Variable => eval_variable(s, s.previous, can_assign, globals, host),
        PrefixRule::String => Evaluated::Value(
            ValueView::Str(s.previous.raw.subrange(1, s.previous.raw.len() - 1)),
            globals,
        ),
        PrefixRule::Number => Evaluated::Value(ValueView::Number(s.numbers[s.used]), globals),
        PrefixRule::Literal => Evaluated::Value(
            match s.previous.ty {
                TokenType::TOKEN_TRUE => ValueView::Bool(true),
                TokenType::TOKEN_FALSE => ValueView::Bool(false),
                _ => ValueView::Nil,
            },
            globals,
        ),
    }
}

/// The value of a variable, or of an assignment to it. Reading a global that
/// is not defined fails, and so does assigning to one; an assignment has the
/// value that it assigns.
pub open spec fn eval_variable(
    s: ParserView,
    name: TokenView,
    can_assign: bool,
    globals: Map<Seq<char>, ValueView>,
    host: spec_fn(ArithOp, u64, u64) -> u64,
) -> Evaluated
    decreases measure(s), 3int,
{
    if can_assign && s.current.ty == TokenType::TOKEN_EQUAL {
        let taken = advance(add_constant(s, ValueView::Str(name.raw)).state);
        if closer(s, taken.state) {
            assigned(
                name.raw,
                eval_precedence(taken.state, Precedence::PREC_ASSIGNMENT, globals, host),
            )
        } else {
            Evaluated::Failed
        }
    } else if globals.contains_key(name.raw) {
        Evaluated::Value(globals[name.raw], globals)
    } else {
        Evaluated::Failed
    }
}

/// The value of an operand `left` with the operators that follow it: each
/// operator that binds at least as tightly as `p` is applied to what stands
/// on its left and to its right operand, from left to right.
pub open spec fn eval_infix_loop(
    s: ParserView,
    p: Precedence,
    left: ValueView,
    globals: Map<Seq<char>, ValueView>,
    host: spec_fn(ArithOp, u64, u64) -> u64,
) -> Evaluated
    decreases measure(s), 6int,
{
    if p.rank() <= precedence_of(s.current.ty).rank() {
        let taken = advance(s);
        let op = taken.state.previous.ty;
        if closer(s, taken.state) {
            match eval_precedence(taken.state, next_level(precedence_of(op)), globals, host) {
                Evaluated::Failed => Evaluated::Failed,
                Evaluated::Value(right, g) => match apply_binary(op, left, right, host) {
                    None => Evaluated::Failed,
                    Some(v) => {
                        let applied = binary(taken.state);
                        if closer(s, applied.state) {
                            eval_infix_loop(applied.state, p, v, g, host)
                        } else {
                            Evaluated::Failed
                        }
                    },
                },
            }
        } else {
            Evaluated::Failed
        }
    } else {
        Evaluated::Value(left, globals)
    }
}

/// The machine holds the code and the constants of a chunk and stands at an
/// offset of it.
pub open spec fn holds(m: VmView, c: ChunkView, offset: int) -> bool {
    &&& m.code == c.code
    &&& m.constants == c.constants
    &&& m.ip == offset
}

/// What the lemmas ask of a parse from state `s` to state `after`, of the
/// chunk `c` that is run and of the machine `m` that runs it: the parse starts
/// within its source on valid code, the chunk holds all that the parse has
/// emitted, and the machine stands where the parse started to emit.
pub open spec fn ready(s: ParserView, after: ParserView, c: ChunkView, m: VmView) -> bool {
    &&& within(s)
    &&& valid_code(s.chunk)
    &&& grows(after.chunk, c)
    &&& holds(m, c, s.chunk.code.len() as int)
}

/// Execution agrees with evaluation: where the evaluation gives a value, the
/// machine has gone on to `end` and left the value on top of the stack
/// `base`, with the globals of the evaluation; where the evaluation fails, the
/// machine has stopped on a runtime error. A machine whose stack is full may
/// report that instead.
pub open spec fn agrees(
    out: Stepped,
    m: VmView,
    base: Seq<ValueView>,
    end: int,
    e: Evaluated,
) -> bool {
    ||| out.result == Ok::<ActionView, InterpretError>(ActionView::Overflow)
    ||| match e {
        Evaluated::Value(v, g) => {
            &&& out.result == Ok::<ActionView, InterpretError>(ActionView::Continue)
            &&& out.state == (VmView { ip: end, stack: base.push(v), globals: g, ..m })
        },
        Evaluated::Failed => out.result == Err::<ActionView, InterpretError>(
            InterpretError::RuntimeError,
        ),
    }
}

/// A run to `end` is a run to an earlier offset followed by a run from where
/// that one stopped, where it stopped to continue.
pub proof fn lemma_run_to_split(
    m: VmView,
    host: spec_fn(ArithOp, u64, u64) -> u64,
    mid: int,
    end: int,
)
    requires
        mid <= end,
    ensures
        run_to(m, host, end) == (if run_to(m, host, mid).result == Ok::<
            ActionView,
            InterpretError,
        >(ActionView::Continue) {
            run_to(run_to(m, host, mid).state, host, end)
        } else {
            run_to(m, host, mid)
        }),
    decreases
            (if mid > m.ip {
                mid - m.ip
            } else {
                0
            }),
{
    reveal(run_to);
    if m.ip < mid {
        let next = hosted_step(m, host);
        if next.result == Ok::<ActionView, InterpretError>(ActionView::Continue) && next.state.ip
            > m.ip {
            lemma_run_to_split(next.state, host, mid, end);
        }
    }
}

/// A run to where the machine stands is no step at all.
pub proof fn lemma_run_none(m: VmView, host: spec_fn(ArithOp, u64, u64) -> u64, end: int)
    requires
        m.ip >= end,
    ensures
        run_to(m, host, end) == (Stepped { state: m, result: Ok(ActionView::Continue) }),
{
    reveal(run_to);
}

/// A run over one instruction is that instruction.
pub proof fn lemma_run_one(m: VmView, host: spec_fn(ArithOp, u64, u64) -> u64, end: int)
    requires
        m.ip < end,
        hosted_step(m, host).result == Ok::<ActionView, InterpretError>(ActionView::Continue)
            ==> hosted_step(m, host).state.ip == end,
    ensures
        run_to(m, host, end) == hosted_step(m, host),
{
    reveal(run_to);
    let next = hosted_step(m, host);
    if next.result == Ok::<ActionView, InterpretError>(ActionView::Continue) {
        assert(run_to(next.state, host, end) == next);
    }
}

/// The code of a binary operator, run on its two operands, leaves what the
/// operator makes of them, or fails where it does not apply.
pub proof fn lemma_run_binary(
    m: VmView,
    host: spec_fn(ArithOp, u64, u64) -> u64,
    ty: TokenType,
    end: int,
)
    requires
        infix_of(ty) is Some,
        m.stack.len() >= 2,
        0 <= m.ip,
        end == m.ip + binary_code(ty).len(),
        end <= m.code.len(),
        forall|i: int| 0 <= i < binary_code(ty).len() ==> m.code[m.ip + i] == binary_code(ty)[i],
    ensures
        agrees(
            run_to(m, host, end),
            m,
            m.stack.subrange(0, m.stack.len() - 2),
            end,
            match apply_binary(ty, m.stack[m.stack.len() - 2], m.stack[m.stack.len() - 1], host) {
                Some(v) => Evaluated::Value(v, m.globals),
                None => Evaluated::Failed,
            },
        ),
{
    let code = binary_code(ty);
    let first = hosted_step(m, host);
    assert(m.code[m.ip + 0] == code[0]);
    if code.len() == 1 {
        lemma_run_one(m, host, end);
    } else {
        assert(m.code[m.ip + 1] == code[1]);
        lemma_run_to_split(m, host, m.ip + 1, end);
        lemma_run_one(m, host, m.ip + 1);
        if first.result == Ok::<ActionView, InterpretError>(ActionView::Continue) {
            lemma_run_one(first.state, host, end);
            let second = hosted_step(first.state, host);
            assert(first.state.stack.subrange(0, first.state.stack.len() - 1) =~= m.stack.subrange(
                0,
                m.stack.len() - 2,
            ));
        }
    }
}

/// The bytecode of an expression computes its value.
#[verifier::rlimit(100)]
pub proof fn lemma_precedence(
    s: ParserView,
    p: Precedence,
    c: ChunkView,
    m: VmView,
    host: spec_fn(ArithOp, u64, u64) -> u64,
)
    requires
        parse_precedence(s, p).error is None,
        ready(s, parse_precedence(s, p).state, c, m),
    ensures
        agrees(
            run_to(m, host, parse_precedence(s, p).state.chunk.code.len() as int),
            m,
            m.stack,
            parse_precedence(s, p).state.chunk.code.len() as int,
            eval_precedence(s, p, m.globals, host),
        ),
    decreases measure(s), 1int,
{
    let end = parse_precedence(s, p).state.chunk.code.len() as int;
    let taken = advance(s);
    let rule = prefix_of(taken.state.previous.ty).unwrap();
    let can_assign = p.rank() <= Precedence::PREC_ASSIGNMENT.rank();
    crate::progress::lemma_advance(s);
    crate::progress::lemma_parse_precedence(s, p);
    let head = prefix(taken.state, rule, can_assign);
    crate::progress::lemma_prefix(taken.state, rule, can_assign);
    crate::valid_code::lemma_prefix(taken.state, rule, can_assign);
    let tail = infix_loop(head.state, p);
    crate::valid_code::lemma_infix_loop(head.state, p);
    assert(parse_precedence(s, p).state == tail.state);
    crate::valid_code::lemma_grows_trans(head.state.chunk, tail.state.chunk, c);
    let mid = head.state.chunk.code.len() as int;
    lemma_prefix(taken.state, rule, can_assign, c, m, host);
    lemma_run_to_split(m, host, mid, end);
    let first = run_to(m, host, mid);
    match eval_prefix(taken.state, rule, can_assign, m.globals, host) {
        Evaluated::Failed => {},
        Evaluated::Value(v, g) => {
            if first.result == Ok::<ActionView, InterpretError>(ActionView::Continue) {
                assert(first.state.stack.last() == v);
                assert(first.state.stack.subrange(0, first.state.stack.len() - 1) =~= m.stack);
                lemma_infix(head.state, p, c, first.state, host);
            }
        },
    }
}

/// The value of a prefix operator applied to a value.
pub open spec fn apply_unary(ty: TokenType, v: ValueView) -> Option<ValueView> {
    if ty == TokenType::TOKEN_MINUS {
        negation(v)
    } else {
        Some(ValueView::Bool(falsy(v)))
    }
}

/// `OP_NEGATE` and `OP_NOT`, run on a value, leave what the operator makes
/// of it, or fail where it does not apply.
pub proof fn lemma_run_unary(m: VmView, host: spec_fn(ArithOp, u64, u64) -> u64, ty: TokenType)
    requires
        ty == TokenType::TOKEN_MINUS || ty == TokenType::TOKEN_BANG,
        m.stack.len() >= 1,
        0 <= m.ip < m.code.len(),
        m.code[m.ip] == (if ty == TokenType::TOKEN_MINUS {
            OP_NEGATE
        } else {
            OP_NOT
        }),
    ensures
        agrees(
            run_to(m, host, m.ip + 1),
            m,
            m.stack.subrange(0, m.stack.len() - 1),
            m.ip + 1,
            match apply_unary(ty, m.stack.last()) {
                Some(v) => Evaluated::Value(v, m.globals),
                None => Evaluated::Failed,
            },
        ),
{
    lemma_run_one(m, host, m.ip + 1);
}

/// The opcode of a literal pushes the literal.
pub proof fn lemma_run_literal(m: VmView, host: spec_fn(ArithOp, u64, u64) -> u64, ty: TokenType)
    requires
        ty == TokenType::TOKEN_FALSE || ty == TokenType::TOKEN_TRUE || ty == TokenType::TOKEN_NIL,
        0 <= m.ip < m.code.len(),
        m.code[m.ip] == (if ty == TokenType::TOKEN_FALSE {
            OP_FALSE
        } else if ty == TokenType::TOKEN_TRUE {
            OP_TRUE
        } else {
            OP_NIL
        }),
    ensures
        agrees(
            run_to(m, host, m.ip + 1),
            m,
            m.stack,
            m.ip + 1,
            Evaluated::Value(
                match ty {
                    TokenType::TOKEN_TRUE => ValueView::Bool(true),
                    TokenType::TOKEN_FALSE => ValueView::Bool(false),
                    _ => ValueView::Nil,
                },
                m.globals,
            ),
        ),
{
    lemma_run_one(m, host, m.ip + 1);
}

/// What a prefix operator makes of the outcome of evaluating its operand.
pub open spec fn negated_of(ty: TokenType, operand: Evaluated) -> Evaluated {
    match operand {
        Evaluated::Failed => Evaluated::Failed,
        Evaluated::Value(v, g) => match apply_unary(ty, v) {
            Some(r) => Evaluated::Value(r, g),
            None => Evaluated::Failed,
        },
    }
}

/// A run that computes an operand and goes on over `OP_NEGATE` or `OP_NOT`
/// computes what the operator makes of the operand.
pub proof fn lemma_then_unary(
    m: VmView,
    host: spec_fn(ArithOp, u64, u64) -> u64,
    mid: int,
    ty: TokenType,
    operand: Evaluated,
)
    requires
        agrees(run_to(m, host, mid), m, m.stack, mid, operand),
        ty == TokenType::TOKEN_MINUS || ty == TokenType::TOKEN_BANG,
        0 <= mid < m.code.len(),
        m.code[mid] == (if ty == TokenType::TOKEN_MINUS {
            OP_NEGATE
        } else {
            OP_NOT
        }),
    ensures
        agrees(run_to(m, host, mid + 1), m, m.stack, mid + 1, negated_of(ty, operand)),
{
    lemma_run_to_split(m, host, mid, mid + 1);
    let first = run_to(m, host, mid);
    if first.result == Ok::<ActionView, InterpretError>(ActionView::Continue) && operand is Value {
        lemma_run_unary(first.state, host, ty);
        assert(first.state.stack.subrange(0, first.state.stack.len() - 1) =~= m.stack);
    }
}

/// The bytecode of a prefix operator and its operand computes the value.
pub proof fn lemma_unary(
    s: ParserView,
    c: ChunkView,
    m: VmView,
    host: spec_fn(ArithOp, u64, u64) -> u64,
)
    requires
        crate::compiler::unary(s).error is None,
        s.previous.ty == TokenType::TOKEN_MINUS || s.previous.ty == TokenType::TOKEN_BANG,
        ready(s, crate::compiler::unary(s).state, c, m),
    ensures
        agrees(
            run_to(m, host, crate::compiler::unary(s).state.chunk.code.len() as int),
            m,
            m.stack,
            crate::compiler::unary(s).state.chunk.code.len() as int,
            negated_of(
                s.previous.ty,
                eval_precedence(s, Precedence::PREC_UNARY, m.globals, host),
            ),
        ),
    decreases measure(s), 4int,
{
    let after = crate::compiler::unary(s).state;
    let operand = parse_precedence(s, Precedence::PREC_UNARY);
    let mid = operand.state.chunk.code.len() as int;
    crate::valid_code::lemma_parse_precedence(s, Precedence::PREC_UNARY);
    assert(grows(operand.state.chunk, after.chunk));
    crate::valid_code::lemma_grows_trans(operand.state.chunk, after.chunk, c);
    lemma_precedence(s, Precedence::PREC_UNARY, c, m, host);
    assert(c.code[mid] == after.chunk.code[mid]);
    lemma_then_unary(
        m,
        host,
        mid,
        s.previous.ty,
        eval_precedence(s, Precedence::PREC_UNARY, m.globals, host),
    );
}

/// The bytecode of a prefix expression computes its value.
pub proof fn lemma_prefix(
    s: ParserView,
    rule: PrefixRule,
    can_assign: bool,
    c: ChunkView,
    m: VmView,
    host: spec_fn(ArithOp, u64, u64) -> u64,
)
    requires
        prefix(s, rule, can_assign).error is None,
        prefix_of(s.previous.ty) == Some(rule),
        ready(s, prefix(s, rule, can_assign).state, c, m),
    ensures
        agrees(
            run_to(m, host, prefix(s, rule, can_assign).state.chunk.code.len() as int),
            m,
            m.stack,
            prefix(s, rule, can_assign).state.chunk.code.len() as int,
            eval_prefix(s, rule, can_assign, m.globals, host),
        ),
    decreases measure(s), 5int,
{
    let after = prefix(s, rule, can_assign).state;
    let start = s.chunk.code.len() as int;
    match rule {
        PrefixRule::Grouping => {
            lemma_precedence(s, Precedence::PREC_ASSIGNMENT, c, m, host);
        },
        PrefixRule::Unary => {
            lemma_unary(s, c, m, host);
        },
        PrefixRule::Variable => {
            lemma_variable(s, s.previous, can_assign, c, m, host);
        },
        PrefixRule::String => {
            let value = ValueView::Str(s.previous.raw.subrange(1, s.previous.raw.len() - 1));
            lemma_run_constant(s, value, c, m, host);
        },
        PrefixRule::Number => {
            lemma_run_constant(
                ParserView { used: s.used + 1, ..s },
                ValueView::Number(s.numbers[s.used]),
                c,
                m,
                host,
            );
        },
        PrefixRule::Literal => {
            assert(c.code[start] == after.chunk.code[start]);
            lemma_run_literal(m, host, s.previous.ty);
        },
    }
}

/// `OP_CONSTANT` pushes the constant that its operand selects.
pub proof fn lemma_run_load(m: VmView, host: spec_fn(ArithOp, u64, u64) -> u64)
    requires
        0 <= m.ip,
        m.ip + 1 < m.code.len(),
        m.code[m.ip] == OP_CONSTANT,
        m.code[m.ip + 1] < m.constants.len(),
    ensures
        agrees(
            run_to(m, host, m.ip + 2),
            m,
            m.stack,
            m.ip + 2,
            Evaluated::Value(m.constants[m.code[m.ip + 1] as int], m.globals),
        ),
{
    lemma_run_one(m, host, m.ip + 2);
}

/// `OP_GET_GLOBAL` pushes the value of the global that its operand names, or
/// fails where there is none.
pub proof fn lemma_run_get(m: VmView, host: spec_fn(ArithOp, u64, u64) -> u64, name: Seq<char>)
    requires
        0 <= m.ip,
        m.ip + 1 < m.code.len(),
        m.code[m.ip] == OP_GET_GLOBAL,
        m.code[m.ip + 1] < m.constants.len(),
        m.constants[m.code[m.ip + 1] as int] == ValueView::Str(name),
    ensures
        agrees(
            run_to(m, host, m.ip + 2),
            m,
            m.stack,
            m.ip + 2,
            if m.globals.contains_key(name) {
                Evaluated::Value(m.globals[name], m.globals)
            } else {
                Evaluated::Failed
            },
        ),
{
    lemma_run_one(m, host, m.ip + 2);
}

/// `OP_SET_GLOBAL` stores the value on top of the stack in the global that
/// its operand names and leaves it on the stack, or fails where there is no
/// such global.
pub proof fn lemma_run_set(m: VmView, host: spec_fn(ArithOp, u64, u64) -> u64, name: Seq<char>)
    requires
        0 <= m.ip,
        m.ip + 1 < m.code.len(),
        m.code[m.ip] == OP_SET_GLOBAL,
        m.code[m.ip + 1] < m.constants.len(),
        m.constants[m.code[m.ip + 1] as int] == ValueView::Str(name),
        m.stack.len() >= 1,
    ensures
        agrees(
            run_to(m, host, m.ip + 2),
            m,
            m.stack.subrange(0, m.stack.len() - 1),
            m.ip + 2,
            if m.globals.contains_key(name) {
                Evaluated::Value(m.stack.last(), m.globals.insert(name, m.stack.last()))
            } else {
                Evaluated::Failed
            },
        ),
{
    lemma_run_one(m, host, m.ip + 2);
    assert(m.stack.subrange(0, m.stack.len() - 1).push(m.stack.last()) =~= m.stack);
}

/// The chunk that is run holds a constant and the instruction that loads
/// it where the compiler has emitted them.
pub proof fn lemma_run_constant(
    s: ParserView,
    value: ValueView,
    c: ChunkView,
    m: VmView,
    host: spec_fn(ArithOp, u64, u64) -> u64,
)
    requires
        emit_constant(s, value).error is None,
        grows(emit_constant(s, value).state.chunk, c),
        holds(m, c, s.chunk.code.len() as int),
    ensures
        agrees(
            run_to(m, host, emit_constant(s, value).state.chunk.code.len() as int),
            m,
            m.stack,
            emit_constant(s, value).state.chunk.code.len() as int,
            Evaluated::Value(value, m.globals),
        ),
{
    let after = emit_constant(s, value).state;
    let start = s.chunk.code.len() as int;
    let index = s.chunk.constants.len() as int;
    assert(c.code[start] == after.chunk.code[start]);
    assert(c.code[start + 1] == after.chunk.code[start + 1]);
    assert(c.constants[index] == after.chunk.constants[index]);
    lemma_run_load(m, host);
}

/// What assigning to a global makes of the outcome of evaluating the value:
/// the value itself, stored under the name, or a failure where no global of
/// that name is defined.
pub open spec fn assigned(name: Seq<char>, value: Evaluated) -> Evaluated {
    match value {
        Evaluated::Failed => Evaluated::Failed,
        Evaluated::Value(v, g) => if g.contains_key(name) {
            Evaluated::Value(v, g.insert(name, v))
        } else {
            Evaluated::Failed
        },
    }
}

/// A run that computes a value and goes on over `OP_SET_GLOBAL` assigns the
/// value.
pub proof fn lemma_then_set(
    m: VmView,
    host: spec_fn(ArithOp, u64, u64) -> u64,
    mid: int,
    name: Seq<char>,
    value: Evaluated,
)
    requires
        agrees(run_to(m, host, mid), m, m.stack, mid, value),
        0 <= mid,
        mid + 1 < m.code.len(),
        m.code[mid] == OP_SET_GLOBAL,
        m.code[mid + 1] < m.constants.len(),
        m.constants[m.code[mid + 1] as int] == ValueView::Str(name),
    ensures
        agrees(run_to(m, host, mid + 2), m, m.stack, mid + 2, assigned(name, value)),
{
    lemma_run_to_split(m, host, mid, mid + 2);
    let first = run_to(m, host, mid);
    if first.result == Ok::<ActionView, InterpretError>(ActionView::Continue) && value is Value {
        lemma_run_set(first.state, host, name);
        assert(first.state.stack.subrange(0, first.state.stack.len() - 1) =~= m.stack);
    }
}

/// The bytecode of a variable, or of an assignment to it, computes its
/// value.
#[verifier::rlimit(50)]
pub proof fn lemma_variable(
    s: ParserView,
    name: TokenView,
    can_assign: bool,
    c: ChunkView,
    m: VmView,
    host: spec_fn(ArithOp, u64, u64) -> u64,
)
    requires
        named_variable(s, name, can_assign).error is None,
        ready(s, named_variable(s, name, can_assign).state, c, m),
    ensures
        agrees(
            run_to(m, host, named_variable(s, name, can_assign).state.chunk.code.len() as int),
            m,
            m.stack,
            named_variable(s, name, can_assign).state.chunk.code.len() as int,
            eval_variable(s, name, can_assign, m.globals, host),
        ),
    decreases measure(s), 3int,
{
    let after = named_variable(s, name, can_assign).state;
    let start = s.chunk.code.len() as int;
    let named = add_constant(s, ValueView::Str(name.raw));
    let index = s.chunk.constants.len() as int;
    crate::valid_code::lemma_add_constant(s, ValueView::Str(name.raw));
    crate::progress::lemma_named_variable(s, name, can_assign);
    if can_assign && s.current.ty == TokenType::TOKEN_EQUAL {
        let taken = advance(named.state);
        let value = expression(taken.state);
        let mid = value.state.chunk.code.len() as int;
        crate::progress::lemma_advance(named.state);
        crate::valid_code::lemma_parse_precedence(taken.state, Precedence::PREC_ASSIGNMENT);
        assert(grows(value.state.chunk, after.chunk));
        crate::valid_code::lemma_grows_trans(value.state.chunk, after.chunk, c);
        lemma_precedence(taken.state, Precedence::PREC_ASSIGNMENT, c, m, host);
        assert(c.code[mid] == after.chunk.code[mid]);
        assert(c.code[mid + 1] == after.chunk.code[mid + 1]);
        assert(c.constants[index] == after.chunk.constants[index]);
        assert(after.chunk.constants[index] == value.state.chunk.constants[index]);
        assert(value.state.chunk.constants[index] == named.state.chunk.constants[index]);
        lemma_then_set(
            m,
            host,
            mid,
            name.raw,
            eval_precedence(taken.state, Precedence::PREC_ASSIGNMENT, m.globals, host),
        );
    } else {
        assert(c.code[start] == after.chunk.code[start]);
        assert(c.code[start + 1] == after.chunk.code[start + 1]);
        assert(c.constants[index] == after.chunk.constants[index]);
        lemma_run_get(m, host, name.raw);
    }
}

/// What an operator makes of the value on its left and of the outcome of
/// evaluating its right operand.
pub open spec fn applied_to(
    ty: TokenType,
    left: ValueView,
    right: Evaluated,
    host: spec_fn(ArithOp, u64, u64) -> u64,
) -> Evaluated {
    match right {
        Evaluated::Failed => Evaluated::Failed,
        Evaluated::Value(r, g) => match apply_binary(ty, left, r, host) {
            Some(v) => Evaluated::Value(v, g),
            None => Evaluated::Failed,
        },
    }
}

/// A run that computes a right operand and goes on over the code of a
/// binary operator computes what the operator makes of the value that was on
/// top of the stack and of the operand.
pub proof fn lemma_then_binary(
    m: VmView,
    host: spec_fn(ArithOp, u64, u64) -> u64,
    mid: int,
    ty: TokenType,
    right: Evaluated,
)
    requires
        agrees(run_to(m, host, mid), m, m.stack, mid, right),
        infix_of(ty) is Some,
        m.stack.len() > 0,
        0 <= mid,
        mid + binary_code(ty).len() <= m.code.len(),
        forall|i: int| 0 <= i < binary_code(ty).len() ==> m.code[mid + i] == binary_code(ty)[i],
    ensures
        agrees(
            run_to(m, host, mid + binary_code(ty).len()),
            m,
            m.stack.subrange(0, m.stack.len() - 1),
            mid + binary_code(ty).len(),
            applied_to(ty, m.stack.last(), right, host),
        ),
{
    let end = mid + binary_code(ty).len();
    lemma_run_to_split(m, host, mid, end);
    let first = run_to(m, host, mid);
    if first.result == Ok::<ActionView, InterpretError>(ActionView::Continue) {
        match right {
            Evaluated::Failed => {},
            Evaluated::Value(r, g) => {
                let top = first.state;
                assert(top.stack == m.stack.push(r));
                assert(top.stack[top.stack.len() - 2] == m.stack.last());
                assert(top.stack[top.stack.len() - 1] == r);
                assert(top.stack.subrange(0, top.stack.len() - 2) =~= m.stack.subrange(
                    0,
                    m.stack.len() - 1,
                ));
                lemma_run_binary(top, host, ty, end);
            },
        }
    }
}

/// The bytecode of a binary operator and its right operand, run with the left
/// operand on top of the stack, computes what the operator makes of the two.
pub proof fn lemma_operator(
    s: ParserView,
    c: ChunkView,
    m: VmView,
    host: spec_fn(ArithOp, u64, u64) -> u64,
)
    requires
        binary(s).error is None,
        infix_of(s.previous.ty) is Some,
        ready(s, binary(s).state, c, m),
        m.stack.len() > 0,
    ensures
        agrees(
            run_to(m, host, binary(s).state.chunk.code.len() as int),
            m,
            m.stack.subrange(0, m.stack.len() - 1),
            binary(s).state.chunk.code.len() as int,
            applied_to(
                s.previous.ty,
                m.stack.last(),
                eval_precedence(s, next_level(precedence_of(s.previous.ty)), m.globals, host),
                host,
            ),
        ),
    decreases measure(s), 4int,
{
    let op = s.previous.ty;
    let level = next_level(precedence_of(op));
    let operand = parse_precedence(s, level);
    let applied = binary(s);
    let mid = operand.state.chunk.code.len() as int;
    crate::valid_code::lemma_parse_precedence(s, level);
    crate::valid_code::lemma_emit_binary(operand.state, op);
    crate::valid_code::lemma_grows_trans(operand.state.chunk, applied.state.chunk, c);
    lemma_precedence(s, level, c, m, host);
    lemma_binary_code(operand.state, op, c);
    lemma_then_binary(m, host, mid, op, eval_precedence(s, level, m.globals, host));
}

/// The bytecode of the operators that follow an operand, run with the
/// operand on top of the stack, computes the value of the whole.
#[verifier::rlimit(50)]
pub proof fn lemma_infix(
    s: ParserView,
    p: Precedence,
    c: ChunkView,
    m: VmView,
    host: spec_fn(ArithOp, u64, u64) -> u64,
)
    requires
        infix_loop(s, p).error is None,
        ready(s, infix_loop(s, p).state, c, m),
        m.stack.len() > 0,
    ensures
        agrees(
            run_to(m, host, infix_loop(s, p).state.chunk.code.len() as int),
            m,
            m.stack.subrange(0, m.stack.len() - 1),
            infix_loop(s, p).state.chunk.code.len() as int,
            eval_infix_loop(s, p, m.stack.last(), m.globals, host),
        ),
    decreases measure(s), 6int,
{
    let base = m.stack.subrange(0, m.stack.len() - 1);
    let left = m.stack.last();
    let end = infix_loop(s, p).state.chunk.code.len() as int;
    if p.rank() <= precedence_of(s.current.ty).rank() {
        let taken = advance(s);
        let op = taken.state.previous.ty;
        let level = next_level(precedence_of(op));
        let applied = binary(taken.state);
        crate::progress::lemma_advance(s);
        crate::progress::lemma_binary(taken.state);
        crate::valid_code::lemma_binary(taken.state);
        crate::valid_code::lemma_infix_loop(applied.state, p);
        assert(infix_loop(s, p) == infix_loop(applied.state, p));
        crate::valid_code::lemma_grows_trans(applied.state.chunk, infix_loop(s, p).state.chunk, c);
        let done = applied.state.chunk.code.len() as int;
        lemma_operator(taken.state, c, m, host);
        lemma_run_to_split(m, host, done, end);
        let first = run_to(m, host, done);
        if first.result == Ok::<ActionView, InterpretError>(ActionView::Continue) {
            match applied_to(
                op,
                left,
                eval_precedence(taken.state, level, m.globals, host),
                host,
            ) {
                Evaluated::Failed => {},
                Evaluated::Value(v, g) => {
                    assert(first.state.stack.subrange(0, first.state.stack.len() - 1) =~= base);
                    lemma_infix(applied.state, p, c, first.state, host);
                },
            }
        }
    } else {
        lemma_run_none(m, host, end);
        assert(base.push(left) =~= m.stack);
    }
}

/// The chunk that is run holds the code of a binary operator where the
/// compiler has emitted it.
pub proof fn lemma_binary_code(s: ParserView, ty: TokenType, c: ChunkView)
    requires
        grows(emit_all(s, binary_code(ty)).chunk, c),
    ensures
        s.chunk.code.len() + binary_code(ty).len() <= c.code.len(),
        emit_all(s, binary_code(ty)).chunk.code.len() == s.chunk.code.len() + binary_code(
            ty,
        ).len(),
        forall|i: int|
            0 <= i < binary_code(ty).len() ==> c.code[s.chunk.code.len() + i] == binary_code(
                ty,
            )[i],
{
    let code = binary_code(ty);
    let after = emit_all(s, code).chunk;
    let start = s.chunk.code.len() as int;
    reveal_with_fuel(emit_all, 3);
    if code.len() == 1 {
        assert(code.drop_last() =~= Seq::<u8>::empty());
        assert(after.code[start] == code[0]);
        assert(c.code[start] == after.code[start]);
    } else if code.len() == 2 {
        assert(code.drop_last() =~= seq![code[0]]);
        assert(code.drop_last().drop_last() =~= Seq::<u8>::empty());
        assert(after.code[start] == code[0]);
        assert(after.code[start + 1] == code[1]);
        assert(c.code[start] == after.code[start]);
        assert(c.code[start + 1] == after.code[start + 1]);
    }
}

/// Execution prints what evaluation gives: the machine has run up to `end`
/// and stopped there to have the text of the value printed, with the stack as
/// it was and the globals of the evaluation; where the evaluation fails, the
/// machine has stopped on a runtime error. A machine whose stack is full may
/// report that instead.
pub open spec fn prints(out: Stepped, m: VmView, end: int, e: Evaluated) -> bool {
    ||| out.result == Ok::<ActionView, InterpretError>(ActionView::Overflow)
    ||| match e {
        Evaluated::Value(v, g) => {
            &&& out.result == Ok::<ActionView, InterpretError>(ActionView::Print(text_of(v)))
            &&& out.state == (VmView { ip: end, globals: g, ..m })
        },
        Evaluated::Failed => out.result == Err::<ActionView, InterpretError>(
            InterpretError::RuntimeError,
        ),
    }
}

/// `OP_PRINT` takes the value on top of the stack and has its text printed.
pub proof fn lemma_run_print(m: VmView, host: spec_fn(ArithOp, u64, u64) -> u64)
    requires
        m.stack.len() >= 1,
        0 <= m.ip < m.code.len(),
        m.code[m.ip] == OP_PRINT,
    ensures
        run_to(m, host, m.ip + 1).result == Ok::<ActionView, InterpretError>(
            ActionView::Print(text_of(m.stack.last())),
        ),
        run_to(m, host, m.ip + 1).state == (VmView {
            ip: m.ip + 1,
            stack: m.stack.subrange(0, m.stack.len() - 1),
            ..m
        }),
{
    lemma_run_one(m, host, m.ip + 1);
}

/// A run that computes a value and goes on over `OP_PRINT` prints the
/// value.
pub proof fn lemma_then_print(
    m: VmView,
    host: spec_fn(ArithOp, u64, u64) -> u64,
    mid: int,
    value: Evaluated,
)
    requires
        agrees(run_to(m, host, mid), m, m.stack, mid, value),
        0 <= mid < m.code.len(),
        m.code[mid] == OP_PRINT,
    ensures
        prints(run_to(m, host, mid + 1), m, mid + 1, value),
{
    lemma_run_to_split(m, host, mid, mid + 1);
    let first = run_to(m, host, mid);
    if first.result == Ok::<ActionView, InterpretError>(ActionView::Continue) && value is Value {
        lemma_run_print(first.state, host);
        assert(first.state.stack.subrange(0, first.state.stack.len() - 1) =~= m.stack);
    }
}

/// The bytecode of a print statement prints the value of its expression.
pub proof fn lemma_print_statement(
    s: ParserView,
    c: ChunkView,
    m: VmView,
    host: spec_fn(ArithOp, u64, u64) -> u64,
)
    requires
        print_statement(s).error is None,
        ready(s, print_statement(s).state, c, m),
    ensures
        prints(
            run_to(m, host, print_statement(s).state.chunk.code.len() as int),
            m,
            print_statement(s).state.chunk.code.len() as int,
            eval_precedence(s, Precedence::PREC_ASSIGNMENT, m.globals, host),
        ),
{
    let after = print_statement(s).state;
    let value = expression(s);
    let mid = value.state.chunk.code.len() as int;
    crate::valid_code::lemma_parse_precedence(s, Precedence::PREC_ASSIGNMENT);
    assert(grows(value.state.chunk, after.chunk));
    crate::valid_code::lemma_grows_trans(value.state.chunk, after.chunk, c);
    lemma_precedence(s, Precedence::PREC_ASSIGNMENT, c, m, host);
    assert(c.code[mid] == after.chunk.code[mid]);
    lemma_then_print(
        m,
        host,
        mid,
        eval_precedence(s, Precedence::PREC_ASSIGNMENT, m.globals, host),
    );
}

/// A program that starts with a print statement, compiled into an empty
/// chunk and run from the start on an empty stack and with no globals, prints
/// the value of the statement's expression before anything else: the value
/// that evaluating the expression from its tokens gives, whatever the host's
/// arithmetic is.
#[verifier::rlimit(50)]
pub proof fn lemma_compiled_print(
    src: Seq<u8>,
    numbers: Seq<u64>,
    host: spec_fn(ArithOp, u64, u64) -> u64,
)
    requires
        initial(src, numbers, empty_chunk()).current.ty == TokenType::TOKEN_PRINT,
        compiled(src, numbers, empty_chunk()).error is None,
    ensures
        ({
            let expr = advance(initial(src, numbers, empty_chunk())).state;
            let end = print_statement(expr).state.chunk.code.len() as int;
            let chunk = compiled(src, numbers, empty_chunk()).state.chunk;
            let machine = VmView {
                code: chunk.code,
                constants: chunk.constants,
                ip: 0,
                stack: Seq::empty(),
                globals: Map::empty(),
            };
            prints(
                run_to(machine, host, end),
                machine,
                end,
                eval_precedence(expr, Precedence::PREC_ASSIGNMENT, Map::empty(), host),
            )
        }),
{
    reveal(declaration);
    let start = initial(src, numbers, empty_chunk());
    let expr = advance(start).state;
    let first = print_statement(expr);
    let all = program(start);
    let chunk = compiled(src, numbers, empty_chunk()).state.chunk;
    let machine = VmView {
        code: chunk.code,
        constants: chunk.constants,
        ip: 0,
        stack: Seq::empty(),
        globals: Map::empty(),
    };
    crate::scanner::lemma_scan(src, 0, 1);
    crate::progress::lemma_advance(start);
    crate::progress::lemma_print_statement(expr);
    crate::valid_code::lemma_print_statement(expr);
    assert(declaration(start) == first);
    if first.state.current.ty != TokenType::TOKEN_EOF {
        if closer(start, first.state) {
            crate::valid_code::lemma_program(first.state);
        }
    }
    assert(grows(first.state.chunk, all.state.chunk));
    assert(chunk == all.state.chunk);
    lemma_print_statement(expr, chunk, machine, host);
}

/// The chunk that holds nothing.
pub open spec fn empty_chunk() -> ChunkView {
    ChunkView { code: Seq::empty(), constants: Seq::empty(), lines: Seq::empty() }
}

} // verus!

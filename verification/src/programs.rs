//! What a program means, and that its bytecode does it.
//!
//! A program is evaluated here statement by statement, straight from its
//! tokens: each print statement adds the text of a value to the output, each
//! variable declaration defines a global, and an expression statement keeps
//! only what its assignments do. The lemmas show that the machine, running
//! the compiled program with any host, writes the same output and ends with
//! the same globals, or fails where the evaluation fails.
use crate::chunk::ChunkView;
use crate::common::{OP_DEFINE_GLOBAL, OP_NIL, OP_POP};
use crate::compiler::{
    advance, closer, compiled, consume, declaration, emit, expression, expression_statement,
    initial, measure, parse_variable, program, var_declaration, ParserView, Precedence,
};
use crate::progress::within;
use crate::scanner::TokenType;
use crate::semantics::{
    agrees, empty_chunk, eval_precedence, holds, hosted_step, lemma_precedence,
    lemma_print_statement, lemma_run_literal, lemma_run_one, lemma_run_to_split, prints, ready,
    run_to, Evaluated,
};
use crate::valid_code::{grows, valid_code};
use crate::value::{text_of, TextView, ValueView};
use crate::vm::{ActionView, ArithOp, InterpretError, Stepped, VmView};
use vstd::prelude::*;

verus! {

/// A run with what it has printed: the state that it ends in, the texts in
/// the order in which they were printed, and how it ended. It ends to
/// continue where it has reached the offset that it was to run to.
pub struct Traced {
    pub state: VmView,
    pub texts: Seq<TextView>,
    pub result: Result<ActionView, InterpretError>,
}

/// Running with a host up to offset `end`, through every print on the way:
/// the run stops only where it stands at `end` or behind it, or where an
/// instruction halts, fails or reports a full stack.
pub open spec fn trace_to(m: VmView, host: spec_fn(ArithOp, u64, u64) -> u64, end: int) -> Traced
    decreases
            (if end > m.ip {
                end - m.ip
            } else {
                0
            }),
{
    if m.ip >= end {
        Traced { state: m, texts: Seq::empty(), result: Ok(ActionView::Continue) }
    } else {
        let next = hosted_step(m, host);
        if next.state.ip > m.ip {
            match next.result {
                Ok(ActionView::Continue) => trace_to(next.state, host, end),
                Ok(ActionView::Print(text)) => {
                    let rest = trace_to(next.state, host, end);
                    Traced { texts: seq![text] + rest.texts, ..rest }
                },
                _ => Traced { state: next.state, texts: Seq::empty(), result: next.result },
            }
        } else {
            Traced { state: next.state, texts: Seq::empty(), result: next.result }
        }
    }
}

/// What evaluating statements gives: the texts printed and the globals at the
/// end, or the texts printed before a failure.
pub enum Effect {
    Done(Seq<TextView>, Map<Seq<char>, ValueView>),
    Failed(Seq<TextView>),
}

/// An effect after some texts have been printed.
pub open spec fn after(texts: Seq<TextView>, e: Effect) -> Effect {
    match e {
        Effect::Done(more, g) => Effect::Done(texts + more, g),
        Effect::Failed(more) => Effect::Failed(texts + more),
    }
}

/// What a declaration or statement does: a variable declaration defines a
/// global with the value of its initialiser, or nil without one; a print
/// statement prints the value of its expression; an expression statement
/// evaluates its expression.
pub open spec fn eval_declaration(
    s: ParserView,
    globals: Map<Seq<char>, ValueView>,
    host: spec_fn(ArithOp, u64, u64) -> u64,
) -> Effect {
    if s.current.ty == TokenType::TOKEN_VAR {
        let name = parse_variable(advance(s).state, "Expect global variable"@).state;
        quiet(defined(name.previous.raw, initial_value(name, globals, host)))
    } else if s.current.ty == TokenType::TOKEN_PRINT {
        printed(eval_precedence(advance(s).state, Precedence::PREC_ASSIGNMENT, globals, host))
    } else {
        quiet(globals_of(eval_precedence(s, Precedence::PREC_ASSIGNMENT, globals, host)))
    }
}

/// What the declarations from the current token to the end of the source do,
/// one after the other. A failure ends the evaluation.
pub open spec fn eval_program(
    s: ParserView,
    globals: Map<Seq<char>, ValueView>,
    host: spec_fn(ArithOp, u64, u64) -> u64,
) -> Effect
    decreases measure(s),
{
    let first = declaration(s);
    match eval_declaration(s, globals, host) {
        Effect::Failed(texts) => Effect::Failed(texts),
        Effect::Done(texts, g) => if first.state.current.ty != TokenType::TOKEN_EOF && closer(
            s,
            first.state,
        ) {
            after(texts, eval_program(first.state, g, host))
        } else {
            Effect::Done(texts, g)
        },
    }
}

/// The trace agrees with the effect: the machine has printed the texts of the
/// effect and, where the effect is complete, has gone on to `end` with the
/// stack as it was and the globals of the effect; where the evaluation fails,
/// the machine has stopped on a runtime error. A machine whose stack is full
/// may report that instead.
pub open spec fn performs(t: Traced, m: VmView, end: int, e: Effect) -> bool {
    ||| t.result == Ok::<ActionView, InterpretError>(ActionView::Overflow)
    ||| match e {
        Effect::Done(texts, g) => {
            &&& t.result == Ok::<ActionView, InterpretError>(ActionView::Continue)
            &&& t.texts == texts
            &&& t.state == (VmView { ip: end, globals: g, ..m })
        },
        Effect::Failed(texts) => {
            &&& t.result == Err::<ActionView, InterpretError>(InterpretError::RuntimeError)
            &&& t.texts == texts
        },
    }
}

/// A trace to `end` is a trace to an earlier offset followed by a trace from
/// where that one stopped, where it stopped to continue.
pub proof fn lemma_trace_split(
    m: VmView,
    host: spec_fn(ArithOp, u64, u64) -> u64,
    mid: int,
    end: int,
)
    requires
        mid <= end,
    ensures
        ({
            let first = trace_to(m, host, mid);
            let rest = trace_to(first.state, host, end);
            trace_to(m, host, end) == (if first.result == Ok::<ActionView, InterpretError>(
                ActionView::Continue,
            ) {
                Traced { texts: first.texts + rest.texts, ..rest }
            } else {
                first
            })
        }),
    decreases
            (if mid > m.ip {
                mid - m.ip
            } else {
                0
            }),
{
    if m.ip < mid {
        let next = hosted_step(m, host);
        if next.state.ip > m.ip {
            match next.result {
                Ok(ActionView::Continue) => {
                    lemma_trace_split(next.state, host, mid, end);
                },
                Ok(ActionView::Print(text)) => {
                    lemma_trace_split(next.state, host, mid, end);
                    let first = trace_to(next.state, host, mid);
                    let rest = trace_to(first.state, host, end);
                    assert(seq![text] + (first.texts + rest.texts) =~= (seq![text] + first.texts)
                        + rest.texts);
                },
                _ => {},
            }
        }
    } else {
        let rest = trace_to(m, host, end);
        assert(Seq::<TextView>::empty() + rest.texts =~= rest.texts);
    }
}

/// A run that prints nothing is its own trace, and a run that ends in a print
/// at `end` is a trace with that one text.
pub proof fn lemma_trace_of_run(m: VmView, host: spec_fn(ArithOp, u64, u64) -> u64, end: int)
    ensures
        ({
            let out = run_to(m, host, end);
            let t = trace_to(m, host, end);
            match out.result {
                Ok(ActionView::Print(text)) => out.state.ip >= end ==> t == (Traced {
                    state: out.state,
                    texts: seq![text],
                    result: Ok(ActionView::Continue),
                }),
                _ => t == (Traced { state: out.state, texts: Seq::empty(), result: out.result }),
            }
        }),
    decreases
            (if end > m.ip {
                end - m.ip
            } else {
                0
            }),
{
    reveal(run_to);
    if m.ip < end {
        let next = hosted_step(m, host);
        if next.result == Ok::<ActionView, InterpretError>(ActionView::Continue) && next.state.ip
            > m.ip {
            lemma_trace_of_run(next.state, host, end);
        } else if next.result is Ok && next.result->Ok_0 is Print && next.state.ip >= end {
            assert(seq![next.result->Ok_0->Print_0] + Seq::<TextView>::empty() =~= seq![
                next.result->Ok_0->Print_0,
            ]);
        }
    }
}

/// The run has done what a statement without output does: it has gone on to
/// `end` with the stack as it was and the given globals; or, where there are
/// no globals to end with, it has stopped on a runtime error. A machine whose
/// stack is full may report that instead.
pub open spec fn settled(
    out: Stepped,
    m: VmView,
    end: int,
    globals: Option<Map<Seq<char>, ValueView>>,
) -> bool {
    ||| out.result == Ok::<ActionView, InterpretError>(ActionView::Overflow)
    ||| match globals {
        Some(g) => {
            &&& out.result == Ok::<ActionView, InterpretError>(ActionView::Continue)
            &&& out.state == (VmView { ip: end, globals: g, ..m })
        },
        None => out.result == Err::<ActionView, InterpretError>(InterpretError::RuntimeError),
    }
}

/// The globals that an evaluation ends with.
pub open spec fn globals_of(value: Evaluated) -> Option<Map<Seq<char>, ValueView>> {
    match value {
        Evaluated::Value(v, g) => Some(g),
        Evaluated::Failed => None,
    }
}

/// The globals after a global has been defined with the value of an
/// evaluation.
pub open spec fn defined(name: Seq<char>, value: Evaluated) -> Option<Map<Seq<char>, ValueView>> {
    match value {
        Evaluated::Value(v, g) => Some(g.insert(name, v)),
        Evaluated::Failed => None,
    }
}

/// A run that computes a value and goes on over `OP_POP` leaves the stack as
/// it was.
pub proof fn lemma_then_pop(
    m: VmView,
    host: spec_fn(ArithOp, u64, u64) -> u64,
    mid: int,
    value: Evaluated,
)
    requires
        agrees(run_to(m, host, mid), m, m.stack, mid, value),
        0 <= mid < m.code.len(),
        m.code[mid] == OP_POP,
    ensures
        settled(run_to(m, host, mid + 1), m, mid + 1, globals_of(value)),
{
    lemma_run_to_split(m, host, mid, mid + 1);
    let first = run_to(m, host, mid);
    if first.result == Ok::<ActionView, InterpretError>(ActionView::Continue) && value is Value {
        lemma_run_one(first.state, host, mid + 1);
        assert(first.state.stack.subrange(0, first.state.stack.len() - 1) =~= m.stack);
    }
}

/// A run that computes a value and goes on over `OP_DEFINE_GLOBAL` defines
/// the global with the value and leaves the stack as it was.
pub proof fn lemma_then_define(
    m: VmView,
    host: spec_fn(ArithOp, u64, u64) -> u64,
    mid: int,
    name: Seq<char>,
    value: Evaluated,
)
    requires
        agrees(run_to(m, host, mid), m, m.stack, mid, value),
        0 <= mid,
        mid + 1 < m.code.len(),
        m.code[mid] == OP_DEFINE_GLOBAL,
        m.code[mid + 1] < m.constants.len(),
        m.constants[m.code[mid + 1] as int] == ValueView::Str(name),
    ensures
        settled(run_to(m, host, mid + 2), m, mid + 2, defined(name, value)),
{
    lemma_run_to_split(m, host, mid, mid + 2);
    let first = run_to(m, host, mid);
    if first.result == Ok::<ActionView, InterpretError>(ActionView::Continue) && value is Value {
        lemma_run_one(first.state, host, mid + 2);
        assert(first.state.stack.subrange(0, first.state.stack.len() - 1) =~= m.stack);
    }
}

/// The bytecode of an expression statement evaluates the expression and
/// drops its value.
pub proof fn lemma_expression_statement(
    s: ParserView,
    c: ChunkView,
    m: VmView,
    host: spec_fn(ArithOp, u64, u64) -> u64,
)
    requires
        expression_statement(s).error is None,
        ready(s, expression_statement(s).state, c, m),
    ensures
        settled(
            run_to(m, host, expression_statement(s).state.chunk.code.len() as int),
            m,
            expression_statement(s).state.chunk.code.len() as int,
            globals_of(eval_precedence(s, Precedence::PREC_ASSIGNMENT, m.globals, host)),
        ),
{
    let after = expression_statement(s).state;
    let value = expression(s);
    let mid = value.state.chunk.code.len() as int;
    crate::valid_code::lemma_parse_precedence(s, Precedence::PREC_ASSIGNMENT);
    assert(grows(value.state.chunk, after.chunk));
    crate::valid_code::lemma_grows_trans(value.state.chunk, after.chunk, c);
    lemma_precedence(s, Precedence::PREC_ASSIGNMENT, c, m, host);
    assert(c.code[mid] == after.chunk.code[mid]);
    lemma_then_pop(m, host, mid, eval_precedence(s, Precedence::PREC_ASSIGNMENT, m.globals, host));
}

/// The value that a declared variable starts with: that of the initialiser,
/// or nil without one.
pub open spec fn initial_value(
    name: ParserView,
    globals: Map<Seq<char>, ValueView>,
    host: spec_fn(ArithOp, u64, u64) -> u64,
) -> Evaluated {
    if name.current.ty == TokenType::TOKEN_EQUAL {
        eval_precedence(advance(name).state, Precedence::PREC_ASSIGNMENT, globals, host)
    } else {
        Evaluated::Value(ValueView::Nil, globals)
    }
}

/// The bytecode of the initialiser of a declared variable, or the `OP_NIL`
/// that stands for a missing one, computes the value that the variable starts
/// with.
pub proof fn lemma_initialiser(
    n: ParserView,
    after: ParserView,
    c: ChunkView,
    m: VmView,
    host: spec_fn(ArithOp, u64, u64) -> u64,
)
    requires
        within(n),
        valid_code(n.chunk),
        holds(m, c, n.chunk.code.len() as int),
        grows(after.chunk, c),
        n.current.ty == TokenType::TOKEN_EQUAL ==> advance(n).error is None && expression(
            advance(n).state,
        ).error is None && after == expression(advance(n).state).state,
        n.current.ty != TokenType::TOKEN_EQUAL ==> after == emit(n, OP_NIL),
    ensures
        agrees(
            run_to(m, host, after.chunk.code.len() as int),
            m,
            m.stack,
            after.chunk.code.len() as int,
            initial_value(n, m.globals, host),
        ),
{
    if n.current.ty == TokenType::TOKEN_EQUAL {
        crate::progress::lemma_advance(n);
        lemma_precedence(advance(n).state, Precedence::PREC_ASSIGNMENT, c, m, host);
    } else {
        let start = n.chunk.code.len() as int;
        assert(c.code[start] == after.chunk.code[start]);
        lemma_run_literal(m, host, TokenType::TOKEN_NIL);
    }
}

/// The bytecode of a variable declaration defines the global.
#[verifier::rlimit(50)]
pub proof fn lemma_var_declaration(
    s: ParserView,
    c: ChunkView,
    m: VmView,
    host: spec_fn(ArithOp, u64, u64) -> u64,
)
    requires
        var_declaration(s).error is None,
        ready(s, var_declaration(s).state, c, m),
    ensures
        settled(
            run_to(m, host, var_declaration(s).state.chunk.code.len() as int),
            m,
            var_declaration(s).state.chunk.code.len() as int,
            defined(
                parse_variable(s, "Expect global variable"@).state.previous.raw,
                initial_value(
                    parse_variable(s, "Expect global variable"@).state,
                    m.globals,
                    host,
                ),
            ),
        ),
{
    let after = var_declaration(s).state;
    let taken = consume(s, TokenType::TOKEN_IDENTIFIER, Some("Expect global variable"@));
    let n = parse_variable(s, "Expect global variable"@).state;
    let index = n.chunk.constants.len() - 1;
    crate::progress::lemma_advance(s);
    crate::progress::lemma_parse_variable(s, "Expect global variable"@);
    crate::valid_code::lemma_add_constant(taken.state, ValueView::Str(taken.state.previous.raw));
    let value = if n.current.ty == TokenType::TOKEN_EQUAL {
        expression(advance(n).state)
    } else {
        crate::compiler::done(emit(n, OP_NIL))
    };
    let mid = value.state.chunk.code.len() as int;
    if n.current.ty == TokenType::TOKEN_EQUAL {
        crate::valid_code::lemma_parse_precedence(advance(n).state, Precedence::PREC_ASSIGNMENT);
    } else {
        crate::valid_code::lemma_emit(n, OP_NIL);
    }
    assert(grows(value.state.chunk, after.chunk));
    crate::valid_code::lemma_grows_trans(value.state.chunk, after.chunk, c);
    lemma_initialiser(n, value.state, c, m, host);
    assert(c.code[mid] == after.chunk.code[mid]);
    assert(c.code[mid + 1] == after.chunk.code[mid + 1]);
    assert(c.constants[index] == after.chunk.constants[index]);
    assert(after.chunk.constants[index] == value.state.chunk.constants[index]);
    assert(value.state.chunk.constants[index] == n.chunk.constants[index]);
    lemma_then_define(m, host, mid, n.previous.raw, initial_value(n, m.globals, host));
}

/// The effect of a statement that prints nothing.
pub open spec fn quiet(globals: Option<Map<Seq<char>, ValueView>>) -> Effect {
    match globals {
        Some(g) => Effect::Done(Seq::empty(), g),
        None => Effect::Failed(Seq::empty()),
    }
}

/// The effect of printing the value of an evaluation.
pub open spec fn printed(value: Evaluated) -> Effect {
    match value {
        Evaluated::Value(v, g) => Effect::Done(seq![text_of(v)], g),
        Evaluated::Failed => Effect::Failed(Seq::empty()),
    }
}

/// A run without output is a trace without texts.
pub proof fn lemma_trace_quiet(
    m: VmView,
    host: spec_fn(ArithOp, u64, u64) -> u64,
    end: int,
    globals: Option<Map<Seq<char>, ValueView>>,
)
    requires
        settled(run_to(m, host, end), m, end, globals),
    ensures
        performs(trace_to(m, host, end), m, end, quiet(globals)),
{
    lemma_trace_of_run(m, host, end);
}

/// A run that ends in a print is a trace with the text printed.
pub proof fn lemma_trace_printed(
    m: VmView,
    host: spec_fn(ArithOp, u64, u64) -> u64,
    end: int,
    value: Evaluated,
)
    requires
        prints(run_to(m, host, end), m, end, value),
    ensures
        performs(trace_to(m, host, end), m, end, printed(value)),
{
    lemma_trace_of_run(m, host, end);
}

/// The bytecode of a declaration or statement does what the declaration or
/// statement does.
pub proof fn lemma_declaration(
    s: ParserView,
    c: ChunkView,
    m: VmView,
    host: spec_fn(ArithOp, u64, u64) -> u64,
)
    requires
        declaration(s).error is None,
        ready(s, declaration(s).state, c, m),
    ensures
        performs(
            trace_to(m, host, declaration(s).state.chunk.code.len() as int),
            m,
            declaration(s).state.chunk.code.len() as int,
            eval_declaration(s, m.globals, host),
        ),
{
    reveal(declaration);
    let end = declaration(s).state.chunk.code.len() as int;
    crate::progress::lemma_advance(s);
    if s.current.ty == TokenType::TOKEN_VAR {
        let t = advance(s).state;
        let n = parse_variable(t, "Expect global variable"@).state;
        lemma_var_declaration(t, c, m, host);
        lemma_trace_quiet(
            m,
            host,
            end,
            defined(n.previous.raw, initial_value(n, m.globals, host)),
        );
    } else if s.current.ty == TokenType::TOKEN_PRINT {
        let t = advance(s).state;
        lemma_print_statement(t, c, m, host);
        lemma_trace_printed(
            m,
            host,
            end,
            eval_precedence(t, Precedence::PREC_ASSIGNMENT, m.globals, host),
        );
    } else {
        lemma_expression_statement(s, c, m, host);
        lemma_trace_quiet(
            m,
            host,
            end,
            globals_of(eval_precedence(s, Precedence::PREC_ASSIGNMENT, m.globals, host)),
        );
    }
}

/// The bytecode of the declarations up to the end of the source does what
/// the declarations do, one after the other.
pub proof fn lemma_program(
    s: ParserView,
    c: ChunkView,
    m: VmView,
    host: spec_fn(ArithOp, u64, u64) -> u64,
)
    requires
        program(s).error is None,
        ready(s, program(s).state, c, m),
    ensures
        performs(
            trace_to(m, host, program(s).state.chunk.code.len() as int),
            m,
            program(s).state.chunk.code.len() as int,
            eval_program(s, m.globals, host),
        ),
    decreases measure(s),
{
    let end = program(s).state.chunk.code.len() as int;
    let first = declaration(s);
    let mid = first.state.chunk.code.len() as int;
    crate::progress::lemma_declaration(s);
    crate::valid_code::lemma_declaration(s);
    if first.state.current.ty != TokenType::TOKEN_EOF && closer(s, first.state) {
        crate::valid_code::lemma_program(first.state);
        crate::valid_code::lemma_grows_trans(first.state.chunk, program(s).state.chunk, c);
        lemma_declaration(s, c, m, host);
        lemma_trace_split(m, host, mid, end);
        let head = trace_to(m, host, mid);
        match eval_declaration(s, m.globals, host) {
            Effect::Failed(texts) => {},
            Effect::Done(texts, g) => {
                if head.result == Ok::<ActionView, InterpretError>(ActionView::Continue) {
                    lemma_program(first.state, c, head.state, host);
                }
            },
        }
    } else {
        lemma_declaration(s, c, m, host);
    }
}

/// What a source does: nothing where it holds no token, else what its
/// declarations do.
pub open spec fn eval_source(
    src: Seq<u8>,
    numbers: Seq<u64>,
    host: spec_fn(ArithOp, u64, u64) -> u64,
) -> Effect {
    let start = initial(src, numbers, empty_chunk());
    if start.current.ty == TokenType::TOKEN_EOF {
        Effect::Done(Seq::empty(), Map::empty())
    } else {
        eval_program(start, Map::empty(), host)
    }
}

/// A source that compiles into an empty chunk, run from the start on an empty
/// stack and with no globals, prints what evaluating it statement by
/// statement prints, ends with the same globals, and fails where the
/// evaluation fails, whatever the host's arithmetic is.
pub proof fn lemma_compiled_program(
    src: Seq<u8>,
    numbers: Seq<u64>,
    host: spec_fn(ArithOp, u64, u64) -> u64,
)
    requires
        compiled(src, numbers, empty_chunk()).error is None,
    ensures
        ({
            let chunk = compiled(src, numbers, empty_chunk()).state.chunk;
            let machine = VmView {
                code: chunk.code,
                constants: chunk.constants,
                ip: 0,
                stack: Seq::empty(),
                globals: Map::empty(),
            };
            performs(
                trace_to(machine, host, chunk.code.len() as int),
                machine,
                chunk.code.len() as int,
                eval_source(src, numbers, host),
            )
        }),
{
    let start = initial(src, numbers, empty_chunk());
    let chunk = compiled(src, numbers, empty_chunk()).state.chunk;
    let machine = VmView {
        code: chunk.code,
        constants: chunk.constants,
        ip: 0,
        stack: Seq::empty(),
        globals: Map::empty(),
    };
    crate::scanner::lemma_scan(src, 0, 1);
    if start.current.ty != TokenType::TOKEN_EOF {
        crate::valid_code::lemma_program(start);
        assert(chunk == program(start).state.chunk);
        lemma_program(start, chunk, machine, host);
    }
}

} // verus!

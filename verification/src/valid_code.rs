//! Valid code: what the compiler emits, and what the machine runs without
//! meeting an error in the code itself.
//!
//! Code is valid where it is a sequence of whole instructions: every opcode is
//! known, every operand byte is there and selects a constant of the pool, and
//! the constant that names a global is a string.
use crate::chunk::ChunkView;
use crate::common::{
    has_operand, is_opcode, OP_CONSTANT, OP_DEFINE_GLOBAL, OP_FALSE, OP_GET_GLOBAL, OP_NEGATE,
    OP_NIL, OP_NOT, OP_POP, OP_PRINT, OP_SET_GLOBAL, OP_TRUE,
};
use crate::compiler::{
    add_constant, advance, binary, binary_code, closer, compiled, consume, declaration, emit,
    emit_all, emit_constant, expression, expression_statement, infix_loop, infix_of, initial,
    leftover_assignment, named_variable, next_level, parse_precedence, parse_variable,
    precedence_of, prefix, prefix_of, print_statement, program, statement, var_declaration,
    ParserView, Precedence, PrefixRule,
};
use crate::scanner::{TokenType, TokenView};
use crate::value::ValueView;
use crate::vm::{resume, run, step, ActionView, InterpretError, VmView};
use vstd::prelude::*;

verus! {

/// Whether a whole instruction starts at `offset`, with an operand that fits
/// the pool.
pub open spec fn valid_instruction(code: Seq<u8>, constants: Seq<ValueView>, offset: int) -> bool {
    let op = code[offset];
    &&& is_opcode(op)
    &&& has_operand(op) ==> {
        &&& offset + 1 < code.len()
        &&& code[offset + 1] < constants.len()
        &&& op != OP_CONSTANT ==> constants[code[offset + 1] as int] is Str
    }
}

/// The length of the instruction that starts at `offset`.
pub open spec fn width(code: Seq<u8>, offset: int) -> int {
    if has_operand(code[offset]) {
        2
    } else {
        1
    }
}

/// Whether the code from `offset` to its end is a sequence of whole
/// instructions.
pub open spec fn valid_from(code: Seq<u8>, constants: Seq<ValueView>, offset: int) -> bool
    decreases code.len() - offset,
{
    if offset < 0 || offset > code.len() {
        false
    } else if offset == code.len() {
        true
    } else {
        valid_instruction(code, constants, offset) && valid_from(
            code,
            constants,
            offset + width(code, offset),
        )
    }
}

/// Whether the code of a chunk is valid.
pub open spec fn valid_code(c: ChunkView) -> bool {
    valid_from(c.code, c.constants, 0)
}

/// Chunk `b` holds what chunk `a` holds and possibly more behind it.
pub open spec fn grows(a: ChunkView, b: ChunkView) -> bool {
    &&& a.code.len() <= b.code.len()
    &&& a.constants.len() <= b.constants.len()
    &&& forall|i: int| 0 <= i < a.code.len() ==> a.code[i] == b.code[i]
    &&& forall|i: int| 0 <= i < a.constants.len() ==> a.constants[i] == b.constants[i]
}

/// Valid code stays valid when valid code is put behind it.
pub proof fn lemma_valid_grows(a: ChunkView, b: ChunkView, offset: int)
    requires
        grows(a, b),
        valid_from(a.code, a.constants, offset),
        valid_from(b.code, b.constants, a.code.len() as int),
    ensures
        valid_from(b.code, b.constants, offset),
    decreases a.code.len() - offset,
{
    if offset < a.code.len() {
        lemma_valid_grows(a, b, offset + width(a.code, offset));
    }
}

/// Growth is transitive.
pub proof fn lemma_grows_trans(a: ChunkView, b: ChunkView, c: ChunkView)
    requires
        grows(a, b),
        grows(b, c),
    ensures
        grows(a, c),
{
}

/// An opcode without operand keeps the code valid.
pub proof fn lemma_emit(s: ParserView, op: u8)
    requires
        valid_code(s.chunk),
        is_opcode(op),
        !has_operand(op),
    ensures
        valid_code(emit(s, op).chunk),
        grows(s.chunk, emit(s, op).chunk),
        emit(s, op).chunk.constants == s.chunk.constants,
{
    let after = emit(s, op).chunk;
    assert(valid_from(after.code, after.constants, after.code.len() as int));
    assert(valid_from(after.code, after.constants, s.chunk.code.len() as int));
    lemma_valid_grows(s.chunk, after, 0);
}

/// An opcode with an operand that fits the pool keeps the code valid.
pub proof fn lemma_emit_operand(s: ParserView, op: u8, index: u8)
    requires
        valid_code(s.chunk),
        has_operand(op),
        index < s.chunk.constants.len(),
        op != OP_CONSTANT ==> s.chunk.constants[index as int] is Str,
    ensures
        valid_code(emit(emit(s, op), index).chunk),
        grows(s.chunk, emit(emit(s, op), index).chunk),
        emit(emit(s, op), index).chunk.constants == s.chunk.constants,
{
    let after = emit(emit(s, op), index).chunk;
    assert(valid_from(after.code, after.constants, after.code.len() as int));
    assert(valid_from(after.code, after.constants, s.chunk.code.len() as int));
    lemma_valid_grows(s.chunk, after, 0);
}

/// A constant added to the pool keeps the code valid.
pub proof fn lemma_add_constant(s: ParserView, value: ValueView)
    requires
        valid_code(s.chunk),
    ensures
        valid_code(add_constant(s, value).state.chunk),
        grows(s.chunk, add_constant(s, value).state.chunk),
        add_constant(s, value).error is None ==> {
            &&& s.chunk.constants.len() < 256
            &&& add_constant(s, value).state.chunk.constants == s.chunk.constants.push(value)
        },
{
    let after = add_constant(s, value).state.chunk;
    assert(valid_from(after.code, after.constants, after.code.len() as int));
    lemma_valid_grows(s.chunk, after, 0);
}

/// A constant and the instruction that loads it keep the code valid.
pub proof fn lemma_emit_constant(s: ParserView, value: ValueView)
    requires
        valid_code(s.chunk),
    ensures
        valid_code(emit_constant(s, value).state.chunk),
        grows(s.chunk, emit_constant(s, value).state.chunk),
{
    lemma_add_constant(s, value);
    let added = add_constant(s, value);
    if added.error is None {
        lemma_emit_operand(added.state, OP_CONSTANT, s.chunk.constants.len() as u8);
    }
}

/// The instructions of a binary operator keep the code valid.
pub proof fn lemma_emit_binary(s: ParserView, ty: TokenType)
    requires
        valid_code(s.chunk),
    ensures
        valid_code(emit_all(s, binary_code(ty)).chunk),
        grows(s.chunk, emit_all(s, binary_code(ty)).chunk),
{
    let code = binary_code(ty);
    reveal_with_fuel(emit_all, 3);
    if code.len() == 1 {
        assert(code.drop_last() =~= Seq::<u8>::empty());
        assert(emit_all(s, code) == emit(s, code[0]));
        lemma_emit(s, code[0]);
    } else if code.len() == 2 {
        assert(code.drop_last() =~= seq![code[0]]);
        assert(code.drop_last().drop_last() =~= Seq::<u8>::empty());
        assert(emit_all(s, code) == emit(emit(s, code[0]), code[1]));
        lemma_emit(s, code[0]);
        lemma_emit(emit(s, code[0]), code[1]);
    }
}

/// A prefix expression and the operators behind it keep the code valid.
#[verifier::rlimit(50)]
pub proof fn lemma_parse_precedence(s: ParserView, p: Precedence)
    requires
        valid_code(s.chunk),
    ensures
        valid_code(parse_precedence(s, p).state.chunk),
        grows(s.chunk, parse_precedence(s, p).state.chunk),
    decreases crate::compiler::measure(s), 1int,
{
    let taken = advance(s);
    if taken.error is None {
        match prefix_of(taken.state.previous.ty) {
            None => {},
            Some(rule) => {
                let can_assign = p.rank() <= Precedence::PREC_ASSIGNMENT.rank();
                if closer(s, taken.state) {
                    lemma_prefix(taken.state, rule, can_assign);
                    let head = prefix(taken.state, rule, can_assign);
                    if head.error is None && closer(s, head.state) {
                        lemma_infix_loop(head.state, p);
                        let tail = infix_loop(head.state, p);
                        if tail.error is None {
                            lemma_leftover_assignment(s, tail.state, can_assign);
                        }
                    }
                }
            },
        }
    }
}

/// What is parsed behind a leftover `=` keeps the code valid.
pub proof fn lemma_leftover_assignment(s: ParserView, tail: ParserView, can_assign: bool)
    requires
        valid_code(tail.chunk),
    ensures
        valid_code(leftover_assignment(s, tail, can_assign).state.chunk),
        grows(tail.chunk, leftover_assignment(s, tail, can_assign).state.chunk),
    decreases crate::compiler::measure(s), 0int,
{
    if can_assign && tail.current.ty == TokenType::TOKEN_EQUAL {
        let target = advance(tail);
        if target.error is None && closer(s, target.state) {
            lemma_parse_precedence(target.state, Precedence::PREC_ASSIGNMENT);
        }
    }
}

/// Every prefix handler keeps the code valid.
pub proof fn lemma_prefix(s: ParserView, rule: PrefixRule, can_assign: bool)
    requires
        valid_code(s.chunk),
    ensures
        valid_code(prefix(s, rule, can_assign).state.chunk),
        grows(s.chunk, prefix(s, rule, can_assign).state.chunk),
    decreases crate::compiler::measure(s), 5int,
{
    match rule {
        PrefixRule::Grouping => {
            lemma_parse_precedence(s, Precedence::PREC_ASSIGNMENT);
        },
        PrefixRule::Unary => {
            lemma_parse_precedence(s, Precedence::PREC_UNARY);
            let operand = parse_precedence(s, Precedence::PREC_UNARY);
            if operand.error is None {
                lemma_emit(operand.state, OP_NEGATE);
                lemma_emit(operand.state, OP_NOT);
            }
        },
        PrefixRule::Variable => {
            lemma_named_variable(s, s.previous, can_assign);
        },
        PrefixRule::String => {
            lemma_emit_constant(
                s,
                ValueView::Str(s.previous.raw.subrange(1, s.previous.raw.len() - 1)),
            );
        },
        PrefixRule::Number => {
            if 0 <= s.used < s.numbers.len() {
                lemma_emit_constant(
                    ParserView { used: s.used + 1, ..s },
                    ValueView::Number(s.numbers[s.used]),
                );
            }
        },
        PrefixRule::Literal => {
            lemma_emit(s, OP_FALSE);
            lemma_emit(s, OP_TRUE);
            lemma_emit(s, OP_NIL);
        },
    }
}

/// Reading or assigning a variable keeps the code valid.
pub proof fn lemma_named_variable(s: ParserView, name: TokenView, can_assign: bool)
    requires
        valid_code(s.chunk),
    ensures
        valid_code(named_variable(s, name, can_assign).state.chunk),
        grows(s.chunk, named_variable(s, name, can_assign).state.chunk),
    decreases crate::compiler::measure(s), 3int,
{
    lemma_add_constant(s, ValueView::Str(name.raw));
    let named = add_constant(s, ValueView::Str(name.raw));
    let index = s.chunk.constants.len() as u8;
    if named.error is None {
        if can_assign && s.current.ty == TokenType::TOKEN_EQUAL {
            let taken = advance(named.state);
            if taken.error is None && closer(s, taken.state) {
                lemma_parse_precedence(taken.state, Precedence::PREC_ASSIGNMENT);
                let value = expression(taken.state);
                if value.error is None {
                    lemma_emit_operand(value.state, OP_SET_GLOBAL, index);
                }
            }
        } else {
            lemma_emit_operand(named.state, OP_GET_GLOBAL, index);
        }
    }
}

/// A binary operator keeps the code valid.
pub proof fn lemma_binary(s: ParserView)
    requires
        valid_code(s.chunk),
    ensures
        valid_code(binary(s).state.chunk),
        grows(s.chunk, binary(s).state.chunk),
    decreases crate::compiler::measure(s), 4int,
{
    lemma_parse_precedence(s, next_level(precedence_of(s.previous.ty)));
    let operand = parse_precedence(s, next_level(precedence_of(s.previous.ty)));
    if operand.error is None {
        lemma_emit_binary(operand.state, s.previous.ty);
    }
}

/// The operators behind an operand keep the code valid.
pub proof fn lemma_infix_loop(s: ParserView, p: Precedence)
    requires
        valid_code(s.chunk),
    ensures
        valid_code(infix_loop(s, p).state.chunk),
        grows(s.chunk, infix_loop(s, p).state.chunk),
    decreases crate::compiler::measure(s), 6int,
{
    if p.rank() <= precedence_of(s.current.ty).rank() {
        let taken = advance(s);
        if taken.error is None && infix_of(taken.state.previous.ty) is Some && closer(
            s,
            taken.state,
        ) {
            lemma_binary(taken.state);
            let applied = binary(taken.state);
            if applied.error is None && closer(s, applied.state) {
                lemma_infix_loop(applied.state, p);
            }
        }
    }
}

/// A print statement keeps the code valid.
pub proof fn lemma_print_statement(s: ParserView)
    requires
        valid_code(s.chunk),
    ensures
        valid_code(print_statement(s).state.chunk),
        grows(s.chunk, print_statement(s).state.chunk),
{
    lemma_parse_precedence(s, Precedence::PREC_ASSIGNMENT);
    let value = expression(s);
    if value.error is None {
        let end = consume(
            value.state,
            TokenType::TOKEN_SEMICOLON,
            Some("Expect ; after print statement"@),
        );
        if end.error is None {
            lemma_emit(end.state, OP_PRINT);
        }
    }
}

/// An expression statement keeps the code valid.
pub proof fn lemma_expression_statement(s: ParserView)
    requires
        valid_code(s.chunk),
    ensures
        valid_code(expression_statement(s).state.chunk),
        grows(s.chunk, expression_statement(s).state.chunk),
{
    lemma_parse_precedence(s, Precedence::PREC_ASSIGNMENT);
    let value = expression(s);
    if value.error is None {
        lemma_emit(value.state, OP_POP);
    }
}

/// A variable declaration keeps the code valid.
pub proof fn lemma_var_declaration(s: ParserView)
    requires
        valid_code(s.chunk),
    ensures
        valid_code(var_declaration(s).state.chunk),
        grows(s.chunk, var_declaration(s).state.chunk),
{
    let name = parse_variable(s, "Expect global variable"@);
    let taken = consume(s, TokenType::TOKEN_IDENTIFIER, Some("Expect global variable"@));
    if taken.error is None {
        lemma_add_constant(taken.state, ValueView::Str(taken.state.previous.raw));
    }
    if name.error is None {
        let n = name.state;
        let index = (n.chunk.constants.len() - 1) as u8;
        if n.current.ty == TokenType::TOKEN_EQUAL {
            if advance(n).error is None {
                lemma_parse_precedence(advance(n).state, Precedence::PREC_ASSIGNMENT);
            }
        } else {
            lemma_emit(n, OP_NIL);
        }
        let value = if n.current.ty == TokenType::TOKEN_EQUAL {
            let taken = advance(n);
            if taken.error is Some {
                taken
            } else {
                expression(taken.state)
            }
        } else {
            crate::compiler::done(emit(n, OP_NIL))
        };
        if value.error is None {
            let end = consume(
                value.state,
                TokenType::TOKEN_SEMICOLON,
                Some("Expect ; after variable declaration"@),
            );
            if end.error is None {
                lemma_emit_operand(end.state, OP_DEFINE_GLOBAL, index);
            }
        }
    }
}

/// A declaration keeps the code valid.
pub proof fn lemma_declaration(s: ParserView)
    requires
        valid_code(s.chunk),
    ensures
        valid_code(declaration(s).state.chunk),
        grows(s.chunk, declaration(s).state.chunk),
{
    reveal(declaration);
    if s.current.ty == TokenType::TOKEN_VAR {
        let taken = advance(s);
        if taken.error is None {
            lemma_var_declaration(taken.state);
        }
    } else if s.current.ty == TokenType::TOKEN_PRINT {
        let taken = advance(s);
        if taken.error is None {
            lemma_print_statement(taken.state);
        }
    } else {
        lemma_expression_statement(s);
    }
}

/// A program keeps the code valid.
pub proof fn lemma_program(s: ParserView)
    requires
        valid_code(s.chunk),
    ensures
        valid_code(program(s).state.chunk),
        grows(s.chunk, program(s).state.chunk),
    decreases crate::compiler::measure(s),
{
    lemma_declaration(s);
    let first = declaration(s);
    if first.error is None && first.state.current.ty != TokenType::TOKEN_EOF && closer(
        s,
        first.state,
    ) {
        lemma_program(first.state);
        lemma_grows_trans(s.chunk, first.state.chunk, program(first.state).state.chunk);
    }
}

/// Compiling into a chunk of valid code leaves valid code, whether the
/// compilation succeeds or stops on an error, and what the chunk held stays
/// where it was.
pub proof fn lemma_compiled(src: Seq<u8>, numbers: Seq<u64>, chunk: ChunkView)
    requires
        valid_code(chunk),
    ensures
        valid_code(compiled(src, numbers, chunk).state.chunk),
        grows(chunk, compiled(src, numbers, chunk).state.chunk),
{
    let start = initial(src, numbers, chunk);
    if start.current.ty != TokenType::TOKEN_ERROR && start.current.ty != TokenType::TOKEN_EOF {
        lemma_program(start);
    }
}

/// At the start of an instruction of valid code, the machine meets no error
/// in the code, and it stops at the start of an instruction again.
pub proof fn lemma_step_valid(s: VmView)
    requires
        valid_from(s.code, s.constants, s.ip),
    ensures
        step(s).result != Err::<ActionView, InterpretError>(InterpretError::CompileError),
        valid_from(s.code, s.constants, step(s).state.ip),
        step(s).state.code == s.code,
        step(s).state.constants == s.constants,
{
}

/// Handing over the result of arithmetic leaves the machine at the start of
/// an instruction.
pub proof fn lemma_resume_valid(s: VmView, bits: u64)
    requires
        valid_from(s.code, s.constants, s.ip),
    ensures
        valid_from(s.code, s.constants, resume(s, bits).state.ip),
        resume(s, bits).state.code == s.code,
        resume(s, bits).state.constants == s.constants,
{
}

/// Running valid code never fails on the code itself: every error is the
/// program's.
pub proof fn lemma_run_valid(s: VmView)
    requires
        valid_from(s.code, s.constants, s.ip),
    ensures
        run(s).result != Err::<ActionView, InterpretError>(InterpretError::CompileError),
        valid_from(s.code, s.constants, run(s).state.ip),
        run(s).state.code == s.code,
        run(s).state.constants == s.constants,
    decreases s.code.len() - s.ip,
{
    lemma_step_valid(s);
    crate::vm::lemma_step(s);
    let next = step(s);
    if next.result == Ok::<ActionView, InterpretError>(ActionView::Continue) {
        lemma_run_valid(next.state);
    }
}

} // verus!

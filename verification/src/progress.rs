//! Parsing moves forward: no step of the parser raises the measure of what is
//! left, and taking a token other than the end of the source lowers it.
//!
//! The definitions of the parsing functions test, before each recursion, that
//! the parse has come closer to its end. By the lemmas here those tests hold
//! wherever the scanner's position lies within the source.
use crate::compiler::{
    add_constant, advance, binary, binary_code, closer, consume, declaration, emit, emit_all,
    expression, expression_statement, infix_loop, infix_of, leftover_assignment, measure,
    named_variable, next_level, parse_precedence, parse_variable, precedence_of, prefix,
    prefix_of, print_statement, program, statement, var_declaration, ParserView, Precedence,
    PrefixRule,
};
use crate::scanner::{lemma_scan, TokenType, TokenView};
use vstd::prelude::*;

verus! {

/// The scanner's position lies within the source.
pub open spec fn within(s: ParserView) -> bool {
    0 <= s.pos <= s.source.len()
}

/// State `after` follows state `before` in a parse: same source, the
/// position still within it, and no more left to parse than before.
pub open spec fn follows(before: ParserView, after: ParserView) -> bool {
    &&& within(after)
    &&& after.source == before.source
    &&& 0 <= measure(after) <= measure(before)
}

/// Taking a token is a step forward, and a real step unless the token is the
/// end of the source.
pub proof fn lemma_advance(s: ParserView)
    requires
        within(s),
    ensures
        follows(s, advance(s).state),
        s.current.ty != TokenType::TOKEN_EOF ==> closer(s, advance(s).state),
        advance(s).state.previous == s.current,
{
    lemma_scan(s.source, s.pos, s.line);
}

/// Emitting code changes nothing of what is left to parse.
pub proof fn lemma_emit_all(s: ParserView, bytes: Seq<u8>)
    ensures
        measure(emit_all(s, bytes)) == measure(s),
        emit_all(s, bytes).source == s.source,
        emit_all(s, bytes).pos == s.pos,
        emit_all(s, bytes).current == s.current,
    decreases bytes.len(),
{
    if bytes.len() > 0 {
        lemma_emit_all(s, bytes.drop_last());
    }
}

/// The test before the operators that follow a prefix expression holds, and
/// so does the one before the prefix expression itself.
#[verifier::rlimit(50)]
pub proof fn lemma_parse_precedence(s: ParserView, p: Precedence)
    requires
        within(s),
    ensures
        follows(s, parse_precedence(s, p).state),
        parse_precedence(s, p).error is None ==> closer(s, parse_precedence(s, p).state),
        ({
            let taken = advance(s);
            taken.error is None && prefix_of(taken.state.previous.ty) is Some ==> {
                &&& closer(s, taken.state)
                &&& closer(
                    s,
                    prefix(
                        taken.state,
                        prefix_of(taken.state.previous.ty).unwrap(),
                        p.rank() <= Precedence::PREC_ASSIGNMENT.rank(),
                    ).state,
                )
            }
        }),
    decreases measure(s), 1int,
{
    lemma_advance(s);
    let taken = advance(s);
    if taken.error is None {
        match prefix_of(taken.state.previous.ty) {
            None => {},
            Some(rule) => {
                let can_assign = p.rank() <= Precedence::PREC_ASSIGNMENT.rank();
                lemma_prefix(taken.state, rule, can_assign);
                let head = prefix(taken.state, rule, can_assign);
                if head.error is None {
                    lemma_infix_loop(head.state, p);
                    let tail = infix_loop(head.state, p);
                    if tail.error is None {
                        lemma_leftover_assignment(s, tail.state, can_assign);
                    }
                }
            },
        }
    }
}

/// The test before the expression after a leftover `=` holds.
pub proof fn lemma_leftover_assignment(s: ParserView, tail: ParserView, can_assign: bool)
    requires
        within(s),
        follows(s, tail),
        closer(s, tail),
    ensures
        follows(s, leftover_assignment(s, tail, can_assign).state),
        leftover_assignment(s, tail, can_assign).error is None ==> closer(
            s,
            leftover_assignment(s, tail, can_assign).state,
        ),
        can_assign && tail.current.ty == TokenType::TOKEN_EQUAL && advance(tail).error is None
            ==> closer(s, advance(tail).state),
    decreases measure(s), 0int,
{
    if can_assign && tail.current.ty == TokenType::TOKEN_EQUAL {
        lemma_advance(tail);
        let target = advance(tail);
        if target.error is None {
            lemma_parse_precedence(target.state, Precedence::PREC_ASSIGNMENT);
        }
    }
}

/// Every prefix handler is a step forward.
#[verifier::rlimit(50)]
pub proof fn lemma_prefix(s: ParserView, rule: PrefixRule, can_assign: bool)
    requires
        within(s),
    ensures
        follows(s, prefix(s, rule, can_assign).state),
    decreases measure(s), 5int,
{
    match rule {
        PrefixRule::Grouping => {
            lemma_parse_precedence(s, Precedence::PREC_ASSIGNMENT);
            let inner = expression(s);
            if inner.error is None {
                lemma_consume(inner.state, TokenType::TOKEN_RIGHT_PAREN, Some(
                    "expect ) after expression"@,
                ));
            }
        },
        PrefixRule::Unary => {
            lemma_parse_precedence(s, Precedence::PREC_UNARY);
        },
        PrefixRule::Variable => {
            lemma_named_variable(s, s.previous, can_assign);
        },
        PrefixRule::String => {},
        PrefixRule::Number => {},
        PrefixRule::Literal => {},
    }
}

/// The test before the value of an assignment holds.
pub proof fn lemma_named_variable(s: ParserView, name: TokenView, can_assign: bool)
    requires
        within(s),
    ensures
        follows(s, named_variable(s, name, can_assign).state),
        ({
            let named = add_constant(s, crate::value::ValueView::Str(name.raw));
            named.error is None && can_assign && s.current.ty == TokenType::TOKEN_EQUAL
                && advance(named.state).error is None ==> closer(s, advance(named.state).state)
        }),
    decreases measure(s), 3int,
{
    let named = add_constant(s, crate::value::ValueView::Str(name.raw));
    if named.error is None && can_assign && s.current.ty == TokenType::TOKEN_EQUAL {
        lemma_advance(named.state);
        let taken = advance(named.state);
        if taken.error is None {
            lemma_parse_precedence(taken.state, Precedence::PREC_ASSIGNMENT);
        }
    }
}

/// A binary operator's right operand is a step forward.
pub proof fn lemma_binary(s: ParserView)
    requires
        within(s),
    ensures
        follows(s, binary(s).state),
    decreases measure(s), 4int,
{
    lemma_parse_precedence(s, next_level(precedence_of(s.previous.ty)));
    let operand = parse_precedence(s, next_level(precedence_of(s.previous.ty)));
    if operand.error is None {
        lemma_emit_all(operand.state, binary_code(s.previous.ty));
    }
}

/// Both tests in the loop over the operators hold.
pub proof fn lemma_infix_loop(s: ParserView, p: Precedence)
    requires
        within(s),
    ensures
        follows(s, infix_loop(s, p).state),
        ({
            let taken = advance(s);
            p.rank() <= precedence_of(s.current.ty).rank() && p.rank() >= 1 && taken.error is None
                ==> {
                &&& closer(s, taken.state)
                &&& infix_of(taken.state.previous.ty) is Some && binary(taken.state).error is None
                    ==> closer(s, binary(taken.state).state)
            }
        }),
    decreases measure(s), 6int,
{
    if p.rank() <= precedence_of(s.current.ty).rank() {
        lemma_advance(s);
        let taken = advance(s);
        if taken.error is None && infix_of(taken.state.previous.ty) is Some && closer(
            s,
            taken.state,
        ) {
            lemma_binary(taken.state);
            let applied = binary(taken.state);
            if applied.error is None && closer(s, applied.state) {
                lemma_infix_loop(applied.state, p);
            }
        }
    }
}

/// Requiring a token is a step forward.
pub proof fn lemma_consume(s: ParserView, ty: TokenType, message: Option<Seq<char>>)
    requires
        within(s),
    ensures
        follows(s, consume(s, ty, message).state),
{
    lemma_advance(s);
}

/// A print statement is a step forward.
pub proof fn lemma_print_statement(s: ParserView)
    requires
        within(s),
    ensures
        follows(s, print_statement(s).state),
{
    lemma_parse_precedence(s, Precedence::PREC_ASSIGNMENT);
    let value = expression(s);
    if value.error is None {
        lemma_advance(value.state);
    }
}

/// An expression statement is a step forward, and a real step where it
/// succeeds on a token other than the end of the source.
pub proof fn lemma_expression_statement(s: ParserView)
    requires
        within(s),
    ensures
        follows(s, expression_statement(s).state),
        expression_statement(s).error is None ==> closer(s, expression_statement(s).state),
{
    lemma_parse_precedence(s, Precedence::PREC_ASSIGNMENT);
    let value = expression(s);
    if value.error is None {
        lemma_advance(emit(value.state, crate::common::OP_POP));
    }
}

/// A statement is a step forward, and a real step where it succeeds on a
/// token other than the end of the source.
pub proof fn lemma_statement(s: ParserView)
    requires
        within(s),
    ensures
        follows(s, statement(s).state),
        statement(s).error is None && s.current.ty != TokenType::TOKEN_EOF ==> closer(
            s,
            statement(s).state,
        ),
{
    if s.current.ty == TokenType::TOKEN_PRINT {
        lemma_advance(s);
        let taken = advance(s);
        if taken.error is None {
            lemma_print_statement(taken.state);
        }
    } else {
        lemma_expression_statement(s);
    }
}

/// The name of a declared variable is a step forward.
pub proof fn lemma_parse_variable(s: ParserView, message: Seq<char>)
    requires
        within(s),
    ensures
        follows(s, parse_variable(s, message).state),
{
    lemma_advance(s);
}

/// The initialiser of a declared variable is a step forward.
pub proof fn lemma_initialiser(n: ParserView)
    requires
        within(n),
    ensures
        n.current.ty == TokenType::TOKEN_EQUAL ==> follows(n, advance(n).state),
        n.current.ty == TokenType::TOKEN_EQUAL && advance(n).error is None ==> follows(
            n,
            expression(advance(n).state).state,
        ),
{
    lemma_advance(n);
    if n.current.ty == TokenType::TOKEN_EQUAL && advance(n).error is None {
        lemma_parse_precedence(advance(n).state, Precedence::PREC_ASSIGNMENT);
    }
}

/// A variable declaration is a step forward.
pub proof fn lemma_var_declaration(s: ParserView)
    requires
        within(s),
    ensures
        follows(s, var_declaration(s).state),
{
    lemma_parse_variable(s, "Expect global variable"@);
    let name = parse_variable(s, "Expect global variable"@);
    if name.error is None {
        let n = name.state;
        lemma_initialiser(n);
        let value = if n.current.ty == TokenType::TOKEN_EQUAL {
            let taken = advance(n);
            if taken.error is Some {
                taken
            } else {
                expression(taken.state)
            }
        } else {
            crate::compiler::done(emit(n, crate::common::OP_NIL))
        };
        if value.error is None {
            lemma_advance(value.state);
        }
    }
}

/// A declaration is a step forward, and a real step where it succeeds on a
/// token other than the end of the source.
pub proof fn lemma_declaration(s: ParserView)
    requires
        within(s),
    ensures
        follows(s, declaration(s).state),
        declaration(s).error is None && s.current.ty != TokenType::TOKEN_EOF ==> closer(
            s,
            declaration(s).state,
        ),
{
    reveal(declaration);
    if s.current.ty == TokenType::TOKEN_VAR {
        lemma_advance(s);
        let taken = advance(s);
        if taken.error is None {
            lemma_var_declaration(taken.state);
        }
    } else {
        lemma_statement(s);
    }
}

/// The test before the next declaration holds.
pub proof fn lemma_program(s: ParserView)
    requires
        within(s),
    ensures
        follows(s, program(s).state),
        declaration(s).error is None && s.current.ty != TokenType::TOKEN_EOF ==> closer(
            s,
            declaration(s).state,
        ),
    decreases measure(s),
{
    lemma_declaration(s);
    let first = declaration(s);
    if first.error is None {
        if first.state.current.ty == TokenType::TOKEN_EOF {
            lemma_advance(first.state);
        } else if closer(s, first.state) {
            lemma_program(first.state);
        }
    }
}

} // verus!

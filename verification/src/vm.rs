//! The virtual machine: a stack machine that executes a chunk.
//!
//! The machine runs by itself as far as it can. Two things it leaves to its
//! host, and stops for: writing a printed value to the output, and the
//! arithmetic that rounds (`+ - * /` on two numbers), whose result the host
//! hands back with [`VM::resume`]. A full stack before an instruction that
//! pushes is reported to the host too, which is to abort.
use crate::chunk::{views, Chunk, ChunkView, Instruction};
use crate::common::{
    OP_ADD, OP_CONSTANT, OP_DEFINE_GLOBAL, OP_DIVIDE, OP_EQUAL, OP_FALSE, OP_GET_GLOBAL,
    OP_GREATER, OP_LESS, OP_MULTIPLY, OP_NEGATE, OP_NIL, OP_NOT, OP_POP, OP_PRINT, OP_RETURN,
    OP_SET_GLOBAL, OP_SUBTRACT, OP_TRUE,
};
use crate::number::{greater, less, number_less};
use crate::object::{Obj, ObjString};
use crate::value::{falsy, negation, text_of, values_equal, Text, TextView, Value, ValueView};
use arraydeque::ArrayDeque;
use vstd::hash_map::StringHashMap;
use vstd::prelude::*;

verus! {

/// The most values that the stack holds.
pub const STACK_MAX: usize = 256;

/// Why execution stopped.
#[derive(Debug, Copy, Clone, PartialEq, Eq, Structural)]
pub enum InterpretError {
    /// The code is not what a compiler emits: an unknown opcode, an operand
    /// that is missing, or an index outside the constant pool.
    CompileError,
    /// The program went wrong: an operand of the wrong type, a global that is
    /// not defined, or a value missing from the stack.
    RuntimeError,
}

/// The arithmetic that the machine leaves to its host.
#[derive(Debug, Copy, Clone, PartialEq, Eq, Structural)]
pub enum ArithOp {
    Add,
    Subtract,
    Multiply,
    Divide,
}

/// What the machine asks of its host when it stops.
pub enum Action {
    /// Nothing: the instruction is done.
    Continue,
    /// Write this text and a newline to the output.
    Print(Text),
    /// Compute `lhs op rhs` on two binary64 patterns and hand the result to
    /// `resume`.
    Arithmetic(ArithOp, u64, u64),
    /// The stack is full and the next instruction pushes: the machine cannot
    /// go on.
    Overflow,
    /// The program has ended.
    Halt,
}

/// An action as plain values.
pub enum ActionView {
    Continue,
    Print(TextView),
    Arithmetic(ArithOp, u64, u64),
    Overflow,
    Halt,
}

impl View for Action {
    type V = ActionView;

    open spec fn view(&self) -> ActionView {
        match *self {
            Action::Continue => ActionView::Continue,
            Action::Print(t) => ActionView::Print(t@),
            Action::Arithmetic(op, a, b) => ActionView::Arithmetic(op, a, b),
            Action::Overflow => ActionView::Overflow,
            Action::Halt => ActionView::Halt,
        }
    }
}

/// The state of the machine as plain values: the program, the offset of the
/// next instruction, the stack from bottom to top, and the globals by name.
pub struct VmView {
    pub code: Seq<u8>,
    pub constants: Seq<ValueView>,
    pub ip: int,
    pub stack: Seq<ValueView>,
    pub globals: Map<Seq<char>, ValueView>,
}

/// The outcome of one instruction: the state it leaves, and the action it
/// asks for or the error it stopped on.
pub struct Stepped {
    pub state: VmView,
    pub result: Result<ActionView, InterpretError>,
}

/// An instruction that fails leaves the machine as it was.
pub open spec fn fails(s: VmView, e: InterpretError) -> Stepped {
    Stepped { state: s, result: Err(e) }
}

/// An instruction that stops for the host without having run.
pub open spec fn asks(s: VmView, a: ActionView) -> Stepped {
    Stepped { state: s, result: Ok(a) }
}

/// An instruction of `width` bytes that ran and left the given stack.
pub open spec fn goes(s: VmView, width: int, stack: Seq<ValueView>) -> Stepped {
    Stepped { state: VmView { ip: s.ip + width, stack, ..s }, result: Ok(ActionView::Continue) }
}

/// The stack without its `n` topmost values.
pub open spec fn below(s: VmView, n: int) -> Seq<ValueView> {
    s.stack.subrange(0, s.stack.len() - n)
}

/// The value `distance` places below the top of the stack.
pub open spec fn peeked(s: VmView, distance: int) -> ValueView {
    s.stack[s.stack.len() - 1 - distance]
}

/// The constant that the operand byte of the next instruction selects; `None`
/// where the code ends before the operand or the index is outside the pool.
pub open spec fn operand(s: VmView) -> Option<ValueView> {
    if s.ip + 1 < s.code.len() && s.code[s.ip + 1] < s.constants.len() {
        Some(s.constants[s.code[s.ip + 1] as int])
    } else {
        None
    }
}

/// The arithmetic of an opcode.
pub open spec fn arithmetic_of(op: u8) -> Option<ArithOp> {
    if op == OP_ADD {
        Some(ArithOp::Add)
    } else if op == OP_SUBTRACT {
        Some(ArithOp::Subtract)
    } else if op == OP_MULTIPLY {
        Some(ArithOp::Multiply)
    } else if op == OP_DIVIDE {
        Some(ArithOp::Divide)
    } else {
        None
    }
}

/// An instruction that pushes `v`, unless the stack is full.
pub open spec fn pushes(s: VmView, width: int, v: ValueView) -> Stepped {
    if s.stack.len() >= STACK_MAX {
        asks(s, ActionView::Overflow)
    } else {
        goes(s, width, s.stack.push(v))
    }
}

/// `OP_ADD`, `OP_SUBTRACT`, `OP_MULTIPLY`, `OP_DIVIDE`: on two numbers the
/// host is asked for the result and the operands stay where they are; `+` on
/// two strings replaces them by their concatenation, the deeper one first.
pub open spec fn arithmetic(s: VmView, op: ArithOp) -> Stepped {
    if s.stack.len() < 2 {
        fails(s, InterpretError::RuntimeError)
    } else {
        match (peeked(s, 1), peeked(s, 0)) {
            (ValueView::Number(a), ValueView::Number(b)) => asks(
                s,
                ActionView::Arithmetic(op, a, b),
            ),
            (ValueView::Str(a), ValueView::Str(b)) => if op == ArithOp::Add {
                goes(s, 1, below(s, 2).push(ValueView::Str(a + b)))
            } else {
                fails(s, InterpretError::RuntimeError)
            },
            _ => fails(s, InterpretError::RuntimeError),
        }
    }
}

/// `OP_LESS` and `OP_GREATER`: two numbers are replaced by the boolean of
/// their order; the deeper value is the left operand.
pub open spec fn comparison(s: VmView, op: u8) -> Stepped {
    if s.stack.len() < 2 {
        fails(s, InterpretError::RuntimeError)
    } else {
        match (peeked(s, 1), peeked(s, 0)) {
            (ValueView::Number(a), ValueView::Number(b)) => goes(
                s,
                1,
                below(s, 2).push(
                    ValueView::Bool(
                        if op == OP_LESS {
                            number_less(a, b)
                        } else {
                            number_less(b, a)
                        },
                    ),
                ),
            ),
            _ => fails(s, InterpretError::RuntimeError),
        }
    }
}

/// The instructions that name a global. The name is the string constant that
/// the operand selects.
pub open spec fn global(s: VmView, op: u8) -> Stepped {
    match operand(s) {
        None => fails(s, InterpretError::CompileError),
        Some(ValueView::Str(name)) => {
            if op == OP_GET_GLOBAL {
                if s.globals.contains_key(name) {
                    pushes(s, 2, s.globals[name])
                } else {
                    fails(s, InterpretError::RuntimeError)
                }
            } else if s.stack.len() == 0 {
                fails(s, InterpretError::RuntimeError)
            } else if op == OP_DEFINE_GLOBAL {
                Stepped {
                    state: VmView {
                        ip: s.ip + 2,
                        stack: below(s, 1),
                        globals: s.globals.insert(name, peeked(s, 0)),
                        ..s
                    },
                    result: Ok(ActionView::Continue),
                }
            } else if s.globals.contains_key(name) {
                Stepped {
                    state: VmView {
                        ip: s.ip + 2,
                        globals: s.globals.insert(name, peeked(s, 0)),
                        ..s
                    },
                    result: Ok(ActionView::Continue),
                }
            } else {
                fails(s, InterpretError::RuntimeError)
            }
        },
        Some(_) => fails(s, InterpretError::RuntimeError),
    }
}

/// What the next instruction does.
///
/// The machine halts at `OP_RETURN` and at the end of the code. An
/// instruction that fails, halts, overflows or asks for arithmetic leaves the
/// state as it was.
pub open spec fn step(s: VmView) -> Stepped {
    if !(0 <= s.ip < s.code.len()) {
        asks(s, ActionView::Halt)
    } else {
        let op = s.code[s.ip];
        if op == OP_RETURN {
            asks(s, ActionView::Halt)
        } else if op == OP_CONSTANT {
            match operand(s) {
                Some(v) => pushes(s, 2, v),
                None => fails(s, InterpretError::CompileError),
            }
        } else if op == OP_NIL {
            pushes(s, 1, ValueView::Nil)
        } else if op == OP_TRUE {
            pushes(s, 1, ValueView::Bool(true))
        } else if op == OP_FALSE {
            pushes(s, 1, ValueView::Bool(false))
        } else if op == OP_POP {
            if s.stack.len() == 0 {
                fails(s, InterpretError::RuntimeError)
            } else {
                goes(s, 1, below(s, 1))
            }
        } else if op == OP_NEGATE {
            if s.stack.len() == 0 {
                fails(s, InterpretError::RuntimeError)
            } else {
                match negation(peeked(s, 0)) {
                    Some(v) => goes(s, 1, below(s, 1).push(v)),
                    None => fails(s, InterpretError::RuntimeError),
                }
            }
        } else if op == OP_NOT {
            if s.stack.len() == 0 {
                fails(s, InterpretError::RuntimeError)
            } else {
                goes(s, 1, below(s, 1).push(ValueView::Bool(falsy(peeked(s, 0)))))
            }
        } else if op == OP_EQUAL {
            if s.stack.len() < 2 {
                fails(s, InterpretError::RuntimeError)
            } else {
                goes(
                    s,
                    1,
                    below(s, 2).push(ValueView::Bool(values_equal(peeked(s, 1), peeked(s, 0)))),
                )
            }
        } else if op == OP_LESS || op == OP_GREATER {
            comparison(s, op)
        } else if arithmetic_of(op) is Some {
            arithmetic(s, arithmetic_of(op).unwrap())
        } else if op == OP_PRINT {
            if s.stack.len() == 0 {
                fails(s, InterpretError::RuntimeError)
            } else {
                Stepped {
                    state: VmView { ip: s.ip + 1, stack: below(s, 1), ..s },
                    result: Ok(ActionView::Print(text_of(peeked(s, 0)))),
                }
            }
        } else if op == OP_GET_GLOBAL || op == OP_DEFINE_GLOBAL || op == OP_SET_GLOBAL {
            global(s, op)
        } else {
            fails(s, InterpretError::CompileError)
        }
    }
}

/// What handing the machine the result of the arithmetic that it asked for
/// does: the two operands are replaced by the number. Where the machine is
/// not waiting for a result, that is an error and nothing changes.
pub open spec fn resume(s: VmView, bits: u64) -> Stepped {
    if step(s).result matches Ok(ActionView::Arithmetic(_, _, _)) {
        goes(s, 1, below(s, 2).push(ValueView::Number(bits)))
    } else {
        fails(s, InterpretError::RuntimeError)
    }
}

/// What running does: instruction after instruction until one asks for
/// something else than to continue, or fails.
pub open spec fn run(s: VmView) -> Stepped
    decreases s.code.len() - s.ip,
    via run_decreases
{
    let next = step(s);
    if next.result == Ok::<ActionView, InterpretError>(ActionView::Continue) {
        run(next.state)
    } else {
        next
    }
}

#[via_fn]
proof fn run_decreases(s: VmView) {
    lemma_step(s);
}

/// An instruction leaves the program as it is. One that runs on moves the
/// machine forward, within the code. One that fails changes nothing, and
/// overflow is reported of a full stack only.
pub proof fn lemma_step(s: VmView)
    ensures
        step(s).state.code == s.code,
        step(s).state.constants == s.constants,
        step(s).result == Ok::<ActionView, InterpretError>(ActionView::Continue) ==> s.ip < step(
            s,
        ).state.ip <= s.code.len(),
        step(s).result is Err ==> step(s).state == s,
        step(s).result == Ok::<ActionView, InterpretError>(ActionView::Overflow) ==> step(s).state
            == s && s.stack.len() >= STACK_MAX,
{
}

/// The value stack: a ring buffer of fixed capacity, 256 values, from the
/// `arraydeque` crate. The machine uses its back as the top of the stack.
#[verifier::external_body]
pub struct ValueStack {
    inner: ArrayDeque<[Value; 256]>,
}

/// The values that a stack holds, from the front (the bottom) to the back (the
/// top).
pub uninterp spec fn stack_items(stack: ValueStack) -> Seq<Value>;

/// `ArrayDeque::new`: an empty buffer.
#[verifier::external_body]
fn stack_new() -> (stack: ValueStack)
    ensures
        stack_items(stack) == Seq::<Value>::empty(),
{
    ValueStack { inner: ArrayDeque::new() }
}

/// `ArrayDeque::len`: the number of values held, which never exceeds the
/// capacity of 256.
#[verifier::external_body]
fn stack_len(stack: &ValueStack) -> (n: usize)
    ensures
        n == stack_items(*stack).len(),
        n <= STACK_MAX,
{
    stack.inner.len()
}

/// `ArrayDeque::push_back` of a saturating buffer: the value is added at the
/// back, unless the buffer is full; then nothing changes and the value comes
/// back.
#[verifier::external_body]
fn stack_push_back(stack: &mut ValueStack, value: Value) -> (r: Result<(), Value>)
    ensures
        match r {
            Ok(_) => stack_items(*old(stack)).len() != STACK_MAX && stack_items(*final(stack))
                == stack_items(*old(stack)).push(value),
            Err(back) => stack_items(*old(stack)).len() == STACK_MAX && back == value
                && stack_items(*final(stack)) == stack_items(*old(stack)),
        },
{
    match stack.inner.push_back(value) {
        Ok(()) => Ok(()),
        Err(e) => Err(e.element),
    }
}

/// `ArrayDeque::pop_back`: removes the value at the back and returns it;
/// `None` from an empty buffer.
#[verifier::external_body]
fn stack_pop_back(stack: &mut ValueStack) -> (r: Option<Value>)
    ensures
        match r {
            Some(value) => stack_items(*old(stack)).len() > 0 && value == stack_items(
                *old(stack),
            ).last() && stack_items(*final(stack)) == stack_items(*old(stack)).drop_last(),
            None => stack_items(*old(stack)).len() == 0 && stack_items(*final(stack))
                == stack_items(*old(stack)),
        },
{
    stack.inner.pop_back()
}

/// `ArrayDeque::get`: the value at an index, counted from the front; `None`
/// for an index that is not below the length.
#[verifier::external_body]
fn stack_get(stack: &ValueStack, index: usize) -> (r: Option<&Value>)
    ensures
        match r {
            Some(value) => index < stack_items(*stack).len() && *value == stack_items(
                *stack,
            )[index as int],
            None => index >= stack_items(*stack).len(),
        },
{
    stack.inner.get(index)
}

/// The views of the values of a map.
pub open spec fn global_views(globals: Map<Seq<char>, Value>) -> Map<Seq<char>, ValueView> {
    globals.map_values(|v: Value| v@)
}

/// The virtual machine.
pub struct VM<'a> {
    chunk: &'a Chunk,
    ip: usize,
    stack: ValueStack,
    globals: StringHashMap<Value>,
}

impl<'a> View for VM<'a> {
    type V = VmView;

    closed spec fn view(&self) -> VmView {
        VmView {
            code: self.chunk@.code,
            constants: self.chunk@.constants,
            ip: self.ip as int,
            stack: views(stack_items(self.stack)),
            globals: global_views(self.globals@),
        }
    }
}

impl<'a> VM<'a> {
    /// A machine at the start of a chunk, with an empty stack and no
    /// globals.
    pub fn new(chunk: &'a Chunk) -> (r: Self)
        ensures
            r@ == (VmView {
                code: chunk@.code,
                constants: chunk@.constants,
                ip: 0,
                stack: Seq::empty(),
                globals: Map::empty(),
            }),
            r.chunk_well_formed() == chunk.well_formed(),
            r.lines() == chunk@.lines,
    {
        let r = VM { chunk, ip: 0, globals: StringHashMap::new(), stack: stack_new() };
        proof {
            assert(r@.stack =~= Seq::<ValueView>::empty());
            assert(r@.globals =~= Map::<Seq<char>, ValueView>::empty());
        }
        r
    }

    /// The listing of the machine's chunk.
    pub fn disassemble(&self) -> (r: Vec<Instruction>)
        requires
            self.chunk_well_formed(),
        ensures
            crate::chunk::instruction_views(r@) == crate::chunk::listing(
                ChunkView { code: self@.code, constants: self@.constants, lines: self.lines() },
                0,
            ),
    {
        self.chunk.disassemble()
    }

    /// Whether the machine's chunk is well formed.
    pub closed spec fn chunk_well_formed(&self) -> bool {
        self.chunk.well_formed()
    }

    /// The line of each code byte of the machine's chunk.
    pub closed spec fn lines(&self) -> Seq<u64> {
        self.chunk@.lines
    }

    /// Runs the program until it needs its host, halts or fails.
    pub fn interpret(&mut self) -> (r: Result<Action, InterpretError>)
        ensures
            final(self)@ == run(old(self)@).state,
            match r {
                Ok(action) => run(old(self)@).result == Ok::<ActionView, InterpretError>(action@),
                Err(e) => run(old(self)@).result == Err::<ActionView, InterpretError>(e),
            },
    {
        self.run()
    }

    fn run(&mut self) -> (r: Result<Action, InterpretError>)
        ensures
            final(self)@ == run(old(self)@).state,
            match r {
                Ok(action) => run(old(self)@).result == Ok::<ActionView, InterpretError>(action@),
                Err(e) => run(old(self)@).result == Err::<ActionView, InterpretError>(e),
            },
    {
        loop
            invariant
                run(self@) == run(old(self)@),
            decreases self@.code.len() - self@.ip,
        {
            proof {
                lemma_step(self@);
            }
            match self.step() {
                Ok(Action::Continue) => {},
                Ok(action) => {
                    return Ok(action);
                },
                Err(e) => {
                    return Err(e);
                },
            }
        }
    }

    /// Executes the next instruction.
    pub fn step(&mut self) -> (r: Result<Action, InterpretError>)
        ensures
            final(self)@ == step(old(self)@).state,
            match r {
                Ok(action) => step(old(self)@).result == Ok::<ActionView, InterpretError>(
                    action@,
                ),
                Err(e) => step(old(self)@).result == Err::<ActionView, InterpretError>(e),
            },
    {
        let start = self.ip;
        let instr: u8 = match self.read_byte() {
            Some(instr) => instr,
            None => {
                return Ok(Action::Halt);
            },
        };
        let result = match instr {
            OP_RETURN => Ok(Action::Halt),
            OP_PRINT => match self.pop_value() {
                Some(v) => Ok(Action::Print(v.to_text())),
                None => Err(InterpretError::RuntimeError),
            },
            OP_NIL => self.push_value(Value::Nil),
            OP_TRUE => self.push_value(Value::from(true)),
            OP_FALSE => self.push_value(Value::from(false)),
            OP_CONSTANT => match self.read_constant() {
                Some(constant) => self.push_value(constant.clone()),
                None => Err(InterpretError::CompileError),
            },
            OP_POP => match self.pop_value() {
                Some(_) => Ok(Action::Continue),
                None => Err(InterpretError::RuntimeError),
            },
            OP_GET_GLOBAL => self.get_global(),
            OP_DEFINE_GLOBAL => self.define_global(),
            OP_SET_GLOBAL => self.set_global(),
            OP_NEGATE => {
                let negated = match self.peek(0) {
                    Some(value) => value.clone().neg(),
                    None => None,
                };
                match negated {
                    Some(value) => self.replace_top(1, value),
                    None => Err(InterpretError::RuntimeError),
                }
            },
            OP_NOT => {
                let negated = match self.peek(0) {
                    Some(value) => Some(Value::from(value.is_falsy())),
                    None => None,
                };
                match negated {
                    Some(value) => self.replace_top(1, value),
                    None => Err(InterpretError::RuntimeError),
                }
            },
            OP_EQUAL | OP_GREATER | OP_LESS => match self.binary_op(instr) {
                Some(value) => self.replace_top(2, value),
                None => Err(InterpretError::RuntimeError),
            },
            OP_ADD => self.add(),
            OP_SUBTRACT => self.arithmetic(ArithOp::Subtract),
            OP_MULTIPLY => self.arithmetic(ArithOp::Multiply),
            OP_DIVIDE => self.arithmetic(ArithOp::Divide),
            _ => Err(InterpretError::CompileError),
        };
        match result {
            Ok(Action::Continue) => {},
            Ok(Action::Print(_)) => {},
            _ => {
                self.ip = start;
            },
        }
        result
    }

    /// Takes the result of the arithmetic that the machine asked for: the two
    /// operands are replaced by the number, and the machine moves on.
    pub fn resume(&mut self, bits: u64) -> (r: Result<(), InterpretError>)
        ensures
            final(self)@ == resume(old(self)@, bits).state,
            match r {
                Ok(_) => resume(old(self)@, bits).result is Ok,
                Err(e) => resume(old(self)@, bits).result == Err::<ActionView, InterpretError>(e),
            },
    {
        let start = self.ip;
        let waiting = match self.read_byte() {
            Some(OP_ADD) => self.arithmetic(ArithOp::Add).is_ok(),
            Some(OP_SUBTRACT) => self.arithmetic(ArithOp::Subtract).is_ok(),
            Some(OP_MULTIPLY) => self.arithmetic(ArithOp::Multiply).is_ok(),
            Some(OP_DIVIDE) => self.arithmetic(ArithOp::Divide).is_ok(),
            _ => false,
        };
        if waiting {
            match self.replace_top(2, Value::number(bits)) {
                Ok(_) => Ok(()),
                Err(e) => Err(e),
            }
        } else {
            self.ip = start;
            Err(InterpretError::RuntimeError)
        }
    }

    /// The opcode or operand at the instruction pointer, which moves past
    /// it; `None` at the end of the code.
    fn read_byte(&mut self) -> (r: Option<u8>)
        ensures
            final(self)@.code == old(self)@.code,
            final(self)@.constants == old(self)@.constants,
            final(self)@.stack == old(self)@.stack,
            final(self)@.globals == old(self)@.globals,
            final(self).chunk == old(self).chunk,
            final(self).stack == old(self).stack,
            final(self).globals == old(self).globals,
            match r {
                Some(byte) => 0 <= old(self)@.ip < old(self)@.code.len() && byte == old(
                    self,
                )@.code[old(self)@.ip] && final(self)@.ip == old(self)@.ip + 1,
                None => old(self)@.ip >= old(self)@.code.len() && final(self)@.ip == old(self)@.ip,
            },
    {
        if self.ip < self.chunk.len() {
            let byte = self.chunk.read_byte(self.ip);
            self.ip += 1;
            Some(byte)
        } else {
            None
        }
    }

    /// The constant that the operand at the instruction pointer selects; the
    /// pointer moves past the operand. `None` where the code has ended or the
    /// index is outside the pool.
    fn read_constant(&mut self) -> (r: Option<&'a Value>)
        ensures
            final(self)@.code == old(self)@.code,
            final(self)@.constants == old(self)@.constants,
            final(self)@.stack == old(self)@.stack,
            final(self)@.globals == old(self)@.globals,
            final(self).chunk == old(self).chunk,
            final(self).stack == old(self).stack,
            final(self).globals == old(self).globals,
            match r {
                Some(value) => {
                    &&& 0 <= old(self)@.ip < old(self)@.code.len()
                    &&& old(self)@.code[old(self)@.ip] < old(self)@.constants.len()
                    &&& value@ == old(self)@.constants[old(self)@.code[old(self)@.ip] as int]
                    &&& final(self)@.ip == old(self)@.ip + 1
                },
                None => {
                    &&& !(0 <= old(self)@.ip < old(self)@.code.len() && old(self)@.code[old(
                        self,
                    )@.ip] < old(self)@.constants.len())
                    &&& final(self)@.ip == old(self)@.ip
                },
            },
    {
        if self.ip < self.chunk.len() && (self.chunk.read_byte(self.ip) as usize)
            < self.chunk.constant_count() {
            let constant = self.chunk.read_constant(self.ip);
            self.ip += 1;
            Some(constant)
        } else {
            None
        }
    }

    /// The name that the operand at the instruction pointer selects: `Ok(None)`
    /// where the constant is not a string, an error where there is no
    /// constant.
    fn read_string(&mut self) -> (r: Result<Option<&'a str>, InterpretError>)
        ensures
            final(self)@.code == old(self)@.code,
            final(self)@.constants == old(self)@.constants,
            final(self)@.stack == old(self)@.stack,
            final(self)@.globals == old(self)@.globals,
            final(self).chunk == old(self).chunk,
            final(self).stack == old(self).stack,
            final(self).globals == old(self).globals,
            match r {
                Ok(Some(name)) => {
                    &&& 0 <= old(self)@.ip < old(self)@.code.len()
                    &&& old(self)@.code[old(self)@.ip] < old(self)@.constants.len()
                    &&& old(self)@.constants[old(self)@.code[old(self)@.ip] as int]
                        == ValueView::Str(name@)
                    &&& final(self)@.ip == old(self)@.ip + 1
                },
                Ok(None) => {
                    &&& 0 <= old(self)@.ip < old(self)@.code.len()
                    &&& old(self)@.code[old(self)@.ip] < old(self)@.constants.len()
                    &&& !(old(self)@.constants[old(self)@.code[old(self)@.ip] as int] is Str)
                    &&& final(self)@.ip == old(self)@.ip + 1
                },
                Err(e) => {
                    &&& e == InterpretError::CompileError
                    &&& !(0 <= old(self)@.ip < old(self)@.code.len() && old(self)@.code[old(
                        self,
                    )@.ip] < old(self)@.constants.len())
                    &&& final(self)@.ip == old(self)@.ip
                },
            },
    {
        match self.read_constant() {
            Some(Value::Object(Obj::String(name))) => Ok(Some(name.as_str())),
            Some(_) => Ok(None),
            None => Err(InterpretError::CompileError),
        }
    }

    /// `OP_GET_GLOBAL`, after its opcode.
    fn get_global(&mut self) -> (r: Result<Action, InterpretError>)
        requires
            0 < old(self)@.ip <= old(self)@.code.len(),
            old(self)@.code[old(self)@.ip - 1] == OP_GET_GLOBAL,
        ensures
            Self::after_opcode(*old(self), *final(self), r),
    {
        let name = match self.read_string() {
            Ok(Some(name)) => name,
            Ok(None) => {
                return Err(InterpretError::RuntimeError);
            },
            Err(e) => {
                return Err(e);
            },
        };
        let value = match self.globals.get(name) {
            Some(value) => value.clone(),
            None => {
                return Err(InterpretError::RuntimeError);
            },
        };
        self.push_value(value)
    }

    /// `OP_DEFINE_GLOBAL`, after its opcode.
    fn define_global(&mut self) -> (r: Result<Action, InterpretError>)
        requires
            0 < old(self)@.ip <= old(self)@.code.len(),
            old(self)@.code[old(self)@.ip - 1] == OP_DEFINE_GLOBAL,
        ensures
            Self::after_opcode(*old(self), *final(self), r),
    {
        let name = match self.read_string() {
            Ok(Some(name)) => name,
            Ok(None) => {
                return Err(InterpretError::RuntimeError);
            },
            Err(e) => {
                return Err(e);
            },
        };
        let value = match self.pop_value() {
            Some(value) => value,
            None => {
                return Err(InterpretError::RuntimeError);
            },
        };
        let ghost before = self.globals@;
        self.globals.insert(name.to_owned(), value);
        proof {
            assert(global_views(self.globals@) =~= global_views(before).insert(name@, value@));
        }
        Ok(Action::Continue)
    }

    /// `OP_SET_GLOBAL`, after its opcode.
    fn set_global(&mut self) -> (r: Result<Action, InterpretError>)
        requires
            0 < old(self)@.ip <= old(self)@.code.len(),
            old(self)@.code[old(self)@.ip - 1] == OP_SET_GLOBAL,
        ensures
            Self::after_opcode(*old(self), *final(self), r),
    {
        let name = match self.read_string() {
            Ok(Some(name)) => name,
            Ok(None) => {
                return Err(InterpretError::RuntimeError);
            },
            Err(e) => {
                return Err(e);
            },
        };
        let value = match self.peek(0) {
            Some(value) => value.clone(),
            None => {
                return Err(InterpretError::RuntimeError);
            },
        };
        if !self.globals.contains_key(name) {
            return Err(InterpretError::RuntimeError);
        }
        let ghost before = self.globals@;
        self.globals.insert(name.to_owned(), value);
        proof {
            assert(global_views(self.globals@) =~= global_views(before).insert(name@, value@));
        }
        Ok(Action::Continue)
    }

    /// What holds when the rest of an instruction has run whose opcode has
    /// been read: the outcome is the instruction's, and the state is too
    /// but for the instruction pointer, which an outcome that leaves the state
    /// as it was has yet to be set back from.
    spec fn after_opcode(before: Self, after: Self, r: Result<Action, InterpretError>) -> bool {
        let s = VmView { ip: before@.ip - 1, ..before@ };
        &&& match r {
            Ok(action) => step(s).result == Ok::<ActionView, InterpretError>(action@),
            Err(e) => step(s).result == Err::<ActionView, InterpretError>(e),
        }
        &&& after.chunk == before.chunk
        &&& match r {
            Ok(Action::Continue) | Ok(Action::Print(_)) => after@ == step(s).state,
            _ => (VmView { ip: s.ip, ..after@ }) == step(s).state,
        }
    }

    /// `OP_ADD`, after its opcode.
    fn add(&mut self) -> (r: Result<Action, InterpretError>)
        requires
            0 < old(self)@.ip <= old(self)@.code.len(),
            old(self)@.code[old(self)@.ip - 1] == OP_ADD,
        ensures
            Self::after_opcode(*old(self), *final(self), r),
    {
        let joined = match (self.peek(1), self.peek(0)) {
            (Some(Value::Object(Obj::String(a))), Some(Value::Object(Obj::String(b)))) => {
                let mut s: String = a.as_str().to_owned();
                s.append(b.as_str());
                Some(Value::Object(Obj::String(ObjString::new(s))))
            },
            _ => None,
        };
        match joined {
            Some(value) => self.replace_top(2, value),
            None => self.arithmetic(ArithOp::Add),
        }
    }

    /// Asks the host for the arithmetic on the two numbers on top of the
    /// stack, which stay there.
    fn arithmetic(&self, op: ArithOp) -> (r: Result<Action, InterpretError>)
        ensures
            match r {
                Ok(action) => {
                    &&& self@.stack.len() >= 2
                    &&& peeked(self@, 1) is Number
                    &&& peeked(self@, 0) is Number
                    &&& action@ == ActionView::Arithmetic(
                        op,
                        peeked(self@, 1)->Number_0,
                        peeked(self@, 0)->Number_0,
                    )
                },
                Err(e) => {
                    &&& e == InterpretError::RuntimeError
                    &&& !(self@.stack.len() >= 2 && peeked(self@, 1) is Number && peeked(
                        self@,
                        0,
                    ) is Number)
                },
            },
    {
        match (self.peek(1), self.peek(0)) {
            (Some(Value::Number(a)), Some(Value::Number(b))) => Ok(Action::Arithmetic(op, *a, *b)),
            _ => Err(InterpretError::RuntimeError),
        }
    }

    /// The result of `OP_EQUAL`, `OP_LESS` or `OP_GREATER` on the two values
    /// on top of the stack, the deeper one on the left; `None` where the
    /// stack holds less than two values or the opcode does not apply to
    /// them.
    fn binary_op(&self, instr: u8) -> (r: Option<Value>)
        requires
            instr == OP_EQUAL || instr == OP_LESS || instr == OP_GREATER,
        ensures
            match r {
                Some(value) => {
                    &&& self@.stack.len() >= 2
                    &&& if instr == OP_EQUAL {
                        value@ == ValueView::Bool(values_equal(peeked(self@, 1), peeked(self@, 0)))
                    } else {
                        &&& peeked(self@, 1) is Number
                        &&& peeked(self@, 0) is Number
                        &&& value@ == ValueView::Bool(
                            if instr == OP_LESS {
                                number_less(peeked(self@, 1)->Number_0, peeked(self@, 0)->Number_0)
                            } else {
                                number_less(peeked(self@, 0)->Number_0, peeked(self@, 1)->Number_0)
                            },
                        )
                    }
                },
                None => {
                    ||| self@.stack.len() < 2
                    ||| instr != OP_EQUAL && !(peeked(self@, 1) is Number && peeked(
                        self@,
                        0,
                    ) is Number)
                },
            },
    {
        let (a, b) = match (self.peek(1), self.peek(0)) {
            (Some(a), Some(b)) => (a, b),
            _ => {
                return None;
            },
        };
        if instr == OP_EQUAL {
            Some(Value::from(a.equals(b)))
        } else {
            match (a, b) {
                (Value::Number(a), Value::Number(b)) => Some(
                    Value::from(
                        if instr == OP_LESS {
                            less(*a, *b)
                        } else {
                            greater(*a, *b)
                        },
                    ),
                ),
                _ => None,
            }
        }
    }

    /// Replaces the `n` topmost values by one.
    fn replace_top(&mut self, n: usize, value: Value) -> (r: Result<Action, InterpretError>)
        requires
            1 <= n <= 2,
            old(self)@.stack.len() >= n,
        ensures
            r == Ok::<Action, InterpretError>(Action::Continue),
            final(self).chunk == old(self).chunk,
            final(self)@ == (VmView { stack: below(old(self)@, n as int).push(value@), ..old(self)@ }),
    {
        let depth = self.depth();
        let _ = self.pop_value();
        if n == 2 {
            let _ = self.pop_value();
        }
        proof {
            assert(self@.stack =~= below(old(self)@, n as int));
            assert(self@.stack.len() < STACK_MAX);
        }
        self.push_value(value)
    }

    /// Pushes a value, unless the stack is full.
    fn push_value(&mut self, v: Value) -> (r: Result<Action, InterpretError>)
        ensures
            final(self).chunk == old(self).chunk,
            final(self).globals == old(self).globals,
            final(self).ip == old(self).ip,
            old(self)@.stack.len() <= STACK_MAX,
            if old(self)@.stack.len() >= STACK_MAX {
                &&& r == Ok::<Action, InterpretError>(Action::Overflow)
                &&& final(self)@ == old(self)@
            } else {
                &&& r == Ok::<Action, InterpretError>(Action::Continue)
                &&& final(self)@ == (VmView { stack: old(self)@.stack.push(v@), ..old(self)@ })
            },
    {
        let ghost before = stack_items(self.stack);
        let n = stack_len(&self.stack);
        match stack_push_back(&mut self.stack, v) {
            Ok(()) => {
                proof {
                    assert(views(stack_items(self.stack)) =~= views(before).push(v@));
                }
                Ok(Action::Continue)
            },
            Err(_) => Ok(Action::Overflow),
        }
    }

    /// Pops the topmost value; `None` from an empty stack.
    fn pop_value(&mut self) -> (r: Option<Value>)
        ensures
            final(self).chunk == old(self).chunk,
            final(self).globals == old(self).globals,
            final(self).ip == old(self).ip,
            match r {
                Some(value) => {
                    &&& old(self)@.stack.len() > 0
                    &&& value@ == peeked(old(self)@, 0)
                    &&& final(self)@ == (VmView { stack: below(old(self)@, 1), ..old(self)@ })
                },
                None => old(self)@.stack.len() == 0 && final(self)@ == old(self)@,
            },
    {
        let ghost before = stack_items(self.stack);
        let r = stack_pop_back(&mut self.stack);
        proof {
            if r is Some {
                assert(views(stack_items(self.stack)) =~= views(before).subrange(
                    0,
                    before.len() - 1,
                ));
            }
        }
        r
    }

    /// The value `distance` places below the top; `None` where the stack is
    /// not that deep.
    fn peek(&self, distance: usize) -> (r: Option<&Value>)
        ensures
            match r {
                Some(value) => distance < self@.stack.len() && value@ == peeked(
                    self@,
                    distance as int,
                ),
                None => distance >= self@.stack.len(),
            },
    {
        let n = stack_len(&self.stack);
        if distance >= n {
            return None;
        }
        let index = n - 1 - distance;
        stack_get(&self.stack, index)
    }

    /// The number of values on the stack.
    pub fn depth(&self) -> (n: usize)
        ensures
            n == self@.stack.len(),
            n <= STACK_MAX,
    {
        stack_len(&self.stack)
    }
}

/// The value that `OP_NOT` leaves in place of a value: `true` for a falsy one,
/// `false` for any other.
pub open spec fn logical_not(v: ValueView) -> ValueView {
    ValueView::Bool(falsy(v))
}

/// `OP_NOT` twice gives a value's canonical boolean: a boolean stays what it
/// is, nil becomes `false`, and any other value becomes `true`.
pub proof fn lemma_not_twice(s: VmView)
    requires
        0 <= s.ip,
        s.ip + 1 < s.code.len(),
        s.code[s.ip] == OP_NOT,
        s.code[s.ip + 1] == OP_NOT,
        s.stack.len() > 0,
    ensures
        step(step(s).state).result == Ok::<ActionView, InterpretError>(ActionView::Continue),
        step(step(s).state).state == (VmView {
            ip: s.ip + 2,
            stack: below(s, 1).push(logical_not(logical_not(peeked(s, 0)))),
            ..s
        }),
        logical_not(logical_not(peeked(s, 0))) == ValueView::Bool(!falsy(peeked(s, 0))),
        peeked(s, 0) is Bool ==> logical_not(logical_not(peeked(s, 0))) == peeked(s, 0),
        peeked(s, 0) is Nil ==> logical_not(logical_not(peeked(s, 0))) == ValueView::Bool(false),
{
    let once = step(s).state;
    assert(once.stack =~= below(s, 1).push(logical_not(peeked(s, 0))));
    assert(peeked(once, 0) == logical_not(peeked(s, 0)));
    assert(below(once, 1) =~= below(s, 1));
}

} // verus!

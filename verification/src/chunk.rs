//! A compiled program: code bytes, a constant pool, and the source line of
//! every code byte.
use crate::common::{
    has_operand, takes_operand, OP_ADD, OP_CONSTANT, OP_DEFINE_GLOBAL, OP_DIVIDE, OP_EQUAL,
    OP_FALSE, OP_GET_GLOBAL, OP_GREATER, OP_LESS, OP_MULTIPLY, OP_NEGATE, OP_NIL, OP_NOT, OP_POP,
    OP_PRINT, OP_RETURN, OP_SET_GLOBAL, OP_SUBTRACT, OP_TRUE,
};
use crate::compiler::CompileErrorPayload;
use crate::value::{Value, ValueView};
use vstd::prelude::*;

verus! {

/// The most constants a chunk can hold: an index must fit in one byte.
pub const MAX_CONSTANTS: usize = 256;

/// A run of `repeat` consecutive code bytes that come from line `line_no`.
#[derive(Copy, Clone, Debug)]
pub struct Line {
    pub line_no: u64,
    pub repeat: usize,
}

/// The line of each byte of a run, `repeat` times the same line.
pub open spec fn run_lines(run: Line) -> Seq<u64> {
    Seq::new(run.repeat as nat, |i: int| run.line_no)
}

/// The line of every offset that a sequence of runs covers, run after run.
pub open spec fn expand(runs: Seq<Line>) -> Seq<u64>
    decreases runs.len(),
{
    if runs.len() == 0 {
        Seq::empty()
    } else {
        run_lines(runs[0]) + expand(runs.drop_first())
    }
}

/// Appending a run appends its lines.
proof fn lemma_expand_push(runs: Seq<Line>, run: Line)
    ensures
        expand(runs.push(run)) == expand(runs) + run_lines(run),
    decreases runs.len(),
{
    if runs.len() == 0 {
        assert(runs.push(run).drop_first() =~= runs);
        assert(expand(runs.push(run)) =~= expand(runs) + run_lines(run));
    } else {
        lemma_expand_push(runs.drop_first(), run);
        assert(runs.push(run).drop_first() =~= runs.drop_first().push(run));
        assert(expand(runs.push(run)) =~= expand(runs) + run_lines(run));
    }
}

/// The sum of the lengths of a sequence of runs.
pub open spec fn total_repeats(runs: Seq<Line>) -> nat
    decreases runs.len(),
{
    if runs.len() == 0 {
        0
    } else {
        runs[0].repeat as nat + total_repeats(runs.drop_first())
    }
}

/// Runs cover as many offsets as their lengths add up to.
pub proof fn lemma_total_repeats(runs: Seq<Line>)
    ensures
        expand(runs).len() == total_repeats(runs),
    decreases runs.len(),
{
    if runs.len() > 0 {
        lemma_total_repeats(runs.drop_first());
    }
}

/// The line table: the line of each code offset, stored as runs of equal lines.
#[derive(Debug)]
pub struct Lines {
    lines: Vec<Line>,
}

impl View for Lines {
    type V = Seq<u64>;

    /// The line of each offset, as a plain sequence.
    closed spec fn view(&self) -> Seq<u64> {
        expand(self.lines@)
    }
}

impl Lines {
    /// The runs are as few as can be: none is empty and neighbours differ.
    pub closed spec fn compact(&self) -> bool {
        &&& forall|i: int| 0 <= i < self.lines@.len() ==> (#[trigger] self.lines@[i]).repeat >= 1
        &&& forall|i: int|
            0 < i < self.lines@.len() ==> (#[trigger] self.lines@[i]).line_no != self.lines@[i
                - 1].line_no
    }

    /// The runs, in the order of the offsets that they cover.
    pub closed spec fn run_list(&self) -> Seq<Line> {
        self.lines@
    }

    /// The number of runs.
    pub closed spec fn runs(&self) -> nat {
        self.lines@.len()
    }

    /// The lengths of the runs add up to the number of offsets recorded.
    pub proof fn lemma_total(&self)
        ensures
            total_repeats(self.run_list()) == self@.len(),
            self.runs() == self.run_list().len(),
    {
        lemma_total_repeats(self.lines@);
    }

    pub fn new() -> (r: Self)
        ensures
            r@ == Seq::<u64>::empty(),
            r.compact(),
    {
        Lines { lines: Vec::new() }
    }

    /// Records the line of one more offset: grows the last run where the line is
    /// the same, starts a new run where it is not.
    pub fn push_line(&mut self, line_no: u64)
        requires
            old(self)@.len() < usize::MAX,
            old(self).compact(),
        ensures
            final(self)@ == old(self)@.push(line_no),
            final(self).compact(),
            final(self).runs() == old(self).runs() + (if old(self)@.len() > 0 && old(
                self,
            )@.last() == line_no {
                0nat
            } else {
                1nat
            }),
    {
        let ghost before = self.lines@;
        match self.lines.pop() {
            None => {
                let run = Line { line_no, repeat: 1 };
                self.lines.push(run);
                proof {
                    assert(self.lines@ =~= before.push(run));
                    lemma_expand_push(before, run);
                    assert(run_lines(run) =~= seq![line_no]);
                    assert(expand(before) + seq![line_no] =~= expand(before).push(line_no));
                }
            },
            Some(last) => {
                let ghost rest = self.lines@;
                proof {
                    assert(before =~= rest.push(last));
                    lemma_expand_push(rest, last);
                    assert(expand(before).len() == expand(rest).len() + last.repeat);
                    assert(last == before[before.len() - 1]);
                    assert(expand(before).last() == last.line_no);
                }
                if line_no == last.line_no {
                    let run = Line { line_no, repeat: last.repeat + 1 };
                    self.lines.push(run);
                    proof {
                        lemma_expand_push(rest, run);
                        assert(run_lines(run) =~= run_lines(last).push(line_no));
                        assert(expand(rest) + run_lines(last).push(line_no) =~= (expand(rest)
                            + run_lines(last)).push(line_no));
                    }
                } else {
                    let run = Line { line_no, repeat: 1 };
                    self.lines.push(last);
                    self.lines.push(run);
                    proof {
                        assert(self.lines@ =~= before.push(run));
                        lemma_expand_push(before, run);
                        assert(run_lines(run) =~= seq![line_no]);
                        assert(expand(before) + seq![line_no] =~= expand(before).push(line_no));
                    }
                }
            },
        }
    }

    /// The line of the code byte at `offset`.
    pub fn find_line_no(&self, offset: usize) -> (r: u64)
        requires
            offset < self@.len(),
        ensures
            r == self@[offset as int],
    {
        let mut i: usize = 0;
        let mut before: usize = 0;
        let n: usize = self.lines.len();
        assert(self.lines@.skip(0) =~= self.lines@);
        loop
            invariant
                n == self.lines@.len(),
                i <= self.lines@.len(),
                before <= offset,
                offset - before < expand(self.lines@.skip(i as int)).len(),
                self@[offset as int] == expand(self.lines@.skip(i as int))[offset - before],
                self@ == expand(self.lines@),
            decreases self.lines@.len() - i,
        {
            proof {
                let rest = self.lines@.skip(i as int);
                if rest.len() == 0 {
                    assert(expand(rest).len() == 0);
                }
                assert(i < self.lines@.len());
                assert(rest.drop_first() =~= self.lines@.skip(i + 1));
                assert(rest[0] == self.lines@[i as int]);
            }
            let run = self.lines[i];
            if offset - before < run.repeat {
                return run.line_no;
            }
            before = before + run.repeat;
            i = i + 1;
        }
    }
}

/// The views of a sequence of values.
pub open spec fn views(values: Seq<Value>) -> Seq<ValueView> {
    Seq::new(values.len(), |i: int| values[i]@)
}

/// What a chunk is: its code, its constants, and the line of each code byte.
pub struct ChunkView {
    pub code: Seq<u8>,
    pub constants: Seq<ValueView>,
    pub lines: Seq<u64>,
}

/// A compiled program.
pub struct Chunk {
    code: Vec<u8>,
    constants: Vec<Value>,
    lines: Lines,
}

impl View for Chunk {
    type V = ChunkView;

    closed spec fn view(&self) -> ChunkView {
        ChunkView { code: self.code@, constants: views(self.constants@), lines: self.lines@ }
    }
}

/// The mnemonic of an opcode; `None` for a byte that is no opcode.
pub open spec fn mnemonic(op: u8) -> Option<Seq<char>> {
    if op == OP_CONSTANT {
        Some("OP_CONSTANT"@)
    } else if op == OP_RETURN {
        Some("OP_RETURN"@)
    } else if op == OP_NEGATE {
        Some("OP_NEGATE"@)
    } else if op == OP_NOT {
        Some("OP_NOT"@)
    } else if op == OP_NIL {
        Some("OP_NIL"@)
    } else if op == OP_TRUE {
        Some("OP_TRUE"@)
    } else if op == OP_FALSE {
        Some("OP_FALSE"@)
    } else if op == OP_ADD {
        Some("OP_ADD"@)
    } else if op == OP_SUBTRACT {
        Some("OP_SUBTRACT"@)
    } else if op == OP_MULTIPLY {
        Some("OP_MULTIPLY"@)
    } else if op == OP_DIVIDE {
        Some("OP_DIVIDE"@)
    } else if op == OP_EQUAL {
        Some("OP_EQUAL"@)
    } else if op == OP_GREATER {
        Some("OP_GREATER"@)
    } else if op == OP_LESS {
        Some("OP_LESS"@)
    } else if op == OP_POP {
        Some("OP_POP"@)
    } else if op == OP_GET_GLOBAL {
        Some("OP_GET_GLOBAL"@)
    } else if op == OP_DEFINE_GLOBAL {
        Some("OP_DEFINE_GLOBAL"@)
    } else if op == OP_SET_GLOBAL {
        Some("OP_SET_GLOBAL"@)
    } else if op == OP_PRINT {
        Some("OP_PRINT"@)
    } else {
        None
    }
}

/// The name of an opcode, for a listing.
pub fn opcode_name(op: u8) -> (r: Option<&'static str>)
    ensures
        match r {
            Some(name) => mnemonic(op) == Some(name@),
            None => mnemonic(op) is None,
        },
{
    match op {
        OP_CONSTANT => Some("OP_CONSTANT"),
        OP_RETURN => Some("OP_RETURN"),
        OP_NEGATE => Some("OP_NEGATE"),
        OP_NOT => Some("OP_NOT"),
        OP_NIL => Some("OP_NIL"),
        OP_TRUE => Some("OP_TRUE"),
        OP_FALSE => Some("OP_FALSE"),
        OP_ADD => Some("OP_ADD"),
        OP_SUBTRACT => Some("OP_SUBTRACT"),
        OP_MULTIPLY => Some("OP_MULTIPLY"),
        OP_DIVIDE => Some("OP_DIVIDE"),
        OP_EQUAL => Some("OP_EQUAL"),
        OP_GREATER => Some("OP_GREATER"),
        OP_LESS => Some("OP_LESS"),
        OP_POP => Some("OP_POP"),
        OP_GET_GLOBAL => Some("OP_GET_GLOBAL"),
        OP_DEFINE_GLOBAL => Some("OP_DEFINE_GLOBAL"),
        OP_SET_GLOBAL => Some("OP_SET_GLOBAL"),
        OP_PRINT => Some("OP_PRINT"),
        _ => None,
    }
}

/// One instruction of a listing, as the model of [`Instruction`].
pub struct InstructionView {
    pub offset: int,
    pub line: u64,
    pub same_line: bool,
    pub opcode: u8,
    pub operand: Option<u8>,
    pub constant: Option<ValueView>,
    pub next: int,
}

/// One decoded instruction.
///
/// `same_line` tells that the byte before this instruction comes from the same
/// source line, so a listing shows a continuation mark in place of the line.
/// `operand` is the operand byte of an opcode that takes one, `constant` the
/// pool entry that it selects; either is `None` where the code ends early or
/// the index is outside the pool. `next` is the offset of the next instruction.
pub struct Instruction {
    pub offset: usize,
    pub line: u64,
    pub same_line: bool,
    pub opcode: u8,
    pub operand: Option<u8>,
    pub constant: Option<Value>,
    pub next: usize,
}

impl View for Instruction {
    type V = InstructionView;

    open spec fn view(&self) -> InstructionView {
        InstructionView {
            offset: self.offset as int,
            line: self.line,
            same_line: self.same_line,
            opcode: self.opcode,
            operand: self.operand,
            constant: match self.constant {
                Some(v) => Some(v@),
                None => None,
            },
            next: self.next as int,
        }
    }
}

/// The instruction that starts at `offset`.
pub open spec fn decoded(c: ChunkView, offset: int) -> InstructionView
    recommends
        0 <= offset < c.code.len(),
        c.lines.len() == c.code.len(),
{
    let opcode = c.code[offset];
    let operand = if has_operand(opcode) && offset + 1 < c.code.len() {
        Some(c.code[offset + 1])
    } else {
        None
    };
    InstructionView {
        offset,
        line: c.lines[offset],
        same_line: offset > 0 && c.lines[offset - 1] == c.lines[offset],
        opcode,
        operand,
        constant: match operand {
            Some(index) => if index < c.constants.len() {
                Some(c.constants[index as int])
            } else {
                None
            },
            None => None,
        },
        next: if operand is Some {
            offset + 2
        } else {
            offset + 1
        },
    }
}

/// The instructions from `offset` to the end of the code, each starting where
/// the one before it ends.
pub open spec fn listing(c: ChunkView, offset: int) -> Seq<InstructionView>
    decreases c.code.len() - offset,
{
    if 0 <= offset < c.code.len() {
        seq![decoded(c, offset)] + listing(c, decoded(c, offset).next)
    } else {
        Seq::empty()
    }
}

/// The views of a sequence of instructions.
pub open spec fn instruction_views(list: Seq<Instruction>) -> Seq<InstructionView> {
    Seq::new(list.len(), |i: int| list[i]@)
}

/// What a sequence of writes, each a byte and the line it comes from, makes
/// of a chunk.
pub open spec fn written(c: ChunkView, writes: Seq<(u8, u64)>) -> ChunkView
    decreases writes.len(),
{
    if writes.len() == 0 {
        c
    } else {
        let before = written(c, writes.drop_last());
        ChunkView {
            code: before.code.push(writes.last().0),
            lines: before.lines.push(writes.last().1),
            ..before
        }
    }
}

/// Every code byte keeps the line that it was written with: whatever is
/// written after it, the line table gives that line for the byte's offset,
/// and the lines that were there before stay.
pub proof fn lemma_line_of_write(c: ChunkView, writes: Seq<(u8, u64)>, offset: int)
    requires
        c.lines.len() == c.code.len(),
        0 <= offset < c.code.len() + writes.len(),
    ensures
        written(c, writes).code.len() == c.code.len() + writes.len(),
        written(c, writes).lines.len() == written(c, writes).code.len(),
        written(c, writes).constants == c.constants,
        offset < c.code.len() ==> written(c, writes).lines[offset] == c.lines[offset] && written(
            c,
            writes,
        ).code[offset] == c.code[offset],
        offset >= c.code.len() ==> written(c, writes).lines[offset] == writes[offset
            - c.code.len()].1 && written(c, writes).code[offset] == writes[offset
            - c.code.len()].0,
    decreases writes.len(),
{
    if writes.len() > 0 {
        let rest = writes.drop_last();
        if offset < c.code.len() + rest.len() {
            lemma_line_of_write(c, rest, offset);
        } else {
            lemma_written_len(c, rest);
        }
    }
}

/// Each write adds one byte and one line.
proof fn lemma_written_len(c: ChunkView, writes: Seq<(u8, u64)>)
    requires
        c.lines.len() == c.code.len(),
    ensures
        written(c, writes).code.len() == c.code.len() + writes.len(),
        written(c, writes).lines.len() == written(c, writes).code.len(),
        written(c, writes).constants == c.constants,
    decreases writes.len(),
{
    if writes.len() > 0 {
        lemma_written_len(c, writes.drop_last());
    }
}

impl Chunk {
    /// Every code byte has its line, and the constants fit a one-byte index.
    pub closed spec fn well_formed(&self) -> bool {
        &&& self.lines@.len() == self.code@.len()
        &&& self.constants@.len() <= MAX_CONSTANTS
        &&& self.lines.compact()
    }

    /// The runs of the line table.
    pub closed spec fn line_runs(&self) -> Seq<Line> {
        self.lines.run_list()
    }

    /// In a well-formed chunk every code byte has its line: the lengths of the
    /// line table's runs add up to the length of the code. The pool holds at
    /// most 256 constants.
    pub proof fn lemma_well_formed(&self)
        requires
            self.well_formed(),
        ensures
            self@.lines.len() == self@.code.len(),
            total_repeats(self.line_runs()) == self@.code.len(),
            self@.constants.len() <= MAX_CONSTANTS,
    {
        self.lines.lemma_total();
    }

    /// An empty chunk.
    pub fn new() -> (r: Self)
        ensures
            r.well_formed(),
            r@.code == Seq::<u8>::empty(),
            r@.constants == Seq::<ValueView>::empty(),
            r@.lines == Seq::<u64>::empty(),
    {
        let r = Chunk { code: Vec::new(), constants: Vec::new(), lines: Lines::new() };
        assert(views(r.constants@) =~= Seq::<ValueView>::empty());
        r
    }

    /// Appends one code byte and records the line it comes from.
    pub fn write(&mut self, byte: u8, line: u64)
        requires
            old(self).well_formed(),
        ensures
            final(self).well_formed(),
            final(self)@.code == old(self)@.code.push(byte),
            final(self)@.lines == old(self)@.lines.push(line),
            final(self)@.constants == old(self)@.constants,
            final(self)@ == written(old(self)@, seq![(byte, line)]),
    {
        proof {
            assert(seq![(byte, line)].drop_last() =~= Seq::<(u8, u64)>::empty());
            reveal_with_fuel(written, 2);
        }
        self.code.push(byte);
        let n: usize = self.code.len();
        self.lines.push_line(line);
    }

    /// Adds a constant to the pool and emits the instruction that loads it:
    /// `OP_CONSTANT` and the index, both on `line`. With a full pool nothing is
    /// added or emitted.
    pub fn write_constant(&mut self, constant: Value, line: u64) -> (r: Result<
        usize,
        CompileErrorPayload,
    >)
        requires
            old(self).well_formed(),
        ensures
            final(self).well_formed(),
            match r {
                Ok(index) => {
                    &&& old(self)@.constants.len() < MAX_CONSTANTS
                    &&& index == old(self)@.constants.len()
                    &&& final(self)@.constants == old(self)@.constants.push(constant@)
                    &&& final(self)@.code == old(self)@.code.push(OP_CONSTANT).push(index as u8)
                    &&& final(self)@.lines == old(self)@.lines.push(line).push(line)
                },
                Err(e) => {
                    &&& old(self)@.constants.len() == MAX_CONSTANTS
                    &&& e is TooManyConstants
                    &&& final(self)@ == old(self)@
                },
            },
    {
        match self.add_constant(constant) {
            Ok(index) => {
                self.write(OP_CONSTANT, line);
                self.write(index as u8, line);
                Ok(index)
            },
            Err(e) => Err(e),
        }
    }

    /// The code byte at `offset`.
    pub fn read_byte(&self, offset: usize) -> (r: u8)
        requires
            offset < self@.code.len(),
        ensures
            r == self@.code[offset as int],
    {
        self.code[offset]
    }

    /// The constant that the operand byte at `offset` selects.
    pub fn read_constant(&self, offset: usize) -> (r: &Value)
        requires
            offset < self@.code.len(),
            self@.code[offset as int] < self@.constants.len(),
        ensures
            r@ == self@.constants[self@.code[offset as int] as int],
    {
        let index = self.read_byte(offset);
        &self.constants[index as usize]
    }

    /// Adds a constant to the pool and returns its index. The pool holds at
    /// most 256 constants; with a full pool nothing is added.
    pub fn add_constant(&mut self, value: Value) -> (r: Result<usize, CompileErrorPayload>)
        requires
            old(self).well_formed(),
        ensures
            final(self).well_formed(),
            final(self)@.code == old(self)@.code,
            final(self)@.lines == old(self)@.lines,
            match r {
                Ok(index) => {
                    &&& old(self)@.constants.len() < MAX_CONSTANTS
                    &&& index == old(self)@.constants.len()
                    &&& index == final(self)@.constants.len() - 1
                    &&& final(self)@.constants == old(self)@.constants.push(value@)
                },
                Err(e) => {
                    &&& old(self)@.constants.len() == MAX_CONSTANTS
                    &&& e is TooManyConstants
                    &&& final(self)@.constants == old(self)@.constants
                },
            },
    {
        if self.constants.len() >= MAX_CONSTANTS {
            return Err(CompileErrorPayload::TooManyConstants);
        }
        self.constants.push(value);
        assert(views(self.constants@) =~= views(old(self).constants@).push(value@));
        Ok(self.constants.len() - 1)
    }

    /// The number of code bytes.
    pub fn len(&self) -> (r: usize)
        ensures
            r == self@.code.len(),
    {
        self.code.len()
    }

    /// The number of constants in the pool.
    pub fn constant_count(&self) -> (r: usize)
        ensures
            r == self@.constants.len(),
    {
        self.constants.len()
    }

    /// The source line of the code byte at `offset`.
    pub fn line_at(&self, offset: usize) -> (r: u64)
        requires
            self.well_formed(),
            offset < self@.code.len(),
        ensures
            r == self@.lines[offset as int],
    {
        self.lines.find_line_no(offset)
    }

    /// Decodes the whole code into a listing, instruction by instruction.
    pub fn disassemble(&self) -> (r: Vec<Instruction>)
        requires
            self.well_formed(),
        ensures
            instruction_views(r@) == listing(self@, 0),
    {
        let count = self.code.len();
        let mut out: Vec<Instruction> = Vec::new();
        let mut i: usize = 0;
        assert(instruction_views(out@) + listing(self@, 0) =~= listing(self@, 0));
        while i < count
            invariant
                self.well_formed(),
                count == self@.code.len(),
                listing(self@, 0) == instruction_views(out@) + listing(self@, i as int),
            decreases count + 2 - i,
        {
            let ghost before = out@;
            let instruction = self.disassemble_instruction(i);
            let next = instruction.next;
            out.push(instruction);
            proof {
                assert(instruction_views(out@) =~= instruction_views(before).push(instruction@));
                assert(instruction_views(before) + (seq![instruction@] + listing(
                    self@,
                    next as int,
                )) =~= instruction_views(out@) + listing(self@, next as int));
            }
            i = next;
        }
        assert(instruction_views(out@) + Seq::<InstructionView>::empty() =~= instruction_views(
            out@,
        ));
        out
    }

    /// Decodes the instruction that starts at `offset`.
    pub fn disassemble_instruction(&self, offset: usize) -> (r: Instruction)
        requires
            self.well_formed(),
            offset < self@.code.len(),
        ensures
            r@ == decoded(self@, offset as int),
            offset < r.next <= self@.code.len() + 1,
    {
        let line = self.lines.find_line_no(offset);
        let same_line = offset > 0 && self.lines.find_line_no(offset - 1) == line;
        let opcode = self.code[offset];
        let count = self.code.len();
        let operand = if takes_operand(opcode) && offset + 1 < count {
            Some(self.code[offset + 1])
        } else {
            None
        };
        let constant = match operand {
            Some(index) => if (index as usize) < self.constants.len() {
                Some(self.constants[index as usize].clone())
            } else {
                None
            },
            None => None,
        };
        let next = if operand.is_some() {
            offset + 2
        } else {
            offset + 1
        };
        Instruction { offset, line, same_line, opcode, operand, constant, next }
    }
}

} // verus!

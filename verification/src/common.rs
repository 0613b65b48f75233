//! The instruction set: one byte per opcode, some followed by one operand byte.
use vstd::prelude::*;

verus! {

pub const OP_CONSTANT: u8 = 0x00;

pub const OP_RETURN: u8 = 0x01;

pub const OP_NEGATE: u8 = 0x02;

pub const OP_NOT: u8 = 0x03;

pub const OP_NIL: u8 = 0x04;

pub const OP_TRUE: u8 = 0x05;

pub const OP_FALSE: u8 = 0x06;

pub const OP_ADD: u8 = 0x07;

pub const OP_SUBTRACT: u8 = 0x08;

pub const OP_MULTIPLY: u8 = 0x09;

pub const OP_DIVIDE: u8 = 0x0a;

pub const OP_EQUAL: u8 = 0x0b;

pub const OP_GREATER: u8 = 0x0c;

pub const OP_LESS: u8 = 0x0d;

pub const OP_POP: u8 = 0x0e;

pub const OP_GET_GLOBAL: u8 = 0x0f;

pub const OP_DEFINE_GLOBAL: u8 = 0x10;

pub const OP_SET_GLOBAL: u8 = 0x11;

pub const OP_PRINT: u8 = 0x12;

/// Whether `op` is one of the nineteen opcodes of the instruction set.
pub open spec fn is_opcode(op: u8) -> bool {
    op <= OP_PRINT
}

/// Whether the opcode is followed by one operand byte, an index into the
/// constant pool.
pub open spec fn has_operand(op: u8) -> bool {
    op == OP_CONSTANT || op == OP_GET_GLOBAL || op == OP_DEFINE_GLOBAL || op == OP_SET_GLOBAL
}

/// Tells whether an opcode takes an operand byte.
pub fn takes_operand(op: u8) -> (r: bool)
    ensures
        r == has_operand(op),
{
    op == OP_CONSTANT || op == OP_GET_GLOBAL || op == OP_DEFINE_GLOBAL || op == OP_SET_GLOBAL
}

} // verus!

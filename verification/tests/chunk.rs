use lox_bytecode::chunk::{opcode_name, Chunk, Lines};
use lox_bytecode::common::{
    takes_operand, OP_ADD, OP_CONSTANT, OP_DEFINE_GLOBAL, OP_GET_GLOBAL, OP_NIL, OP_PRINT,
    OP_RETURN, OP_SET_GLOBAL,
};
use lox_bytecode::compiler::CompileErrorPayload;
use lox_bytecode::value::Value;

#[test]
fn test_lines_give_back_the_line_of_each_push() {
    let pushed = vec![1u64, 1, 1, 2, 3, 3, 1, 1, 7, 7, 7, 7, 2];
    let mut lines = Lines::new();
    for line in pushed.iter() {
        lines.push_line(*line);
    }
    for (offset, line) in pushed.iter().enumerate() {
        assert_eq!(lines.find_line_no(offset), *line);
    }
}

#[test]
fn test_single_line() {
    let mut lines = Lines::new();
    lines.push_line(0);
    assert_eq!(lines.find_line_no(0), 0);
}

#[test]
fn test_write_and_read_byte() {
    let mut chunk = Chunk::new();
    assert_eq!(chunk.len(), 0);
    chunk.write(OP_NIL, 1);
    chunk.write(OP_PRINT, 1);
    chunk.write(OP_RETURN, 2);
    assert_eq!(chunk.len(), 3);
    assert_eq!(chunk.read_byte(0), OP_NIL);
    assert_eq!(chunk.read_byte(1), OP_PRINT);
    assert_eq!(chunk.read_byte(2), OP_RETURN);
    assert_eq!(chunk.line_at(0), 1);
    assert_eq!(chunk.line_at(1), 1);
    assert_eq!(chunk.line_at(2), 2);
}

#[test]
fn test_add_constant_returns_consecutive_indices() {
    let mut chunk = Chunk::new();
    for i in 0..256usize {
        let index = chunk.add_constant(Value::number(i as u64)).unwrap();
        assert_eq!(index, i);
        assert_eq!(index, chunk.constant_count() - 1);
    }
}

#[test]
fn test_constant_number_257_is_refused() {
    let mut chunk = Chunk::new();
    for i in 0..256u64 {
        assert!(chunk.add_constant(Value::number(i)).is_ok());
    }
    assert!(matches!(
        chunk.add_constant(Value::Nil),
        Err(CompileErrorPayload::TooManyConstants)
    ));
    assert_eq!(chunk.constant_count(), 256);
    assert!(matches!(
        chunk.write_constant(Value::Nil, 1),
        Err(CompileErrorPayload::TooManyConstants)
    ));
    assert_eq!(chunk.len(), 0);
}

#[test]
fn test_write_constant_emits_opcode_and_index() {
    let mut chunk = Chunk::new();
    assert_eq!(chunk.write_constant(Value::string("a"), 3).unwrap(), 0);
    assert_eq!(chunk.write_constant(Value::string("b"), 4).unwrap(), 1);
    assert_eq!(chunk.len(), 4);
    assert_eq!(chunk.read_byte(0), OP_CONSTANT);
    assert_eq!(chunk.read_byte(1), 0);
    assert_eq!(chunk.read_byte(2), OP_CONSTANT);
    assert_eq!(chunk.read_byte(3), 1);
    assert!(chunk.read_constant(1).equals(&Value::string("a")));
    assert!(chunk.read_constant(3).equals(&Value::string("b")));
    assert_eq!(chunk.line_at(0), 3);
    assert_eq!(chunk.line_at(1), 3);
    assert_eq!(chunk.line_at(3), 4);
}

#[test]
fn test_disassemble() {
    let mut chunk = Chunk::new();
    chunk.write_constant(Value::string("x"), 1).unwrap();
    chunk.write(OP_ADD, 1);
    chunk.write(OP_PRINT, 2);
    chunk.write(0xff, 2);
    chunk.write(OP_GET_GLOBAL, 3);
    chunk.write(9, 3);
    chunk.write(OP_CONSTANT, 4);
    let listing = chunk.disassemble();
    assert_eq!(listing.len(), 6);

    assert_eq!(listing[0].offset, 0);
    assert_eq!(listing[0].opcode, OP_CONSTANT);
    assert_eq!(listing[0].line, 1);
    assert!(!listing[0].same_line);
    assert_eq!(listing[0].operand, Some(0));
    assert!(listing[0].constant.as_ref().unwrap().equals(&Value::string("x")));
    assert_eq!(listing[0].next, 2);

    assert_eq!(listing[1].offset, 2);
    assert_eq!(listing[1].opcode, OP_ADD);
    assert!(listing[1].same_line);
    assert_eq!(listing[1].operand, None);
    assert_eq!(listing[1].next, 3);

    assert_eq!(listing[2].opcode, OP_PRINT);
    assert_eq!(listing[2].line, 2);
    assert!(!listing[2].same_line);

    assert_eq!(listing[3].opcode, 0xff);
    assert!(listing[3].same_line);
    assert_eq!(listing[3].next, 5);

    assert_eq!(listing[4].opcode, OP_GET_GLOBAL);
    assert_eq!(listing[4].operand, Some(9));
    assert!(listing[4].constant.is_none());
    assert_eq!(listing[4].next, 7);

    assert_eq!(listing[5].offset, 7);
    assert_eq!(listing[5].opcode, OP_CONSTANT);
    assert_eq!(listing[5].operand, None);
    assert_eq!(listing[5].next, 8);
}

#[test]
fn test_opcode_names() {
    assert_eq!(opcode_name(0x00), Some("OP_CONSTANT"));
    assert_eq!(opcode_name(0x01), Some("OP_RETURN"));
    assert_eq!(opcode_name(0x0b), Some("OP_EQUAL"));
    assert_eq!(opcode_name(0x11), Some("OP_SET_GLOBAL"));
    assert_eq!(opcode_name(0x12), Some("OP_PRINT"));
    assert_eq!(opcode_name(0x13), None);
    assert_eq!(opcode_name(0xff), None);
}

#[test]
fn test_opcodes_with_an_operand() {
    for op in 0..=255u8 {
        let expected =
            op == OP_CONSTANT || op == OP_GET_GLOBAL || op == OP_DEFINE_GLOBAL || op == OP_SET_GLOBAL;
        assert_eq!(takes_operand(op), expected);
    }
}

#[test]
fn test_opcode_numbers() {
    assert_eq!(OP_CONSTANT, 0x00);
    assert_eq!(OP_RETURN, 0x01);
    assert_eq!(lox_bytecode::common::OP_NEGATE, 0x02);
    assert_eq!(lox_bytecode::common::OP_NOT, 0x03);
    assert_eq!(OP_NIL, 0x04);
    assert_eq!(lox_bytecode::common::OP_TRUE, 0x05);
    assert_eq!(lox_bytecode::common::OP_FALSE, 0x06);
    assert_eq!(OP_ADD, 0x07);
    assert_eq!(lox_bytecode::common::OP_SUBTRACT, 0x08);
    assert_eq!(lox_bytecode::common::OP_MULTIPLY, 0x09);
    assert_eq!(lox_bytecode::common::OP_DIVIDE, 0x0a);
    assert_eq!(lox_bytecode::common::OP_EQUAL, 0x0b);
    assert_eq!(lox_bytecode::common::OP_GREATER, 0x0c);
    assert_eq!(lox_bytecode::common::OP_LESS, 0x0d);
    assert_eq!(lox_bytecode::common::OP_POP, 0x0e);
    assert_eq!(OP_GET_GLOBAL, 0x0f);
    assert_eq!(OP_DEFINE_GLOBAL, 0x10);
    assert_eq!(OP_SET_GLOBAL, 0x11);
    assert_eq!(OP_PRINT, 0x12);
}

use lox_bytecode::chunk::Chunk;
use lox_bytecode::common::{
    OP_ADD, OP_CONSTANT, OP_DEFINE_GLOBAL, OP_EQUAL, OP_GET_GLOBAL, OP_NEGATE, OP_NIL, OP_NOT,
    OP_POP, OP_PRINT, OP_RETURN, OP_SET_GLOBAL, OP_SUBTRACT, OP_TRUE,
};
use lox_bytecode::compiler::compile;
use lox_bytecode::scanner::number_literals;
use lox_bytecode::value::{Text, Value};
use lox_bytecode::vm::{Action, ArithOp, InterpretError, VM};

fn compiled(source: &str) -> Chunk {
    let table: Vec<u64> =
        number_literals(source).iter().map(|s| s.parse::<f64>().unwrap().to_bits()).collect();
    let mut chunk = Chunk::new();
    let result = compile(source, &table, &mut chunk);
    assert!(result.is_ok(), "{:?}", result);
    chunk
}

fn compute(op: ArithOp, a: u64, b: u64) -> u64 {
    let (a, b) = (f64::from_bits(a), f64::from_bits(b));
    let r = match op {
        ArithOp::Add => a + b,
        ArithOp::Subtract => a - b,
        ArithOp::Multiply => a * b,
        ArithOp::Divide => a / b,
    };
    r.to_bits()
}

fn execute(chunk: &Chunk) -> (String, Result<(), InterpretError>) {
    let mut vm = VM::new(chunk);
    let mut out = String::new();
    loop {
        match vm.interpret() {
            Ok(Action::Print(Text::Literal(s))) => {
                out.push_str(&s);
                out.push('\n');
            }
            Ok(Action::Print(Text::Number(bits))) => {
                out.push_str(&format!("{}\n", f64::from_bits(bits)));
            }
            Ok(Action::Arithmetic(op, a, b)) => {
                if let Err(e) = vm.resume(compute(op, a, b)) {
                    return (out, Err(e));
                }
            }
            Ok(Action::Halt) => return (out, Ok(())),
            Ok(Action::Overflow) => panic!("stack overflow"),
            Ok(Action::Continue) => unreachable!(),
            Err(e) => return (out, Err(e)),
        }
    }
}

fn output_of(source: &str) -> String {
    let (out, result) = execute(&compiled(source));
    assert_eq!(result, Ok(()));
    out
}

fn failure_of(source: &str) -> InterpretError {
    execute(&compiled(source)).1.unwrap_err()
}

fn bytes(code: &[u8]) -> Chunk {
    let mut chunk = Chunk::new();
    for b in code {
        chunk.write(*b, 1);
    }
    chunk
}

#[test]
fn test_run_print_sum() {
    assert_eq!(output_of("print 1 + 2;"), "3\n");
}

#[test]
fn test_grouping_and_negation() {
    assert_eq!(output_of("print (-1 + 2) * 3 - -4;"), "7\n");
}

#[test]
fn test_string_concatenation() {
    assert_eq!(output_of("print \"st\" + \"r\";"), "\"str\"\n");
    assert_eq!(output_of("print \"a\" + \"b\" + \"c\";"), "\"abc\"\n");
    assert_eq!(output_of("print \"\" + \"\";"), "\"\"\n");
}

#[test]
fn test_globals() {
    assert_eq!(
        output_of("var y = 22; var x = 10; x = y * 3 - 2; print x + y;"),
        "86\n"
    );
    assert_eq!(output_of("var a; print a;"), "nil\n");
    assert_eq!(output_of("var a = 1; var a = \"again\"; print a;"), "\"again\"\n");
    assert_eq!(output_of("var a = 1; print a = 2; print a;"), "2\n2\n");
}

#[test]
fn test_not_of_comparison() {
    assert_eq!(output_of("print !(5 == 4);"), "true\n");
}

#[test]
fn test_nil_is_not_false() {
    assert_eq!(output_of("print nil == false;"), "false\n");
    assert_eq!(output_of("print nil == nil;"), "true\n");
    assert_eq!(output_of("print 0 == false;"), "false\n");
    assert_eq!(output_of("print \"\" == nil;"), "false\n");
}

#[test]
fn test_equality_of_strings_is_by_content() {
    assert_eq!(output_of("print \"ab\" == \"a\" + \"b\";"), "true\n");
    assert_eq!(output_of("print \"ab\" != \"ab\";"), "false\n");
}

#[test]
fn test_falsiness_under_not() {
    assert_eq!(output_of("print !nil;"), "true\n");
    assert_eq!(output_of("print !false;"), "true\n");
    assert_eq!(output_of("print !0;"), "false\n");
    assert_eq!(output_of("print !\"\";"), "false\n");
    assert_eq!(output_of("print !!nil;"), "false\n");
    assert_eq!(output_of("print !!true;"), "true\n");
    assert_eq!(output_of("print !!false;"), "false\n");
}

#[test]
fn test_comparisons() {
    assert_eq!(output_of("print 1 < 2;"), "true\n");
    assert_eq!(output_of("print 2 < 1;"), "false\n");
    assert_eq!(output_of("print 2 <= 2;"), "true\n");
    assert_eq!(output_of("print 2 > 1;"), "true\n");
    assert_eq!(output_of("print 1 >= 2;"), "false\n");
    assert_eq!(output_of("print -1 < 0;"), "true\n");
}

#[test]
fn test_operand_order() {
    assert_eq!(output_of("print 7 - 2;"), "5\n");
    assert_eq!(output_of("print 8 / 2;"), "4\n");
    assert_eq!(output_of("print \"left\" + \"right\";"), "\"leftright\"\n");
}

#[test]
fn test_division_by_zero_is_no_error() {
    assert_eq!(output_of("print 1 / 0;"), "inf\n");
    assert_eq!(output_of("print -1 / 0;"), "-inf\n");
    assert_eq!(output_of("print 0 / 0 == 0 / 0;"), "false\n");
}

#[test]
fn test_numbers_print_in_shortest_form() {
    assert_eq!(output_of("print 0.1 + 0.2;"), "0.30000000000000004\n");
    assert_eq!(output_of("print 2.50;"), "2.5\n");
    assert_eq!(output_of("print 100;"), "100\n");
}

#[test]
fn test_addition_and_multiplication_commute() {
    assert_eq!(output_of("print 1.5 + 2.25 == 2.25 + 1.5;"), "true\n");
    assert_eq!(output_of("print 1.5 * 2.25 == 2.25 * 1.5;"), "true\n");
}

#[test]
fn test_several_prints() {
    assert_eq!(output_of("print 1; print \"two\"; print nil; print true;"), "1\n\"two\"\nnil\ntrue\n");
}

#[test]
fn test_negating_a_string_fails() {
    assert_eq!(failure_of("print -\"hi\";"), InterpretError::RuntimeError);
}

#[test]
fn test_reading_an_undefined_global_fails() {
    assert_eq!(failure_of("print undefined_name;"), InterpretError::RuntimeError);
}

#[test]
fn test_assigning_an_undefined_global_fails() {
    assert_eq!(failure_of("x = 1;"), InterpretError::RuntimeError);
    assert_eq!(output_of("var x; x = 1; print x;"), "1\n");
}

#[test]
fn test_type_errors() {
    assert_eq!(failure_of("print 1 + \"a\";"), InterpretError::RuntimeError);
    assert_eq!(failure_of("print \"a\" - \"b\";"), InterpretError::RuntimeError);
    assert_eq!(failure_of("print nil < 1;"), InterpretError::RuntimeError);
    assert_eq!(failure_of("print true * 2;"), InterpretError::RuntimeError);
    assert_eq!(failure_of("print -nil;"), InterpretError::RuntimeError);
}

#[test]
fn test_output_before_a_failure_stays() {
    let (out, result) = execute(&compiled("print 1; print -nil; print 2;"));
    assert_eq!(out, "1\n");
    assert_eq!(result, Err(InterpretError::RuntimeError));
}

#[test]
fn test_pop_from_empty_stack_fails() {
    assert_eq!(execute(&bytes(&[OP_POP])).1, Err(InterpretError::RuntimeError));
    assert_eq!(execute(&bytes(&[OP_PRINT])).1, Err(InterpretError::RuntimeError));
    assert_eq!(execute(&bytes(&[OP_NOT])).1, Err(InterpretError::RuntimeError));
    assert_eq!(execute(&bytes(&[OP_NEGATE])).1, Err(InterpretError::RuntimeError));
    assert_eq!(execute(&bytes(&[OP_NIL, OP_EQUAL])).1, Err(InterpretError::RuntimeError));
    assert_eq!(execute(&bytes(&[OP_NIL, OP_ADD])).1, Err(InterpretError::RuntimeError));
}

#[test]
fn test_unknown_opcode_fails() {
    assert_eq!(execute(&bytes(&[0x13])).1, Err(InterpretError::CompileError));
    assert_eq!(execute(&bytes(&[OP_NIL, 0xff])).1, Err(InterpretError::CompileError));
}

#[test]
fn test_missing_operand_or_constant_fails() {
    assert_eq!(execute(&bytes(&[OP_CONSTANT])).1, Err(InterpretError::CompileError));
    assert_eq!(execute(&bytes(&[OP_CONSTANT, 0])).1, Err(InterpretError::CompileError));
    assert_eq!(execute(&bytes(&[OP_GET_GLOBAL, 3])).1, Err(InterpretError::CompileError));
}

#[test]
fn test_global_name_must_be_a_string() {
    let mut chunk = Chunk::new();
    chunk.add_constant(Value::Nil).unwrap();
    chunk.write(OP_NIL, 1);
    chunk.write(OP_DEFINE_GLOBAL, 1);
    chunk.write(0, 1);
    assert_eq!(execute(&chunk).1, Err(InterpretError::RuntimeError));
}

#[test]
fn test_return_halts() {
    let (out, result) = execute(&bytes(&[OP_TRUE, OP_PRINT, OP_RETURN, OP_NIL, OP_PRINT]));
    assert_eq!(out, "true\n");
    assert_eq!(result, Ok(()));
}

#[test]
fn test_end_of_code_halts() {
    let chunk = bytes(&[OP_NIL]);
    let mut vm = VM::new(&chunk);
    assert!(matches!(vm.interpret(), Ok(Action::Halt)));
    assert_eq!(vm.depth(), 1);
    assert!(matches!(vm.interpret(), Ok(Action::Halt)));
    assert!(matches!(vm.step(), Ok(Action::Halt)));
}

#[test]
fn test_stack_holds_256_values_and_no_more() {
    let chunk = bytes(&[OP_NIL; 257]);
    let mut vm = VM::new(&chunk);
    for _ in 0..256 {
        assert!(matches!(vm.step(), Ok(Action::Continue)));
    }
    assert_eq!(vm.depth(), 256);
    assert!(matches!(vm.step(), Ok(Action::Overflow)));
    assert!(matches!(vm.interpret(), Ok(Action::Overflow)));
    assert_eq!(vm.depth(), 256);
}

#[test]
fn test_full_stack_still_runs_what_does_not_push() {
    let mut code = vec![OP_NIL; 256];
    code.extend_from_slice(&[OP_NOT, OP_POP, OP_TRUE, OP_PRINT]);
    let (out, result) = execute(&bytes(&code));
    assert_eq!(out, "true\n");
    assert_eq!(result, Ok(()));
}

#[test]
fn test_arithmetic_waits_for_the_host() {
    let mut chunk = Chunk::new();
    chunk.write_constant(Value::number(7.0f64.to_bits()), 1).unwrap();
    chunk.write_constant(Value::number(2.0f64.to_bits()), 1).unwrap();
    chunk.write(OP_SUBTRACT, 1);
    chunk.write(OP_PRINT, 1);
    let mut vm = VM::new(&chunk);
    match vm.interpret() {
        Ok(Action::Arithmetic(ArithOp::Subtract, a, b)) => {
            assert_eq!(a, 7.0f64.to_bits());
            assert_eq!(b, 2.0f64.to_bits());
        }
        _ => panic!("the machine should ask for 7 - 2"),
    }
    assert_eq!(vm.depth(), 2);
    assert!(matches!(vm.interpret(), Ok(Action::Arithmetic(ArithOp::Subtract, _, _))));
    assert_eq!(vm.resume(5.0f64.to_bits()), Ok(()));
    assert_eq!(vm.depth(), 1);
    assert!(matches!(vm.interpret(), Ok(Action::Print(Text::Number(bits))) if bits == 5.0f64.to_bits()));
    assert!(matches!(vm.interpret(), Ok(Action::Halt)));
}

#[test]
fn test_resume_without_a_question_fails() {
    let chunk = bytes(&[OP_NIL, OP_NIL, OP_ADD]);
    let mut vm = VM::new(&chunk);
    assert_eq!(vm.resume(0), Err(InterpretError::RuntimeError));
    assert_eq!(vm.depth(), 0);
    assert!(matches!(vm.interpret(), Err(InterpretError::RuntimeError)));
    assert_eq!(vm.resume(0), Err(InterpretError::RuntimeError));
    assert_eq!(vm.depth(), 2);
    let empty = bytes(&[]);
    let mut vm = VM::new(&empty);
    assert_eq!(vm.resume(0), Err(InterpretError::RuntimeError));
}

#[test]
fn test_set_global_keeps_the_value_on_the_stack() {
    let mut chunk = Chunk::new();
    chunk.add_constant(Value::string("x")).unwrap();
    for b in [OP_NIL, OP_DEFINE_GLOBAL, 0, OP_TRUE, OP_SET_GLOBAL, 0] {
        chunk.write(b, 1);
    }
    let mut vm = VM::new(&chunk);
    assert!(matches!(vm.step(), Ok(Action::Continue)));
    assert!(matches!(vm.step(), Ok(Action::Continue)));
    assert_eq!(vm.depth(), 0);
    assert!(matches!(vm.step(), Ok(Action::Continue)));
    assert!(matches!(vm.step(), Ok(Action::Continue)));
    assert_eq!(vm.depth(), 1);
}

#[test]
fn test_disassemble_lists_the_chunk() {
    let chunk = compiled("print 1;");
    let vm = VM::new(&chunk);
    let listing = vm.disassemble();
    assert_eq!(listing.len(), 2);
    assert_eq!(listing[0].opcode, OP_CONSTANT);
    assert_eq!(listing[1].opcode, OP_PRINT);
}

use lox_bytecode::chunk::Chunk;
use lox_bytecode::common::{
    OP_ADD, OP_CONSTANT, OP_DEFINE_GLOBAL, OP_DIVIDE, OP_EQUAL, OP_FALSE, OP_GET_GLOBAL,
    OP_GREATER, OP_LESS, OP_MULTIPLY, OP_NEGATE, OP_NIL, OP_NOT, OP_POP, OP_PRINT, OP_SET_GLOBAL,
    OP_SUBTRACT, OP_TRUE,
};
use lox_bytecode::compiler::{compile, CompileError, CompileErrorPayload, Parser, Precedence};
use lox_bytecode::scanner::{number_literals, Scanner, TokenType};
use lox_bytecode::value::Value;

fn numbers(source: &str) -> Vec<u64> {
    number_literals(source).iter().map(|s| s.parse::<f64>().unwrap().to_bits()).collect()
}

fn compile_source(source: &str) -> (Chunk, Result<(), CompileError>) {
    let mut chunk = Chunk::new();
    let table = numbers(source);
    let result = compile(source, &table, &mut chunk);
    (chunk, result)
}

fn code_of(source: &str) -> Vec<u8> {
    let (chunk, result) = compile_source(source);
    assert!(result.is_ok(), "{:?}", result);
    (0..chunk.len()).map(|i| chunk.read_byte(i)).collect()
}

fn error_of(source: &str) -> CompileError {
    let (_, result) = compile_source(source);
    result.unwrap_err()
}

#[test]
fn test_empty_source_compiles_to_nothing() {
    assert_eq!(code_of(""), Vec::<u8>::new());
    assert_eq!(code_of("  // nothing here\n"), Vec::<u8>::new());
}

#[test]
fn test_print_sum() {
    let (chunk, result) = compile_source("print 1 + 2;");
    assert!(result.is_ok());
    assert_eq!(code_of("print 1 + 2;"), vec![OP_CONSTANT, 0, OP_CONSTANT, 1, OP_ADD, OP_PRINT]);
    assert_eq!(chunk.constant_count(), 2);
    assert!(chunk.read_constant(1).equals(&Value::number(1.0f64.to_bits())));
    assert!(chunk.read_constant(3).equals(&Value::number(2.0f64.to_bits())));
}

#[test]
fn test_literals() {
    assert_eq!(code_of("true; false; nil;"), vec![OP_TRUE, OP_POP, OP_FALSE, OP_POP, OP_NIL, OP_POP]);
}

#[test]
fn test_string_constant_has_no_quotes() {
    let (chunk, result) = compile_source("print \"st\" + \"r\";");
    assert!(result.is_ok());
    assert!(chunk.read_constant(1).equals(&Value::string("st")));
    assert!(chunk.read_constant(3).equals(&Value::string("r")));
    let (chunk, _) = compile_source("\"\";");
    assert!(chunk.read_constant(1).equals(&Value::string("")));
}

#[test]
fn test_binary_operators() {
    let with = |op: &[u8]| {
        let mut code = vec![OP_CONSTANT, 0, OP_CONSTANT, 1];
        code.extend_from_slice(op);
        code.push(OP_POP);
        code
    };
    assert_eq!(code_of("1 + 2;"), with(&[OP_ADD]));
    assert_eq!(code_of("1 - 2;"), with(&[OP_SUBTRACT]));
    assert_eq!(code_of("1 * 2;"), with(&[OP_MULTIPLY]));
    assert_eq!(code_of("1 / 2;"), with(&[OP_DIVIDE]));
    assert_eq!(code_of("1 == 2;"), with(&[OP_EQUAL]));
    assert_eq!(code_of("1 != 2;"), with(&[OP_EQUAL, OP_NOT]));
    assert_eq!(code_of("1 < 2;"), with(&[OP_LESS]));
    assert_eq!(code_of("1 <= 2;"), with(&[OP_GREATER, OP_NOT]));
    assert_eq!(code_of("1 > 2;"), with(&[OP_GREATER]));
    assert_eq!(code_of("1 >= 2;"), with(&[OP_LESS, OP_NOT]));
}

#[test]
fn test_unary_operators() {
    assert_eq!(code_of("-1;"), vec![OP_CONSTANT, 0, OP_NEGATE, OP_POP]);
    assert_eq!(code_of("!true;"), vec![OP_TRUE, OP_NOT, OP_POP]);
    assert_eq!(code_of("!!nil;"), vec![OP_NIL, OP_NOT, OP_NOT, OP_POP]);
    assert_eq!(code_of("- -1;"), vec![OP_CONSTANT, 0, OP_NEGATE, OP_NEGATE, OP_POP]);
}

#[test]
fn test_precedence_and_grouping() {
    assert_eq!(
        code_of("1 + 2 * 3;"),
        vec![OP_CONSTANT, 0, OP_CONSTANT, 1, OP_CONSTANT, 2, OP_MULTIPLY, OP_ADD, OP_POP]
    );
    assert_eq!(
        code_of("(1 + 2) * 3;"),
        vec![OP_CONSTANT, 0, OP_CONSTANT, 1, OP_ADD, OP_CONSTANT, 2, OP_MULTIPLY, OP_POP]
    );
    assert_eq!(
        code_of("1 - 2 - 3;"),
        vec![OP_CONSTANT, 0, OP_CONSTANT, 1, OP_SUBTRACT, OP_CONSTANT, 2, OP_SUBTRACT, OP_POP]
    );
    assert_eq!(
        code_of("1 < 2 == true;"),
        vec![OP_CONSTANT, 0, OP_CONSTANT, 1, OP_LESS, OP_TRUE, OP_EQUAL, OP_POP]
    );
}

#[test]
fn test_unary_binds_tighter_than_plus() {
    assert_eq!(
        code_of("-a + c;"),
        vec![OP_GET_GLOBAL, 0, OP_NEGATE, OP_GET_GLOBAL, 1, OP_ADD, OP_POP]
    );
}

#[test]
fn test_dot_is_no_operator() {
    let (chunk, result) = compile_source("-a.b + c;");
    let error = result.unwrap_err();
    assert!(matches!(error.payload, CompileErrorPayload::UnexpectedToken(TokenType::TOKEN_DOT)));
    assert_eq!(error.message.as_deref(), Some("Expect ; after expression"));
    // The negation is complete before the dot is met.
    let code: Vec<u8> = (0..chunk.len()).map(|i| chunk.read_byte(i)).collect();
    assert_eq!(code, vec![OP_GET_GLOBAL, 0, OP_NEGATE, OP_POP]);
}

#[test]
fn test_parser_by_hand() {
    let source = "print !nil;";
    let mut parser = Parser::new(Scanner::new(source), Chunk::new(), &[]);
    assert!(parser.program().is_ok());
    let chunk = parser.into_chunk();
    let code: Vec<u8> = (0..chunk.len()).map(|i| chunk.read_byte(i)).collect();
    assert_eq!(code, vec![OP_NIL, OP_NOT, OP_PRINT]);
}

#[test]
fn test_error_leaves_what_was_emitted() {
    let (chunk, result) = compile_source("print 1; print ;");
    assert!(result.is_err());
    let code: Vec<u8> = (0..chunk.len()).map(|i| chunk.read_byte(i)).collect();
    assert_eq!(code, vec![OP_CONSTANT, 0, OP_PRINT]);
}

#[test]
fn test_variable_declaration() {
    let (chunk, result) = compile_source("var y = 22;");
    assert!(result.is_ok());
    assert_eq!(code_of("var y = 22;"), vec![OP_CONSTANT, 1, OP_DEFINE_GLOBAL, 0]);
    assert_eq!(chunk.constant_count(), 2);
    assert!(chunk.read_constant(3).equals(&Value::string("y")));
    assert!(chunk.read_constant(1).equals(&Value::number(22.0f64.to_bits())));
    assert_eq!(code_of("var y;"), vec![OP_NIL, OP_DEFINE_GLOBAL, 0]);
}

#[test]
fn test_assignment_and_read() {
    assert_eq!(
        code_of("x = y;"),
        vec![OP_GET_GLOBAL, 1, OP_SET_GLOBAL, 0, OP_POP]
    );
    assert_eq!(code_of("x;"), vec![OP_GET_GLOBAL, 0, OP_POP]);
    assert_eq!(
        code_of("x = y = 1;"),
        vec![OP_CONSTANT, 2, OP_SET_GLOBAL, 1, OP_SET_GLOBAL, 0, OP_POP]
    );
}

#[test]
fn test_number_constants_follow_the_table() {
    let mut chunk = Chunk::new();
    let result = compile("print 1 + 2;", &[111, 222], &mut chunk);
    assert!(result.is_ok());
    assert!(chunk.read_constant(1).equals(&Value::number(111)));
    assert!(chunk.read_constant(3).equals(&Value::number(222)));
}

#[test]
fn test_short_number_table_stops_the_parse() {
    let mut chunk = Chunk::new();
    let error = compile("print 1 + 2;", &[111], &mut chunk).unwrap_err();
    assert!(matches!(error.payload, CompileErrorPayload::ParserError));
    assert_eq!(error.message.as_deref(), Some("Expect number value"));
}

#[test]
fn test_lines_cover_the_code() {
    let source = "var a = 1;\nprint a\n  + 2;\n\nprint \"x\ny\";";
    let (chunk, result) = compile_source(source);
    assert!(result.is_ok());
    let lines: Vec<u64> = (0..chunk.len()).map(|i| chunk.line_at(i)).collect();
    assert_eq!(lines, vec![1, 1, 1, 1, 2, 2, 3, 3, 3, 3, 6, 6, 6]);
}

#[test]
fn test_compile_appends_to_the_chunk() {
    let mut chunk = Chunk::new();
    assert!(compile("nil;", &[], &mut chunk).is_ok());
    assert!(compile("true;", &[], &mut chunk).is_ok());
    let code: Vec<u8> = (0..chunk.len()).map(|i| chunk.read_byte(i)).collect();
    assert_eq!(code, vec![OP_NIL, OP_POP, OP_TRUE, OP_POP]);
}

#[test]
fn test_expect_expression() {
    let error = error_of("1 +");
    assert!(matches!(error.payload, CompileErrorPayload::ParserError));
    assert_eq!(error.message.as_deref(), Some("Expect expression"));
    assert_eq!(error.line_no, 1);
    let error = error_of("\n\n;");
    assert_eq!(error.message.as_deref(), Some("Expect expression"));
    assert_eq!(error.line_no, 3);
}

#[test]
fn test_invalid_assignment_target() {
    let error = error_of("a + b = 3;");
    assert!(matches!(error.payload, CompileErrorPayload::ParserError));
    assert_eq!(error.message.as_deref(), Some("Invalid assignment target"));
    let error = error_of("1 = 2;");
    assert_eq!(error.message.as_deref(), Some("Invalid assignment target"));
}

#[test]
fn test_scanner_error() {
    let error = error_of("\"abc");
    assert!(matches!(error.payload, CompileErrorPayload::ScannerError));
    assert_eq!(error.message.as_deref(), Some("Invalid string literal"));
    assert_eq!(error.line_no, 1);
    let error = error_of("print 1;\nvar x = \"abc\n");
    assert!(matches!(error.payload, CompileErrorPayload::ScannerError));
    assert_eq!(error.message.as_deref(), Some("Invalid string literal"));
    assert_eq!(error.line_no, 3);
    let error = error_of("print 1 @ 2;");
    assert!(matches!(error.payload, CompileErrorPayload::ScannerError));
    assert_eq!(error.message.as_deref(), Some("Unexpected character"));
}

#[test]
fn test_unexpected_token() {
    let error = error_of("print 1");
    assert!(matches!(error.payload, CompileErrorPayload::UnexpectedToken(TokenType::TOKEN_EOF)));
    assert_eq!(error.message.as_deref(), Some("Expect ; after print statement"));
    let error = error_of("1 2;");
    assert!(matches!(
        error.payload,
        CompileErrorPayload::UnexpectedToken(TokenType::TOKEN_NUMBER)
    ));
    assert_eq!(error.message.as_deref(), Some("Expect ; after expression"));
    let error = error_of("var 1 = 2;");
    assert!(matches!(
        error.payload,
        CompileErrorPayload::UnexpectedToken(TokenType::TOKEN_NUMBER)
    ));
    assert_eq!(error.message.as_deref(), Some("Expect global variable"));
    let error = error_of("var x = 2");
    assert_eq!(error.message.as_deref(), Some("Expect ; after variable declaration"));
    let error = error_of("(1 + 2;");
    assert!(matches!(
        error.payload,
        CompileErrorPayload::UnexpectedToken(TokenType::TOKEN_SEMICOLON)
    ));
    assert_eq!(error.message.as_deref(), Some("expect ) after expression"));
}

#[test]
fn test_token_that_binds_but_is_no_operator() {
    let error = error_of("f(1);");
    assert!(matches!(
        error.payload,
        CompileErrorPayload::UnexpectedToken(TokenType::TOKEN_LEFT_PAREN)
    ));
    let error = error_of("a and b;");
    assert!(matches!(error.payload, CompileErrorPayload::UnexpectedToken(TokenType::TOKEN_AND)));
}

#[test]
fn test_too_many_constants() {
    let mut source = String::new();
    for i in 0..256 {
        source.push_str(&format!("print {};\n", i));
    }
    let (chunk, result) = compile_source(&source);
    assert!(result.is_ok());
    assert_eq!(chunk.constant_count(), 256);
    source.push_str("print 256;\n");
    let error = error_of(&source);
    assert!(matches!(error.payload, CompileErrorPayload::TooManyConstants));
    assert_eq!(error.line_no, 257);
    let mut names = String::new();
    for i in 0..257 {
        names.push_str(&format!("v{};\n", i));
    }
    assert!(matches!(error_of(&names).payload, CompileErrorPayload::TooManyConstants));
}

#[test]
fn test_precedence_ladder() {
    let ladder = vec![
        Precedence::PREC_NONE,
        Precedence::PREC_ASSIGNMENT,
        Precedence::PREC_OR,
        Precedence::PREC_AND,
        Precedence::PREC_EQUALITY,
        Precedence::PREC_COMPARISON,
        Precedence::PREC_TERM,
        Precedence::PREC_FACTOR,
        Precedence::PREC_UNARY,
        Precedence::PREC_CALL,
        Precedence::PREC_PRIMARY,
    ];
    for (i, p) in ladder.iter().enumerate() {
        assert_eq!(p.level() as usize, i);
        let next = if i + 1 < ladder.len() { ladder[i + 1] } else { ladder[i] };
        assert_eq!(p.higher(), next);
    }
    assert_eq!(Precedence::PREC_PRIMARY.higher(), Precedence::PREC_PRIMARY);
}

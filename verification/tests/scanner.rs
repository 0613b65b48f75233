use lox_bytecode::scanner::{number_literals, Scanner, Token, TokenType};

fn scan_all(source: &str) -> Vec<(TokenType, String, u64)> {
    let mut scanner = Scanner::new(source);
    let mut out = Vec::new();
    loop {
        let token = scanner.scan_token();
        let ty = token.ty;
        out.push((token.ty, token.raw.to_string(), token.line));
        if ty == TokenType::TOKEN_EOF || ty == TokenType::TOKEN_ERROR {
            return out;
        }
    }
}

fn kinds(source: &str) -> Vec<TokenType> {
    scan_all(source).into_iter().map(|t| t.0).collect()
}

#[test]
fn test_token_new_keeps_its_parts() {
    let token = Token::new(TokenType::TOKEN_PLUS, "+", 7);
    assert_eq!(token.ty, TokenType::TOKEN_PLUS);
    assert_eq!(token.raw, "+");
    assert_eq!(token.line, 7);
}

#[test]
fn test_empty_source_is_eof_on_line_one() {
    assert_eq!(scan_all(""), vec![(TokenType::TOKEN_EOF, String::new(), 1)]);
}

#[test]
fn test_eof_repeats() {
    let mut scanner = Scanner::new("  ");
    assert_eq!(scanner.scan_token().ty, TokenType::TOKEN_EOF);
    assert_eq!(scanner.scan_token().ty, TokenType::TOKEN_EOF);
    assert_eq!(scanner.scan_token().ty, TokenType::TOKEN_EOF);
}

#[test]
fn test_punctuation() {
    assert_eq!(
        kinds("( ) { } , . - + ; / *"),
        vec![
            TokenType::TOKEN_LEFT_PAREN,
            TokenType::TOKEN_RIGHT_PAREN,
            TokenType::TOKEN_LEFT_BRACE,
            TokenType::TOKEN_RIGHT_BRACE,
            TokenType::TOKEN_COMMA,
            TokenType::TOKEN_DOT,
            TokenType::TOKEN_MINUS,
            TokenType::TOKEN_PLUS,
            TokenType::TOKEN_SEMICOLON,
            TokenType::TOKEN_SLASH,
            TokenType::TOKEN_STAR,
            TokenType::TOKEN_EOF,
        ]
    );
}

#[test]
fn test_one_and_two_character_operators() {
    assert_eq!(
        kinds("! != = == < <= > >="),
        vec![
            TokenType::TOKEN_BANG,
            TokenType::TOKEN_BANG_EQUAL,
            TokenType::TOKEN_EQUAL,
            TokenType::TOKEN_EQUAL_EQUAL,
            TokenType::TOKEN_LESS,
            TokenType::TOKEN_LESS_EQUAL,
            TokenType::TOKEN_GREATER,
            TokenType::TOKEN_GREATER_EQUAL,
            TokenType::TOKEN_EOF,
        ]
    );
    assert_eq!(
        scan_all("!=="),
        vec![
            (TokenType::TOKEN_BANG_EQUAL, "!=".to_string(), 1),
            (TokenType::TOKEN_EQUAL, "=".to_string(), 1),
            (TokenType::TOKEN_EOF, String::new(), 1),
        ]
    );
}

#[test]
fn test_string_keeps_its_quotes() {
    assert_eq!(
        scan_all("\"abc\""),
        vec![
            (TokenType::TOKEN_STRING, "\"abc\"".to_string(), 1),
            (TokenType::TOKEN_EOF, String::new(), 1),
        ]
    );
    assert_eq!(scan_all("\"\"")[0], (TokenType::TOKEN_STRING, "\"\"".to_string(), 1));
}

#[test]
fn test_string_with_newline_keeps_it_and_counts_the_line() {
    let tokens = scan_all("\"a\nb\" x");
    assert_eq!(tokens[0], (TokenType::TOKEN_STRING, "\"a\nb\"".to_string(), 2));
    assert_eq!(tokens[1], (TokenType::TOKEN_IDENTIFIER, "x".to_string(), 2));
    assert_eq!(tokens[2], (TokenType::TOKEN_EOF, String::new(), 2));
}

#[test]
fn test_string_keeps_multibyte_text() {
    let tokens = scan_all("\"h\u{e9}llo \u{4e16}\u{754c} \u{1f600}\";");
    assert_eq!(tokens[0].0, TokenType::TOKEN_STRING);
    assert_eq!(tokens[0].1, "\"h\u{e9}llo \u{4e16}\u{754c} \u{1f600}\"");
    assert_eq!(tokens[1].0, TokenType::TOKEN_SEMICOLON);
}

#[test]
fn test_unterminated_string_is_an_error() {
    assert_eq!(
        scan_all("\"abc"),
        vec![(TokenType::TOKEN_ERROR, "Invalid string literal".to_string(), 1)]
    );
    assert_eq!(
        scan_all("x\n\"abc\n\n"),
        vec![
            (TokenType::TOKEN_IDENTIFIER, "x".to_string(), 1),
            (TokenType::TOKEN_ERROR, "Invalid string literal".to_string(), 4),
        ]
    );
}

#[test]
fn test_numbers() {
    assert_eq!(
        scan_all("12 3.25 7."),
        vec![
            (TokenType::TOKEN_NUMBER, "12".to_string(), 1),
            (TokenType::TOKEN_NUMBER, "3.25".to_string(), 1),
            (TokenType::TOKEN_NUMBER, "7".to_string(), 1),
            (TokenType::TOKEN_DOT, ".".to_string(), 1),
            (TokenType::TOKEN_EOF, String::new(), 1),
        ]
    );
    assert_eq!(
        scan_all(".5"),
        vec![
            (TokenType::TOKEN_DOT, ".".to_string(), 1),
            (TokenType::TOKEN_NUMBER, "5".to_string(), 1),
            (TokenType::TOKEN_EOF, String::new(), 1),
        ]
    );
    assert_eq!(scan_all("1.2.3")[0].1, "1.2");
}

#[test]
fn test_identifiers_and_keywords() {
    assert_eq!(
        scan_all("var x1 = nil; printer print"),
        vec![
            (TokenType::TOKEN_VAR, "var".to_string(), 1),
            (TokenType::TOKEN_IDENTIFIER, "x1".to_string(), 1),
            (TokenType::TOKEN_EQUAL, "=".to_string(), 1),
            (TokenType::TOKEN_NIL, "nil".to_string(), 1),
            (TokenType::TOKEN_SEMICOLON, ";".to_string(), 1),
            (TokenType::TOKEN_IDENTIFIER, "printer".to_string(), 1),
            (TokenType::TOKEN_PRINT, "print".to_string(), 1),
            (TokenType::TOKEN_EOF, String::new(), 1),
        ]
    );
    assert_eq!(scan_all("undefined_name")[0], (
        TokenType::TOKEN_IDENTIFIER,
        "undefined_name".to_string(),
        1
    ));
    assert_eq!(scan_all("forever")[0].0, TokenType::TOKEN_IDENTIFIER);
    assert_eq!(scan_all("For")[0].0, TokenType::TOKEN_IDENTIFIER);
}

#[test]
fn test_every_keyword_has_its_kind() {
    assert_eq!(
        kinds("and class else false for fun if nil or print return super this true var while"),
        vec![
            TokenType::TOKEN_AND,
            TokenType::TOKEN_CLASS,
            TokenType::TOKEN_ELSE,
            TokenType::TOKEN_FALSE,
            TokenType::TOKEN_FOR,
            TokenType::TOKEN_FUN,
            TokenType::TOKEN_IF,
            TokenType::TOKEN_NIL,
            TokenType::TOKEN_OR,
            TokenType::TOKEN_PRINT,
            TokenType::TOKEN_RETURN,
            TokenType::TOKEN_SUPER,
            TokenType::TOKEN_THIS,
            TokenType::TOKEN_TRUE,
            TokenType::TOKEN_VAR,
            TokenType::TOKEN_WHILE,
            TokenType::TOKEN_EOF,
        ]
    );
}

#[test]
fn test_whitespace_and_newlines() {
    assert_eq!(
        scan_all(" \t\r\n a \n\n b"),
        vec![
            (TokenType::TOKEN_IDENTIFIER, "a".to_string(), 2),
            (TokenType::TOKEN_IDENTIFIER, "b".to_string(), 4),
            (TokenType::TOKEN_EOF, String::new(), 4),
        ]
    );
}

#[test]
fn test_line_comments() {
    assert_eq!(
        scan_all("a // b c\n// only a comment\n  d / e // to the end"),
        vec![
            (TokenType::TOKEN_IDENTIFIER, "a".to_string(), 1),
            (TokenType::TOKEN_IDENTIFIER, "d".to_string(), 3),
            (TokenType::TOKEN_SLASH, "/".to_string(), 3),
            (TokenType::TOKEN_IDENTIFIER, "e".to_string(), 3),
            (TokenType::TOKEN_EOF, String::new(), 3),
        ]
    );
}

#[test]
fn test_unknown_byte_is_an_error() {
    assert_eq!(
        scan_all("a # b"),
        vec![
            (TokenType::TOKEN_IDENTIFIER, "a".to_string(), 1),
            (TokenType::TOKEN_ERROR, "Unexpected character".to_string(), 1),
        ]
    );
    assert_eq!(scan_all("\u{e9}")[0].0, TokenType::TOKEN_ERROR);
    assert_eq!(scan_all("caf\u{e9}")[1].0, TokenType::TOKEN_ERROR);
}

#[test]
fn test_number_literals_in_source_order() {
    assert_eq!(
        number_literals("var y = 22; var x = 10; x = y * 3 - 2; print x + y;"),
        vec!["22", "10", "3", "2"]
    );
    assert_eq!(number_literals("print \"12\" + a1;"), Vec::<&str>::new());
    assert_eq!(number_literals("1 2.5 # 3"), vec!["1", "2.5"]);
}

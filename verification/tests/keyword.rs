use lox_bytecode::scanner::keyword::{keyword_type, match_keyword};
use lox_bytecode::scanner::TokenType;

#[test]
fn test_all_keywords() {
    let keywords = vec![
        "and", "class", "else", "false", "for", "fun", "if", "nil", "or", "print", "return",
        "super", "this", "true", "var", "while", // starts with key words
    ];
    for kw in keywords {
        assert_eq!(match_keyword(kw.chars()), Some(kw.len()));
    }
}

#[test]
fn test_start_with_keyword() {
    assert_eq!(match_keyword("function".chars()), Some(3)); // fun
    assert_eq!(match_keyword("forever".chars()), Some(3)); // for
}

#[test]
fn test_non_keywords() {
    let non_keywords = vec!["adsfasf", "loOk", "Function", "True", "123"];
    for kw in non_keywords {
        assert_eq!(match_keyword(kw.chars()), None);
    }
}

#[test]
fn test_proper_prefixes_are_not_keywords() {
    for word in ["", "a", "an", "cl", "clas", "fals", "fo", "retur", "tru", "whil", "i", "o"] {
        assert_eq!(match_keyword(word.chars()), None, "{:?}", word);
    }
}

#[test]
fn test_keyword_inside_longer_word() {
    assert_eq!(match_keyword("android".chars()), Some(3));
    assert_eq!(match_keyword("iffy".chars()), Some(2));
    assert_eq!(match_keyword("xand".chars()), None);
    assert_eq!(match_keyword("returns".chars()), Some(6));
}

#[test]
fn test_keyword_type_of_each_keyword() {
    let expected = vec![
        ("and", TokenType::TOKEN_AND),
        ("class", TokenType::TOKEN_CLASS),
        ("else", TokenType::TOKEN_ELSE),
        ("false", TokenType::TOKEN_FALSE),
        ("for", TokenType::TOKEN_FOR),
        ("fun", TokenType::TOKEN_FUN),
        ("if", TokenType::TOKEN_IF),
        ("nil", TokenType::TOKEN_NIL),
        ("or", TokenType::TOKEN_OR),
        ("print", TokenType::TOKEN_PRINT),
        ("return", TokenType::TOKEN_RETURN),
        ("super", TokenType::TOKEN_SUPER),
        ("this", TokenType::TOKEN_THIS),
        ("true", TokenType::TOKEN_TRUE),
        ("var", TokenType::TOKEN_VAR),
        ("while", TokenType::TOKEN_WHILE),
    ];
    for (word, ty) in expected {
        assert_eq!(keyword_type(word), ty);
    }
}

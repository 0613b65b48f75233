use lox_bytecode::object::{Obj, ObjString};
use lox_bytecode::value::{Text, Value};

fn text(value: &Value) -> String {
    match value.to_text() {
        Text::Literal(s) => s,
        Text::Number(bits) => format!("{}", f64::from_bits(bits)),
    }
}

#[test]
fn test_falsiness() {
    assert!(Value::Nil.is_falsy());
    assert!(Value::Bool(false).is_falsy());
    assert!(!Value::Bool(true).is_falsy());
    assert!(!Value::number(0.0f64.to_bits()).is_falsy());
    assert!(!Value::string("").is_falsy());
    assert!(!Value::string("false").is_falsy());
}

#[test]
fn test_not_not_is_the_canonical_boolean() {
    for value in [Value::Nil, Value::Bool(false), Value::Bool(true)] {
        let once = Value::from(value.is_falsy());
        let twice = Value::from(once.is_falsy());
        let expected = matches!(value, Value::Bool(true));
        assert!(twice.equals(&Value::Bool(expected)));
    }
}

#[test]
fn test_equality_within_a_tag() {
    assert!(Value::Nil.equals(&Value::Nil));
    assert!(Value::Bool(true).equals(&Value::Bool(true)));
    assert!(!Value::Bool(true).equals(&Value::Bool(false)));
    assert!(Value::number(1.5f64.to_bits()).equals(&Value::number(1.5f64.to_bits())));
    assert!(!Value::number(1.5f64.to_bits()).equals(&Value::number(2.5f64.to_bits())));
    assert!(Value::number(0.0f64.to_bits()).equals(&Value::number((-0.0f64).to_bits())));
    assert!(!Value::number(f64::NAN.to_bits()).equals(&Value::number(f64::NAN.to_bits())));
    assert!(Value::string("abc").equals(&Value::string("abc")));
    assert!(!Value::string("abc").equals(&Value::string("abd")));
    assert!(Value::string("").equals(&Value::string("")));
}

#[test]
fn test_equality_across_tags_is_false() {
    let values = vec![
        Value::Nil,
        Value::Bool(false),
        Value::number(0.0f64.to_bits()),
        Value::string(""),
    ];
    for (i, a) in values.iter().enumerate() {
        for (j, b) in values.iter().enumerate() {
            assert_eq!(a.equals(b), i == j);
        }
    }
}

#[test]
fn test_text_of_values() {
    assert_eq!(text(&Value::Nil), "nil");
    assert_eq!(text(&Value::Bool(true)), "true");
    assert_eq!(text(&Value::Bool(false)), "false");
    assert_eq!(text(&Value::string("str")), "\"str\"");
    assert_eq!(text(&Value::string("")), "\"\"");
    assert_eq!(text(&Value::number(86.0f64.to_bits())), "86");
    assert_eq!(text(&Value::number(0.1f64.to_bits())), "0.1");
}

#[test]
fn test_number_text_is_left_to_the_caller() {
    assert!(matches!(Value::number(7).to_text(), Text::Number(7)));
}

#[test]
fn test_into_number_and_into_bool() {
    assert_eq!(Value::number(42).into_number(), Some(42));
    assert_eq!(Value::Bool(true).into_number(), None);
    assert_eq!(Value::Nil.into_number(), None);
    assert_eq!(Value::string("1").into_number(), None);
    assert_eq!(Value::Bool(true).into_bool(), Some(true));
    assert_eq!(Value::Bool(false).into_bool(), Some(false));
    assert_eq!(Value::number(1).into_bool(), None);
    assert_eq!(Value::Nil.into_bool(), None);
}

#[test]
fn test_take_leaves_nil() {
    let mut value = Value::Bool(true);
    let taken = value.take();
    assert!(taken.equals(&Value::Bool(true)));
    assert!(value.equals(&Value::Nil));
}

#[test]
fn test_neg() {
    let negated = Value::number(1.5f64.to_bits()).neg();
    assert!(negated.unwrap().equals(&Value::number((-1.5f64).to_bits())));
    assert!(Value::string("hi").neg().is_none());
    assert!(Value::Nil.neg().is_none());
    assert!(Value::Bool(true).neg().is_none());
}

#[test]
fn test_clone_and_from() {
    let value = Value::string("abc");
    assert!(value.clone().equals(&value));
    assert!(Value::from(true).equals(&Value::Bool(true)));
}

#[test]
fn test_obj_string() {
    let s = ObjString::new("abc".to_string());
    assert_eq!(s.as_str(), "abc");
    assert_eq!(s.to_text(), "\"abc\"");
    assert_eq!(Obj::String(s.clone()).to_text(), "\"abc\"");
}

#[test]
fn test_values_compare_with_the_operator() {
    assert!(Value::Nil == Value::Nil);
    assert!(Value::string("a") == Value::string("a"));
    assert!(Value::string("a") != Value::string("b"));
    assert!(Value::number(1.0f64.to_bits()) == Value::number(1.0f64.to_bits()));
    assert!(Value::number(f64::NAN.to_bits()) != Value::number(f64::NAN.to_bits()));
    assert!(Value::Nil != Value::Bool(false));
}

//! Runtime values: nil, numbers, booleans and heap objects.
use crate::number::{equal, negate, negated, numbers_equal};
use crate::object::{quoted, Obj, ObjString};
use vstd::prelude::*;
use vstd::std_specs::cmp::PartialEqSpecImpl;
use vstd::std_specs::convert::FromSpecImpl;

verus! {

/// What a value is: its tag and payload, a string by its characters and a
/// number by its binary64 pattern.
pub enum ValueView {
    Nil,
    Number(u64),
    Bool(bool),
    Str(Seq<char>),
}

/// A runtime datum. A number is held as its binary64 pattern.
pub enum Value {
    Nil,
    Number(u64),
    Bool(bool),
    Object(Obj),
}

impl View for Value {
    type V = ValueView;

    open spec fn view(&self) -> ValueView {
        match *self {
            Value::Nil => ValueView::Nil,
            Value::Number(bits) => ValueView::Number(bits),
            Value::Bool(b) => ValueView::Bool(b),
            Value::Object(o) => ValueView::Str(o@),
        }
    }
}

/// Nil and `false` are falsy; every other value is truthy, zero and the empty
/// string included.
pub open spec fn falsy(v: ValueView) -> bool {
    v is Nil || v == ValueView::Bool(false)
}

/// Equality of values: same tag and equal payload. Numbers compare
/// numerically, strings by content; values of different tags are never equal.
pub open spec fn values_equal(a: ValueView, b: ValueView) -> bool {
    match (a, b) {
        (ValueView::Nil, ValueView::Nil) => true,
        (ValueView::Number(x), ValueView::Number(y)) => numbers_equal(x, y),
        (ValueView::Bool(x), ValueView::Bool(y)) => x == y,
        (ValueView::Str(x), ValueView::Str(y)) => x == y,
        _ => false,
    }
}

/// The negation of a value: defined on numbers only.
pub open spec fn negation(v: ValueView) -> Option<ValueView> {
    match v {
        ValueView::Number(bits) => Some(ValueView::Number(negated(bits))),
        _ => None,
    }
}

/// The text of a value, as far as the library knows it: characters, or a number
/// whose decimal form is still to be produced.
pub enum TextView {
    Literal(Seq<char>),
    Number(u64),
}

/// How a value is printed: `nil`, `true` or `false`, a string between double
/// quotes, a number in its shortest decimal form that reads back the same.
pub open spec fn text_of(v: ValueView) -> TextView {
    match v {
        ValueView::Nil => TextView::Literal("nil"@),
        ValueView::Bool(b) => TextView::Literal(
            if b {
                "true"@
            } else {
                "false"@
            },
        ),
        ValueView::Str(s) => TextView::Literal(quoted(s)),
        ValueView::Number(bits) => TextView::Number(bits),
    }
}

/// Printable text. The decimal form of a number needs floating-point
/// formatting, so a number is handed over as its pattern for the caller to
/// format.
pub enum Text {
    Literal(String),
    Number(u64),
}

impl View for Text {
    type V = TextView;

    open spec fn view(&self) -> TextView {
        match *self {
            Text::Literal(s) => TextView::Literal(s@),
            Text::Number(bits) => TextView::Number(bits),
        }
    }
}

impl Value {
    /// A number value from its binary64 pattern.
    pub fn number(bits: u64) -> (r: Value)
        ensures
            r == Value::Number(bits),
    {
        Value::Number(bits)
    }

    /// A string value holding a copy of `s`.
    pub fn string(s: &str) -> (r: Value)
        ensures
            r@ == ValueView::Str(s@),
    {
        Value::Object(Obj::String(ObjString::new(s.to_owned())))
    }

    /// Moves the value out and leaves nil in its place.
    pub fn take(&mut self) -> (r: Value)
        ensures
            r == *old(self),
            *final(self) == Value::Nil,
    {
        let mut out = Value::Nil;
        core::mem::swap(self, &mut out);
        out
    }

    /// The pattern of a number; `None` for any other value.
    pub fn into_number(self) -> (r: Option<u64>)
        ensures
            r == (match self@ {
                ValueView::Number(bits) => Some(bits),
                _ => None,
            }),
    {
        match self {
            Value::Number(bits) => Some(bits),
            _ => None,
        }
    }

    /// The payload of a boolean; `None` for any other value.
    pub fn into_bool(self) -> (r: Option<bool>)
        ensures
            r == (match self@ {
                ValueView::Bool(b) => Some(b),
                _ => None,
            }),
    {
        match self {
            Value::Bool(b) => Some(b),
            _ => None,
        }
    }

    /// Whether the value counts as false.
    pub fn is_falsy(&self) -> (r: bool)
        ensures
            r == falsy(self@),
    {
        match self {
            Value::Nil => true,
            Value::Bool(false) => true,
            _ => false,
        }
    }

    /// Whether two values are equal.
    pub fn equals(&self, other: &Value) -> (r: bool)
        ensures
            r == values_equal(self@, other@),
    {
        match (self, other) {
            (Value::Nil, Value::Nil) => true,
            (Value::Number(a), Value::Number(b)) => equal(*a, *b),
            (Value::Bool(a), Value::Bool(b)) => *a == *b,
            (Value::Object(Obj::String(a)), Value::Object(Obj::String(b))) => same_text(
                a.as_str(),
                b.as_str(),
            ),
            _ => false,
        }
    }

    /// The value with its sign flipped; `None` unless it is a number.
    pub fn neg(self) -> (r: Option<Value>)
        ensures
            match r {
                Some(v) => negation(self@) == Some(v@),
                None => negation(self@) is None,
            },
    {
        match self {
            Value::Number(bits) => Some(Value::Number(negate(bits))),
            _ => None,
        }
    }

    /// The text that printing the value writes.
    pub fn to_text(&self) -> (r: Text)
        ensures
            r@ == text_of(self@),
    {
        match self {
            Value::Nil => Text::Literal("nil".to_owned()),
            Value::Bool(true) => Text::Literal("true".to_owned()),
            Value::Bool(false) => Text::Literal("false".to_owned()),
            Value::Number(bits) => Text::Number(*bits),
            Value::Object(o) => Text::Literal(o.to_text()),
        }
    }
}

/// Whether two strings hold the same characters.
fn same_text(a: &str, b: &str) -> (r: bool)
    ensures
        r == (a@ == b@),
{
    let x = a.to_owned();
    let y = b.to_owned();
    x == y
}

impl Clone for Value {
    fn clone(&self) -> (r: Self)
        ensures
            r == *self,
    {
        match self {
            Value::Nil => Value::Nil,
            Value::Number(bits) => Value::Number(*bits),
            Value::Bool(b) => Value::Bool(*b),
            Value::Object(o) => Value::Object(o.clone()),
        }
    }
}

impl PartialEq for Value {
    fn eq(&self, other: &Value) -> (r: bool) {
        self.equals(other)
    }
}

impl PartialEqSpecImpl for Value {
    open spec fn obeys_eq_spec() -> bool {
        true
    }

    open spec fn eq_spec(&self, other: &Value) -> bool {
        values_equal(self@, other@)
    }
}

impl From<bool> for Value {
    fn from(b: bool) -> (r: Value) {
        Value::Bool(b)
    }
}

impl FromSpecImpl<bool> for Value {
    open spec fn obeys_from_spec() -> bool {
        true
    }

    open spec fn from_spec(b: bool) -> Value {
        Value::Bool(b)
    }
}

} // verus!

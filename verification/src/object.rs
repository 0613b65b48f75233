//! Heap objects: at present only strings.
use vstd::prelude::*;

verus! {

/// A heap-owned character string.
pub struct ObjString {
    inner: String,
}

impl View for ObjString {
    type V = Seq<char>;

    closed spec fn view(&self) -> Seq<char> {
        self.inner@
    }
}

impl ObjString {
    /// Wraps an owned string.
    pub fn new(s: String) -> (r: Self)
        ensures
            r@ == s@,
    {
        ObjString { inner: s }
    }

    /// The characters of the string.
    pub fn as_str(&self) -> (r: &str)
        ensures
            r@ == self@,
    {
        self.inner.as_str()
    }

    /// The string between double quotes, as it is printed.
    pub fn to_text(&self) -> (r: String)
        ensures
            r@ == quoted(self@),
    {
        let mut out = String::from_str("\"");
        out.append(self.inner.as_str());
        out.append("\"");
        proof {
            reveal_strlit("\"");
            assert(out@ =~= quoted(self@));
        }
        out
    }
}

impl Clone for ObjString {
    fn clone(&self) -> (r: Self)
        ensures
            r == *self,
    {
        ObjString { inner: self.inner.clone() }
    }
}

/// A string as it is printed: between two double quotes.
pub open spec fn quoted(s: Seq<char>) -> Seq<char> {
    seq!['"'] + s + seq!['"']
}

/// A value that lives on the heap.
pub enum Obj {
    String(ObjString),
}

impl View for Obj {
    type V = Seq<char>;

    open spec fn view(&self) -> Seq<char> {
        match *self {
            Obj::String(s) => s@,
        }
    }
}

impl Obj {
    /// The object as it is printed.
    pub fn to_text(&self) -> (r: String)
        ensures
            r@ == quoted(self@),
    {
        match self {
            Obj::String(s) => s.to_text(),
        }
    }
}

impl Clone for Obj {
    fn clone(&self) -> (r: Self)
        ensures
            r == *self,
    {
        match self {
            Obj::String(s) => Obj::String(s.clone()),
        }
    }
}

} // verus!

use vstd::prelude::*;

verus! {

/// The three ways a compile can fail.
#[derive(Debug, Clone, Copy, PartialEq, Eq, Structural)]
pub enum ErrorKind {
    /// An unexpected character or an integer literal out of range.
    Lexical,
    /// A token sequence outside the grammar, an undeclared name, or
    /// pointer arithmetic on the wrong operand types.
    Syntactic,
    /// A tree that the code generator cannot emit.
    Internal,
}

/// A fatal diagnostic: its kind and a message.
#[derive(Debug)]
pub struct MyError {
    pub kind: ErrorKind,
    pub info: String,
}

impl MyError {
    pub fn new(kind: ErrorKind, msg: &str) -> (r: MyError)
        ensures
            r.kind == kind,
            r.info@ == msg@,
    {
        MyError { kind, info: msg.to_string() }
    }

    /// A message followed by the text it is about.
    pub fn with_detail(kind: ErrorKind, msg: &str, detail: &str) -> (r: MyError)
        ensures
            r.kind == kind,
            r.info@ == msg@ + detail@,
    {
        let mut info = msg.to_string();
        info.append(detail);
        MyError { kind, info }
    }

    /// The message of the diagnostic.
    pub fn description(&self) -> (r: &str)
        ensures
            r@ == self.info@,
    {
        self.info.as_str()
    }
}

} // verus!

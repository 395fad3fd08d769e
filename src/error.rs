use vstd::prelude::*;
use vstd::string::*;

verus! {

/// A fatal diagnostic: a message and the `"<line>:<column>"` position it
/// refers to (empty when no position is available).
#[derive(Debug)]
pub struct Error {
    pub message: String,
    pub pos: String,
}

impl Error {
    pub fn new(message: &str, pos: String) -> (r: Error)
        ensures
            r.message@ == message@,
            r.pos@ == pos@,
    {
        Error { message: String::from_str(message), pos }
    }

    /// The message and position as plain text.
    pub open spec fn view_pair(&self) -> (Seq<char>, Seq<char>) {
        (self.message@, self.pos@)
    }
}

} // verus!

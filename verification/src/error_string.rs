//! The simplest error there is: a message and nothing else.

use vstd::prelude::*;
use vstd::string::*;
use crate::text::{debug_quoted, str_debug_text};

verus! {

/// An error that is nothing but its message.
#[derive(Debug)]
pub struct Error(pub String);

/// The debug text of an [`Error`] with the message `msg`: the name of the
/// type, and the message in its own debug form between parentheses.
pub open spec fn error_debug_text(msg: Seq<char>) -> Seq<char> {
    "Error("@ + str_debug_text(msg) + ")"@
}

impl Error {
    /// An error with `msg` as its message.
    pub fn new(msg: &str) -> (e: Error)
        ensures
            e.0@ == msg@,
    {
        Error(msg.to_owned())
    }

    /// The display text of the error: its message.
    pub fn to_string(&self) -> (text: String)
        ensures
            text@ == self.0@,
    {
        self.0.clone()
    }

    /// The debug text of the error.
    pub fn debug_text(&self) -> (text: String)
        ensures
            text@ == error_debug_text(self.0@),
    {
        let mut text = String::new();
        text.append("Error(");
        text.append(debug_quoted(self.0.as_str()).as_str());
        text.append(")");
        assert(text@ =~= error_debug_text(self.0@));
        text
    }
}

} // verus!

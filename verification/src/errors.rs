//! The failure that a function of the library reports.

use vstd::prelude::*;

verus! {

/// What went wrong, in words.
#[derive(Debug)]
pub enum Failure {
    Message(String),
}

impl Failure {
    /// The words of the error.
    pub open spec fn text(&self) -> Seq<char> {
        match self {
            Failure::Message(message) => message@,
        }
    }

    /// The words of the error.
    pub fn message(&self) -> (r: String)
        ensures
            r@ == self.text(),
    {
        match self {
            Failure::Message(message) => message.clone(),
        }
    }
}

} // verus!

//! The error that the compiler reports to its caller.

use vstd::prelude::*;

verus! {

/// An error with the message that describes it.
#[derive(Debug)]
pub struct Error {
    pub message: String,
}

impl Error {
    pub fn new(msg: &str) -> (r: Self)
        ensures
            r.message@ == msg@,
    {
        Self { message: String::from_str(msg) }
    }

    /// The message of the error.
    pub fn to_string(&self) -> (r: String)
        ensures
            r@ == self.message@,
    {
        self.message.clone()
    }
}

} // verus!

//! The error type of the library: a message, as the tool prints it.
use vstd::prelude::*;
use crate::textops::from_chars;

verus! {

/// A failure, described by the message the tool reports for it.
#[derive(Debug)]
pub struct PvError {
    pub message: String,
}

impl PvError {
    /// The message of this error, as the tool prints it.
    pub fn text(&self) -> (r: String)
        ensures
            r@ == self.message@,
    {
        self.message.clone()
    }
}

/// An error whose message is the text `m`.
pub fn error_from_chars(m: &Vec<char>) -> (r: PvError)
    ensures
        r.message@ == m@,
{
    PvError { message: from_chars(m) }
}

/// A failed result whose error message is `message`.
pub fn err<T>(message: &str) -> (r: Result<T, PvError>)
    ensures
        r is Err && r->Err_0.message@ == message@,
{
    Err(PvError { message: message.to_owned() })
}

} // verus!

//! The error of the library: a message.

use vstd::prelude::*;

verus! {

/// Why something was refused. The view of a failure is its message.
#[derive(Debug)]
pub struct Failure {
    message: String,
}

impl View for Failure {
    type V = Seq<char>;

    closed spec fn view(&self) -> Seq<char> {
        self.message@
    }
}

impl Failure {
    /// A failure with this message.
    pub fn new(message: String) -> (failure: Failure)
        ensures
            failure@ == message@,
    {
        Failure { message }
    }

    /// A failure with this message.
    pub fn of(message: &str) -> (failure: Failure)
        ensures
            failure@ == message@,
    {
        Failure { message: message.to_string() }
    }

    /// The message.
    pub fn message(&self) -> (message: &str)
        ensures
            message@ == self@,
    {
        self.message.as_str()
    }
}

/// The view of a result: the view of its value or the message of its failure.
pub open spec fn outcome<T: View>(result: Result<T, Failure>) -> Result<T::V, Seq<char>> {
    match result {
        Ok(value) => Ok(value@),
        Err(failure) => Err(failure@),
    }
}

/// The view of a result without a value: the message of its failure.
pub open spec fn refusal(result: Result<(), Failure>) -> Result<(), Seq<char>> {
    match result {
        Ok(()) => Ok(()),
        Err(failure) => Err(failure@),
    }
}

} // verus!

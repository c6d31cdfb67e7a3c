//! What Portboard says when it refuses or fails.
use vstd::prelude::*;
use vstd::string::*;

use crate::text::{copy_optional, optional_text};

verus! {

/// One failure: what Portboard was doing, and what went wrong underneath where that is known.
#[derive(Debug, PartialEq, Eq)]
pub struct PortboardError {
    pub message: String,
    pub cause: Option<String>,
}

/// The texts of a failure.
pub struct ErrorText {
    pub message: Seq<char>,
    pub cause: Option<Seq<char>>,
}

impl View for PortboardError {
    type V = ErrorText;

    open spec fn view(&self) -> ErrorText {
        ErrorText { message: self.message@, cause: optional_text(self.cause) }
    }
}

/// A failure without a cause underneath.
pub open spec fn failure(message: Seq<char>) -> ErrorText {
    ErrorText { message, cause: None }
}

/// The failure of a check, where it failed.
pub open spec fn refusal(result: Result<(), PortboardError>) -> Option<ErrorText> {
    match result {
        Ok(_) => None,
        Err(error) => Some(error@),
    }
}

impl PortboardError {
    pub fn new(message: String) -> (result: Self)
        ensures
            result@ == failure(message@),
    {
        PortboardError { message, cause: None }
    }

    pub fn with_cause(message: String, cause: String) -> (result: Self)
        ensures
            result@ == (ErrorText { message: message@, cause: Some(cause@) }),
    {
        PortboardError { message, cause: Some(cause) }
    }

    /// The outermost message.
    pub fn to_string(&self) -> (result: String)
        ensures
            result@ == self@.message,
    {
        self.message.clone()
    }

    /// The message and its cause on one line.
    pub fn chain(&self) -> (result: String)
        ensures
            result@ == error_chain(self@),
    {
        let mut result = self.message.clone();
        if let Some(cause) = &self.cause {
            result.append(": ");
            result.append(cause.as_str());
        }
        result
    }
}

impl Clone for PortboardError {
    fn clone(&self) -> (result: Self)
        ensures
            result@ == self@,
    {
        PortboardError { message: self.message.clone(), cause: copy_optional(&self.cause) }
    }
}

/// The message, and the cause behind a colon where there is one.
pub open spec fn error_chain(error: ErrorText) -> Seq<char> {
    match error.cause {
        Some(cause) => error.message + ": "@ + cause,
        None => error.message,
    }
}

/// An error is told with its message first and its cause, if it has one, behind it.
pub proof fn causes_are_told_behind_messages(message: Seq<char>, cause: Seq<char>)
    ensures
        error_chain(ErrorText { message, cause: None }) == message,
        error_chain(ErrorText { message, cause: Some(cause) }) == message + ": "@ + cause,
        failure(message) == (ErrorText { message, cause: None }),
{
}

} // verus!

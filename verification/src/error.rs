//! The error kinds commands and the engine report.

use vstd::prelude::*;

verus! {

/// A command failed argument validation.
#[derive(Debug)]
pub struct SyntaxError;

impl SyntaxError {
    /// The stable text of the error reply.
    pub fn message(&self) -> (r: &'static str)
        ensures
            r@ == "ERR syntax error"@,
    {
        "ERR syntax error"
    }
}

#[derive(Debug)]
pub struct InternalError;

impl InternalError {
    pub fn message(&self) -> (r: &'static str)
        ensures
            r@ == "ERR internal error"@,
    {
        "ERR internal error"
    }
}

#[derive(Debug)]
pub struct InvalidCommand;

impl InvalidCommand {
    pub fn message(&self) -> (r: &'static str)
        ensures
            r@ == "ERR invalid command"@,
    {
        "ERR invalid command"
    }
}

#[derive(Debug)]
pub struct CustomMessageError {
    pub detail: String,
}

impl CustomMessageError {
    pub fn new(detail: &str) -> (r: CustomMessageError)
        ensures
            r.detail@ == detail@,
    {
        CustomMessageError { detail: detail.to_owned() }
    }
}

#[derive(Debug)]
pub struct DatabaseError {
    pub detail: String,
}

impl DatabaseError {
    pub fn new(detail: &str) -> (r: DatabaseError)
        ensures
            r.detail@ == detail@,
    {
        DatabaseError { detail: detail.to_owned() }
    }
}

/// A stored value failed to decode.
#[derive(Debug)]
pub struct ParseDataError;

} // verus!

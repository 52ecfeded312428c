//! Errors: what kind of failure it is, and a message for people.

use vstd::prelude::*;

use crate::text::Duplicate;

verus! {

#[derive(Clone, Copy, Debug, PartialEq, Eq, Structural)]
pub enum ErrorKind {
    NotFound,
    PermissionDenied,
    AlreadyExists,
    InvalidInput,
    InvalidData,
    Unsupported,
    BrokenPipe,
    Other,
}

#[derive(Debug)]
pub struct Error {
    pub kind: ErrorKind,
    pub message: String,
}

/// What an `Error` says.
#[verifier::ext_equal]
pub struct Fault {
    pub kind: ErrorKind,
    pub message: Seq<char>,
}

impl DeepView for Error {
    type V = Fault;

    open spec fn deep_view(&self) -> Fault {
        Fault { kind: self.kind, message: self.message@ }
    }
}

impl Duplicate for Error {
    fn duplicate(&self) -> (r: Self) {
        Error { kind: self.kind, message: self.message.clone() }
    }
}

/// What a result says: its value, or its error.
pub open spec fn outcome<T: DeepView>(r: Result<T, Error>) -> Result<T::V, Fault> {
    match r {
        Ok(value) => Ok(value.deep_view()),
        Err(e) => Err(e.deep_view()),
    }
}

/// The fault of the given kind and message.
pub open spec fn fault(kind: ErrorKind, message: Seq<char>) -> Fault {
    Fault { kind, message }
}

pub fn error(kind: ErrorKind, message: String) -> (r: Error)
    ensures
        r.deep_view() == fault(kind, message@),
{
    Error { kind, message }
}

/// An error about data that does not have the expected form.
pub fn invalid_data(message: &str) -> (r: Error)
    ensures
        r.deep_view() == fault(ErrorKind::InvalidData, message@),
{
    Error { kind: ErrorKind::InvalidData, message: message.to_owned() }
}

} // verus!

//! Errors raised by the codec, the router and the parameter maps.

use vstd::prelude::*;

verus! {

/// What went wrong, in the categories that callers branch on.
#[derive(Clone, Copy, Debug, PartialEq, Eq, Structural)]
pub enum ErrorKind {
    /// Malformed wire data, an invalid path or identifier, a wrong number of
    /// arguments, or a duplicate or misplaced mount.
    BadRequest,
    /// A required parameter or route is absent.
    NotFound,
    /// A handler was invoked for a verb that it does not support.
    MethodNotAllowed,
    /// A parameter map held keys where none were expected.
    Unexpected,
    /// Reserved for wrappers around the library.
    Internal,
}

/// An error with its kind and a message for people.
#[derive(Clone, Debug, PartialEq)]
pub struct Error {
    kind: ErrorKind,
    message: String,
}

impl Error {
    pub fn new(kind: ErrorKind, message: String) -> (r: Error)
        ensures
            r.kind() == kind,
            r.message_view() == message@,
    {
        Error { kind, message }
    }

    pub fn bad_request(message: String) -> (r: Error)
        ensures
            r.kind() == ErrorKind::BadRequest,
            r.message_view() == message@,
    {
        Error { kind: ErrorKind::BadRequest, message }
    }

    pub closed spec fn spec_kind(&self) -> ErrorKind {
        self.kind
    }

    pub closed spec fn message_view(&self) -> Seq<char> {
        self.message@
    }

    #[verifier::when_used_as_spec(spec_kind)]
    pub fn kind(&self) -> (r: ErrorKind)
        ensures
            r == self.spec_kind(),
    {
        self.kind
    }

    pub fn message(&self) -> (r: &str)
        ensures
            r@ == self.message_view(),
    {
        self.message.as_str()
    }
}

} // verus!

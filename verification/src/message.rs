use vstd::prelude::*;

verus! {

/// The Maelstrom error codes that the nodes answer with.
#[derive(Clone, Copy, Debug, PartialEq, Eq, Structural)]
pub enum ErrorCode {
    /// The node crashed while handling the request.
    Crash,
    /// The node cannot serve the request right now (for instance, no leader is known).
    TemporarilyUnavailable,
    /// The requested key is not in the store.
    KeyDoesNotExist,
    /// A compare-and-set found a value other than the expected one.
    PreconditionFailed,
}

/// The number that stands for each error code on the wire.
pub open spec fn error_code_number(c: ErrorCode) -> u8 {
    match c {
        ErrorCode::Crash => 14,
        ErrorCode::TemporarilyUnavailable => 11,
        ErrorCode::KeyDoesNotExist => 20,
        ErrorCode::PreconditionFailed => 22,
    }
}

impl ErrorCode {
    /// The number that stands for this code on the wire.
    pub fn code(&self) -> (n: u8)
        ensures
            n == error_code_number(*self),
    {
        match self {
            ErrorCode::Crash => 14,
            ErrorCode::TemporarilyUnavailable => 11,
            ErrorCode::KeyDoesNotExist => 20,
            ErrorCode::PreconditionFailed => 22,
        }
    }

    /// The code that a wire number stands for, if any.
    pub fn from_code(n: u8) -> (c: Option<ErrorCode>)
        ensures
            match c {
                Some(code) => error_code_number(code) == n,
                None => forall|code: ErrorCode| error_code_number(code) != n,
            },
    {
        if n == 14 {
            Some(ErrorCode::Crash)
        } else if n == 11 {
            Some(ErrorCode::TemporarilyUnavailable)
        } else if n == 20 {
            Some(ErrorCode::KeyDoesNotExist)
        } else if n == 22 {
            Some(ErrorCode::PreconditionFailed)
        } else {
            proof {
                assert forall|code: ErrorCode| error_code_number(code) != n by {
                    match code {
                        ErrorCode::Crash => {},
                        ErrorCode::TemporarilyUnavailable => {},
                        ErrorCode::KeyDoesNotExist => {},
                        ErrorCode::PreconditionFailed => {},
                    }
                }
            }
            None
        }
    }
}

#[derive(Clone, Debug, PartialEq)]
/// A message between two nodes (or a node and a client): its sender, its
/// receiver and its body.
pub struct Message<T> {
    pub src: String,
    pub dest: String,
    pub body: T,
}

} // verus!

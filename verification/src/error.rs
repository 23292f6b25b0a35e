//! The failures of the storage layer.

use vstd::prelude::*;
use vstd::string::StringExecFns;

verus! {

/// The kinds of failure that an operation on the store can end in.
#[derive(Clone, Copy, Debug, PartialEq, Eq, Structural)]
pub enum ErrorKind {
    /// The user or the entity that the operation refers to is absent.
    NotFound,
    /// An input breaks the key grammar or a bound.
    InvalidInput,
    /// A stored value cannot be read as the record it should be.
    CorruptRecord,
    /// The engine refused the write transaction; the operation was not
    /// retried.
    Conflict,
    /// The engine failed at the level of input and output.
    StorageUnavailable,
}

/// The failure of an operation. Failures of the codec (`InvalidInput`,
/// `CorruptRecord`) concern one key or one record; the others end the
/// enclosing transaction, which then must be aborted.
#[derive(Clone, Copy, Debug, PartialEq, Eq, Structural)]
pub struct FjError {
    pub kind: ErrorKind,
}

impl FjError {
    /// The failure of the given kind.
    pub fn new(kind: ErrorKind) -> (e: FjError)
        ensures
            e.kind == kind,
    {
        FjError { kind }
    }

    /// Whether the failure ends the enclosing transaction: all kinds but the
    /// two of the codec do.
    pub fn aborts_transaction(&self) -> (b: bool)
        ensures
            b == (self.kind != ErrorKind::InvalidInput && self.kind != ErrorKind::CorruptRecord),
    {
        match self.kind {
            ErrorKind::InvalidInput => false,
            ErrorKind::CorruptRecord => false,
            _ => true,
        }
    }

    /// The HTTP status that the failure is reported with. A user that is
    /// missing is a precondition of the request that is not met.
    pub fn status_code(&self) -> (code: u16)
        ensures
            code == status_code_of(self.kind),
    {
        match self.kind {
            ErrorKind::NotFound => 412,
            ErrorKind::InvalidInput => 400,
            ErrorKind::CorruptRecord => 500,
            ErrorKind::Conflict => 409,
            ErrorKind::StorageUnavailable => 503,
        }
    }

    /// A sentence that names the failure.
    pub fn message(&self) -> (s: String)
        ensures
            s@ == error_message(self.kind),
    {
        match self.kind {
            ErrorKind::NotFound => String::from_str("User does not exist in db"),
            ErrorKind::InvalidInput => String::from_str("Input breaks the key grammar"),
            ErrorKind::CorruptRecord => String::from_str("Stored record cannot be read"),
            ErrorKind::Conflict => String::from_str("Write transaction was refused"),
            ErrorKind::StorageUnavailable => String::from_str("Storage is unavailable"),
        }
    }
}

/// The HTTP status of a failure of the given kind: 412 Precondition Failed,
/// 400 Bad Request, 500 Internal Server Error, 409 Conflict and 503 Service
/// Unavailable.
pub open spec fn status_code_of(kind: ErrorKind) -> u16 {
    match kind {
        ErrorKind::NotFound => 412,
        ErrorKind::InvalidInput => 400,
        ErrorKind::CorruptRecord => 500,
        ErrorKind::Conflict => 409,
        ErrorKind::StorageUnavailable => 503,
    }
}

/// The sentence that names a failure of the given kind.
pub open spec fn error_message(kind: ErrorKind) -> Seq<char> {
    match kind {
        ErrorKind::NotFound => "User does not exist in db"@,
        ErrorKind::InvalidInput => "Input breaks the key grammar"@,
        ErrorKind::CorruptRecord => "Stored record cannot be read"@,
        ErrorKind::Conflict => "Write transaction was refused"@,
        ErrorKind::StorageUnavailable => "Storage is unavailable"@,
    }
}

} // verus!

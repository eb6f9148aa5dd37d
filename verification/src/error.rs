//! The errors of path operations, and how a caller is to report them.

use vstd::prelude::*;

verus! {

/// Why a path operation could not produce its result.
#[derive(Clone, Copy, Debug, PartialEq, Eq, Structural)]
pub enum PathError {
    /// The stored path is empty, so it cannot be resolved. No operation of
    /// the library makes such a path.
    EmptyPath,
    /// The path has no final component to read or to replace: it is the
    /// root or `.` alone.
    NoComponent,
    /// The final component has no extension.
    NoSuffix,
    /// A replacement suffix is neither empty nor led by `.`.
    InvalidSuffix,
    /// The operation is declared but has no implementation yet.
    NotImplemented,
    /// The operating system refused or failed a query.
    OSFailure,
}

/// How a caller is to report an error: as a bad value, as an operation that
/// is missing, or as a failure of the system.
#[derive(Clone, Copy, Debug, PartialEq, Eq, Structural)]
pub enum ErrorClass {
    /// The path or an argument does not fit the operation.
    Value,
    /// The operation is not there yet.
    NotImplemented,
    /// The operating system failed a query.
    System,
}

impl PathError {
    /// The class of this error. Only `OSFailure` is the system's doing and
    /// only `NotImplemented` is a missing operation; every other kind says
    /// that the path or an argument does not fit the operation.
    pub fn class(&self) -> (c: ErrorClass)
        ensures
            c == ErrorClass::System <==> *self == PathError::OSFailure,
            c == ErrorClass::NotImplemented <==> *self == PathError::NotImplemented,
    {
        match self {
            PathError::OSFailure => ErrorClass::System,
            PathError::NotImplemented => ErrorClass::NotImplemented,
            PathError::EmptyPath => ErrorClass::Value,
            PathError::NoComponent => ErrorClass::Value,
            PathError::NoSuffix => ErrorClass::Value,
            PathError::InvalidSuffix => ErrorClass::Value,
        }
    }
}

/// What a query to the operating system came to: its answer, or `OSFailure`
/// where the system gave none.
pub fn os_reply<T>(reply: Option<T>) -> (r: Result<T, PathError>)
    ensures
        r == match reply {
            Some(answer) => Ok::<T, PathError>(answer),
            None => Err::<T, PathError>(PathError::OSFailure),
        },
{
    match reply {
        Some(answer) => Ok(answer),
        None => Err(PathError::OSFailure),
    }
}

} // verus!

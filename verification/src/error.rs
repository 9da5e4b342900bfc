//! The error kinds shared by every component.

use vstd::prelude::*;

verus! {

/// Why an operation was abandoned.
#[derive(Debug, Clone, Copy, PartialEq, Eq, Hash, Structural)]
pub enum Error {
    /// An image name, tag or digest is malformed.
    InvalidName,
    /// The output path is already taken.
    AlreadyExists,
    /// The filesystem refused an operation.
    IoError,
    /// Content does not hash to the digest it was announced under.
    DigestMismatch,
    /// A local image, a remote manifest or a blob is missing.
    NotFound,
    /// The token exchange was rejected.
    AuthFailure,
    /// The registry answered with something malformed or unexpected.
    ProtocolError,
    /// The transport failed; the only kind that may be retried.
    NetworkError,
}

impl Error {
    /// Whether an operation that failed this way may be attempted again.
    pub fn is_transient(&self) -> (b: bool)
        ensures
            b == (*self == Error::NetworkError),
    {
        match self {
            Error::NetworkError => true,
            _ => false,
        }
    }

    /// A short description for diagnostics.
    pub fn message(&self) -> (m: &'static str)
        ensures
            m@ == Error::message_of(*self),
    {
        match self {
            Error::InvalidName => "invalid image name",
            Error::AlreadyExists => "output already exists",
            Error::IoError => "filesystem failure",
            Error::DigestMismatch => "content does not match its digest",
            Error::NotFound => "not found",
            Error::AuthFailure => "authentication failed",
            Error::ProtocolError => "unexpected registry response",
            Error::NetworkError => "transport failure",
        }
    }

    /// The description of each kind.
    pub open spec fn message_of(e: Error) -> Seq<char> {
        match e {
            Error::InvalidName => "invalid image name"@,
            Error::AlreadyExists => "output already exists"@,
            Error::IoError => "filesystem failure"@,
            Error::DigestMismatch => "content does not match its digest"@,
            Error::NotFound => "not found"@,
            Error::AuthFailure => "authentication failed"@,
            Error::ProtocolError => "unexpected registry response"@,
            Error::NetworkError => "transport failure"@,
        }
    }
}

} // verus!

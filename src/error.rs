//! The error type shared by every part of the library.

use vstd::prelude::*;

verus! {

/// What can go wrong in a transfer, and where.
#[derive(Debug)]
pub enum BbcprError {
    /// A file or stream operation failed; the text says which.
    Io(String),
    Network(String),
    Ssh(String),
    /// The digest of the copy differs from the digest of the source.
    ChecksumMismatch { expected: Vec<u8>, actual: Vec<u8> },
    Transfer(String),
    /// The request cannot be carried out as configured (no streams, no paths).
    Config(String),
    Platform(String),
    /// A frame on the wire is malformed.
    Protocol(String),
    AuthenticationFailed,
    ConnectionTimeout,
    FileNotFound(String),
    PermissionDenied(String),
    Unsupported(String),
}

} // verus!

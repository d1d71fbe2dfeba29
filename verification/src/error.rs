//! The error values that the library returns.

use vstd::prelude::*;

verus! {

/// `std::io::Error`. The library carries it and never looks inside.
#[verifier::external_type_specification]
#[verifier::external_body]
pub struct ExIoError(std::io::Error);

/// What can go wrong while serving a connection.
#[derive(Debug)]
pub enum WinpipeError {
    /// The transport failed.
    Io(std::io::Error),
    /// A collaborator was used out of turn.
    Protocol(String),
    /// The peer closed the stream.
    ConnectionClosed,
    /// Octets that do not form a record or frame.
    InvalidMessage(String),
    /// The compressed stream could not be expanded.
    Compression(String),
    /// A mirror buffer was misused.
    Buffer(String),
}

} // verus!

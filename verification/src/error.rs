//! The kinds of failure that end a command.

use vstd::prelude::*;

verus! {

/// Why a command was given up.
#[derive(Clone, Copy, Debug, PartialEq, Eq, Structural)]
pub enum ErrorKind {
    /// The reply to `connect` names no target.
    Connection,
    /// The adapter did not enter loader mode, or lacks what the command needs.
    Loader,
    /// An address or a length lies outside the flash.
    Bounds,
    /// A reply lacks what it must hold, or reports an error.
    Protocol,
    /// A checksum disagrees.
    Integrity,
    /// The adapter sent fewer bytes than were asked for.
    Transport,
    /// An argument of the command line is no number.
    Input,
}

/// A failure with the bytes that show it: the offending reply, or what had
/// been read when the stream ended.
#[derive(Debug, PartialEq, Eq)]
pub struct Failure {
    pub kind: ErrorKind,
    pub detail: Vec<u8>,
}

} // verus!

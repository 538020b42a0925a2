//! Storage adapter that maps the file-like segment components of an embedded
//! full-text index onto block-addressed storage entries, together with two
//! implementations of the index library's directory capability set: a direct
//! single-threaded adapter and a channel-proxied adapter that forwards every
//! directory operation to a dedicated worker over bounded message channels.

use vstd::prelude::*;

pub mod blocking;
pub mod catalog;
pub mod channel;
pub mod format;
pub mod segment;
pub mod session;
pub mod storage;
pub mod transport;

verus! {

/// Error taxonomy of the adapter subsystem.
///
/// `InvalidState`: an operation was attempted after finalize/termination.
/// `Disconnected`: a channel peer is gone.
/// `ContractViolation`: a directory method was called that the index library
/// must never invoke (or a reply did not match its request).
/// `StorageError`: an underlying block-storage failure.
/// `IndexLibraryError`: an opaque failure surfaced from the index library.
#[derive(Clone, Copy, Debug, PartialEq, Eq, Structural)]
pub enum Error {
    InvalidState,
    Disconnected,
    ContractViolation,
    StorageError,
    IndexLibraryError,
}

} // verus!

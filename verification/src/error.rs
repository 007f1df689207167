//! The errors that the core reports.

use vstd::prelude::*;
use crate::packet::PeerId;

verus! {

/// What can go wrong in the core.
#[derive(Debug, PartialEq, Eq)]
pub enum Error {
    /// The remote's network identity differs from this node's.
    SecretKeyError,
    /// The named peer cannot be reached with the routing tables as they
    /// are.
    RouteError(PeerId),
    /// A component that was needed is not there (not started yet, or
    /// already torn down), or a connection is closed.
    Unknown,
    /// The encryptor refused the packet.
    EncryptFailed,
    /// The encryptor could not open the packet.
    DecryptFailed,
    /// A send to several destinations failed for some of them: one entry
    /// for each destination that failed, in the order of the destinations.
    Aggregate(Vec<Error>),
}

} // verus!

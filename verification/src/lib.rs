//! Synchronizes a hierarchical JSON-like document with a flat key-value
//! store whose keys are slash-delimited paths.
//!
//! The library holds the verified core: the codec between a nested tree
//! and its flat path-to-value mapping, snapshots pairing the two
//! representations, and the three-way diff that plans the remote
//! mutations needed to move the store from one snapshot to another.

pub mod client;
pub mod codec;
pub mod file;
pub mod flat;
pub mod paths;
pub mod roundtrip;
pub mod snapshot;
pub mod sync;
pub mod tree;

use vstd::prelude::*;

verus! {

/// The errors the library reports. Validation errors (`InvalidShape`,
/// `NonStringLeaf`) come from snapshot construction, before any remote
/// call; `DecodeError` from a stored value that is not valid base64 or
/// not valid UTF-8; `RemoteUnavailable` carries the text of a failed
/// remote call.
#[derive(Debug)]
pub enum SyncError {
    InvalidShape,
    NonStringLeaf,
    RemoteUnavailable(String),
    DecodeError,
}

} // verus!

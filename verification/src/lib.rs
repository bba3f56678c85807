//! Build-cache maintenance for CI runs of a Cargo-style workspace.
//!
//! Two subsystems share this crate. The first snapshots file attributes
//! (modification time, permission bits, a content fingerprint) into a
//! tabular file and replays them after a cache round trip, gated on the
//! fingerprint still matching. The second prunes a compiled-output tree
//! and a package registry down to what the currently required packages
//! need. All decisions are made here on plain values; the thin binary
//! around the crate performs the filesystem reads and deletions.

use vstd::prelude::*;

pub mod cli;
pub mod fs_util;
pub mod rust_cache;
pub mod table;
pub mod text;

verus! {

/// The failure kinds an operation of this crate can surface.
///
/// `IOError` covers file and directory reads, writes, deletions and
/// permission changes that the surrounding binary performs; a decision
/// function never raises it itself. `FormatError` marks a malformed
/// persisted table. `NotFoundError` marks a directory whose presence a
/// caller asserted but which is absent.
#[derive(Clone, Copy, Debug, PartialEq, Eq, Structural)]
pub enum CacheError {
    IOError,
    FormatError,
    NotFoundError,
}

} // verus!

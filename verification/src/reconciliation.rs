//! State kept to reconcile a base directory with peers.
use vstd::prelude::*;
use std::collections::HashMap;
use std::time::Instant;

verus! {

/// A hash of the list of a base directory's images.
pub type Hash = [u8; 64];

/// Holds current hash, and cache of hashes that were before this one
///
/// There are two cases when hash is added:
///
/// 1. When we update the hash (i.e. add or remove directory)
/// 2. When hash is received from peer we have checked the list images
///    and it turned out that is is outdated (i.e. it was a subset of
///    images we have here, or all new images match cleanup rule)
///
/// Also we flush the cache and recheck it again if `keep-list-file` changes,
/// because that would mean some images might be useful again.
pub struct Recon {
    pub hash: Hash,
    pub cached_parents: HashMap<Hash, Instant>,
}

} // verus!

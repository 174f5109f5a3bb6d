//! Merkle tree root computation over an ordered sequence of leaf digests.
//!
//! Two interchangeable strategies build the same implicit binary tree
//! bottom-up from a forward-only stream of leaves: a sequential
//! depth-first walk and a level-synchronous width-first walk. Both are
//! verified to return the level-reduction root of the leaf sequence, so
//! they agree on every non-empty input.

use vstd::prelude::*;

pub mod combinator;
pub mod depth_walk;
pub mod laws;
pub mod model;
pub mod source;
pub mod width_walk;

use crate::combinator::Combinator;
use crate::model::root_of;
use crate::source::LeafSource;

verus! {

/// A leaf or node digest: 32 bytes, immutable once produced.
pub type Digest = [u8; 32];

/// The root calculator contract: the shared entry point both
/// construction strategies implement, so a caller can pick a strategy
/// without knowing its internals. Given a non-empty source of leaves
/// and a combinator, it consumes the source and returns the root — the
/// same `root_of` value whichever strategy computes it.
pub trait MerkleTreeRoot {
    /// Computes the Merkle root of a non-empty source, consuming it.
    fn calculate<H: View + Send + Sync, C: Combinator<H> + Sync>(
        source: &mut LeafSource<H>,
        combinator: &C,
    ) -> (out: H)
        requires
            old(source)@.len() >= 1,
        ensures
            out@ == (root_of::<H, C>(old(source)@)),
            final(source)@.len() == 0,
    ;
}

} // verus!

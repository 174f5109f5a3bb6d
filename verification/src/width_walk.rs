//! The width-first construction strategy.
//!
//! Level-synchronous and parallel within each level: the source is
//! drained into the leaf layer, then each layer's consecutive pairs are
//! combined in parallel (a trailing singleton is combined with itself)
//! until one digest remains. O(n log n) time, O(n) auxiliary space.
//! The result is proved to be `root_of` of the full leaf sequence, the
//! same value the depth-first strategy returns.

use vstd::prelude::*;
use rayon::iter::ParallelIterator;
use rayon::slice::ParallelSlice;
use crate::combinator::Combinator;
use crate::model::{next_layer, levels_root, views};
use crate::source::LeafSource;

verus! {

/// Combines one chunk of a layer: a pair combines normally, a trailing
/// singleton is combined with itself (the duplication rule).
pub fn combine_chunk<H: View, C: Combinator<H>>(chunk: &[H], combinator: &C) -> (out: H)
    requires
        1 <= chunk@.len() <= 2,
    ensures
        out@ == if chunk@.len() == 2 {
            C::combined(chunk@[0]@, Some(chunk@[1]@))
        } else {
            C::combined(chunk@[0]@, None)
        },
{
    if chunk.len() == 2 {
        combinator.combine(vstd::slice::slice_index_get(chunk, 0), Some(vstd::slice::slice_index_get(chunk, 1)))
    } else {
        combinator.combine(vstd::slice::slice_index_get(chunk, 0), None)
    }
}

/// Relies on rayon's `par_chunks`, `map` and `collect`: the layer is
/// split into consecutive disjoint chunks of at most two digests, only
/// the last of which may hold a single one; each chunk is handed to one
/// call of the verified `combine_chunk`; and the results are collected
/// in chunk order. That is exactly one level of reduction of the layer.
#[verifier::external_body]
fn combine_layer_parallel<H: View + Send + Sync, C: Combinator<H> + Sync>(
    layer: &Vec<H>,
    combinator: &C,
) -> (out: Vec<H>)
    requires
        layer@.len() >= 1,
    ensures
        out@.map_values(|h: H| h@) == (next_layer::<H, C>(views(layer@))),
{
    layer.as_slice().par_chunks(2).map(|chunk| combine_chunk(chunk, combinator)).collect()
}

/// The width-first strategy.
pub struct WidthWalk;

impl crate::MerkleTreeRoot for WidthWalk {
    fn calculate<H: View + Send + Sync, C: Combinator<H> + Sync>(
        source: &mut LeafSource<H>,
        combinator: &C,
    ) -> (out: H) {
        let ghost orig = old(source)@;
        let mut layer: Vec<H> = Vec::new();
        proof {
            assert(views(layer@) + source@ =~= orig);
        }
        while source.has_more()
            invariant
                views(layer@) + source@ == orig,
            decreases source@.len(),
        {
            let item = source.next();
            match item {
                Some(h) => {
                    let ghost prev = views(layer@);
                    layer.push(h);
                    proof {
                        assert(views(layer@) =~= prev.push(h@));
                        assert(views(layer@) + source@ =~= orig);
                    }
                },
                None => vstd::pervasive::unreached(),
            }
        }
        proof {
            assert(views(layer@) =~= orig);
        }
        if layer.len() == 0 {
            // an empty source is a fatal precondition violation
            return vstd::pervasive::unreached();
        }
        if layer.len() == 1 {
            // a sole leaf duplicates: combined with itself
            let out = combinator.combine(&layer[0], None);
            return out;
        }
        walk_layers(layer, combinator)
    }
}

/// Collapses the layer level by level, combining each level's pairs in
/// parallel, until a single digest — the root of the layer — remains.
pub fn walk_layers<H: View + Send + Sync, C: Combinator<H> + Sync>(
    layer: Vec<H>,
    combinator: &C,
) -> (out: H)
    requires
        layer@.len() >= 1,
    ensures
        out@ == (levels_root::<H, C>(views(layer@))),
{
    let ghost orig = views(layer@);
    let mut layer = layer;
    while layer.len() > 1
        invariant
            1 <= layer@.len(),
            levels_root::<H, C>(views(layer@)) == levels_root::<H, C>(orig),
        decreases layer@.len(),
    {
        let ghost before = views(layer@);
        let next = combine_layer_parallel(&layer, combinator);
        proof {
            assert(levels_root::<H, C>(before) == levels_root::<H, C>(next_layer::<H, C>(before)));
        }
        layer = next;
    }
    let ghost last = views(layer@);
    let out = match layer.pop() {
        Some(h) => h,
        None => vstd::pervasive::unreached(),
    };
    proof {
        assert(last.len() == 1);
        assert(levels_root::<H, C>(last) == last[0]);
        assert(out@ == last[0]);
    }
    out
}

} // verus!

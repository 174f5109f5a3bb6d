//! The mathematical model of the implicit Merkle tree.
//!
//! A layer is a sequence of digest views. `next_layer` combines a layer's
//! consecutive pairs in order, duplicating a trailing singleton, and
//! `root_of` collapses the leaf layer level by level until one digest
//! remains. Both construction strategies are verified against `root_of`,
//! which is what makes them interchangeable.

use vstd::prelude::*;
use vstd::arithmetic::power2::{pow2, lemma_pow2_unfold, lemma_pow2_pos};
use crate::combinator::Combinator;

verus! {

/// The views of a sequence of digests.
pub open spec fn views<H: View>(s: Seq<H>) -> Seq<<H as View>::V> {
    s.map_values(|h: H| h@)
}

/// One level of the tree: consecutive pairs of `layer` combined in
/// order; when the layer length is odd, the trailing digest is combined
/// with itself (the duplication rule).
pub open spec fn next_layer<H: View, C: Combinator<H>>(
    layer: Seq<<H as View>::V>,
) -> Seq<<H as View>::V> {
    Seq::new((layer.len() + 1) / 2, |i: int| if 2 * i + 1 < layer.len() {
        C::combined(layer[2 * i], Some(layer[2 * i + 1]))
    } else {
        C::combined(layer[2 * i], None)
    })
}

/// `count` levels of reduction applied to `layer`.
pub open spec fn reduced<H: View, C: Combinator<H>>(
    count: nat,
    layer: Seq<<H as View>::V>,
) -> Seq<<H as View>::V>
    decreases count,
{
    if count == 0 {
        layer
    } else {
        next_layer::<H, C>(reduced::<H, C>((count - 1) as nat, layer))
    }
}

/// Collapses a non-empty layer level by level until one digest remains.
pub open spec fn levels_root<H: View, C: Combinator<H>>(
    layer: Seq<<H as View>::V>,
) -> <H as View>::V
    recommends
        layer.len() >= 1,
    decreases layer.len(),
{
    if layer.len() <= 1 {
        layer[0]
    } else {
        levels_root::<H, C>(next_layer::<H, C>(layer))
    }
}

/// The Merkle root of a non-empty leaf sequence: level reduction, where
/// a sole leaf is combined with itself (the duplication rule applies at
/// the first level like at every other).
pub open spec fn root_of<H: View, C: Combinator<H>>(
    leaves: Seq<<H as View>::V>,
) -> <H as View>::V
    recommends
        leaves.len() >= 1,
{
    if leaves.len() == 1 {
        C::combined(leaves[0], None)
    } else {
        levels_root::<H, C>(leaves)
    }
}

/// A layer of one digest reduces to that digest combined with itself.
pub proof fn lemma_next_layer_single<H: View, C: Combinator<H>>(x: <H as View>::V)
    ensures
        next_layer::<H, C>(seq![x]) == seq![C::combined(x, None)],
{
    assert(next_layer::<H, C>(seq![x]) =~= seq![C::combined(x, None)]);
}

/// A layer of two digests reduces to their combination.
pub proof fn lemma_next_layer_pair<H: View, C: Combinator<H>>(x: <H as View>::V, y: <H as View>::V)
    ensures
        next_layer::<H, C>(seq![x, y]) == seq![C::combined(x, Some(y))],
{
    assert(next_layer::<H, C>(seq![x, y]) =~= seq![C::combined(x, Some(y))]);
}

/// Reduction of a layer whose left part has even length works on the two
/// parts independently.
pub proof fn lemma_next_layer_split<H: View, C: Combinator<H>>(
    a: Seq<<H as View>::V>,
    b: Seq<<H as View>::V>,
)
    requires
        a.len() % 2 == 0,
    ensures
        next_layer::<H, C>(a + b) == next_layer::<H, C>(a) + next_layer::<H, C>(b),
{
    let whole = next_layer::<H, C>(a + b);
    let parts = next_layer::<H, C>(a) + next_layer::<H, C>(b);
    assert(whole.len() == parts.len());
    assert forall|i: int| 0 <= i < whole.len() implies whole[i] == parts[i] by {
        if i < a.len() / 2 {
            assert((a + b)[2 * i] == a[2 * i]);
            if 2 * i + 1 < a.len() {
                assert((a + b)[2 * i + 1] == a[2 * i + 1]);
            }
        } else {
            let j = i - a.len() / 2;
            assert((a + b)[2 * i] == b[2 * j]);
            if 2 * j + 1 < b.len() {
                assert((a + b)[2 * i + 1] == b[2 * j + 1]);
            }
        }
    }
    assert(whole =~= parts);
}

/// Reducing `count` levels and then one more is reducing one level and
/// then `count` more.
pub proof fn lemma_reduced_peel_first<H: View, C: Combinator<H>>(
    count: nat,
    layer: Seq<<H as View>::V>,
)
    requires
        count >= 1,
    ensures
        reduced::<H, C>(count, layer) == reduced::<H, C>(
            (count - 1) as nat,
            next_layer::<H, C>(layer),
        ),
    decreases count,
{
    let nl = next_layer::<H, C>(layer);
    if count == 1 {
        assert(reduced::<H, C>(0, layer) == layer);
        assert(reduced::<H, C>(0, nl) == nl);
    } else {
        lemma_reduced_peel_first::<H, C>((count - 1) as nat, layer);
        assert(reduced::<H, C>(count, layer) == next_layer::<H, C>(
            reduced::<H, C>((count - 1) as nat, layer),
        ));
        assert(reduced::<H, C>((count - 1) as nat, nl) == next_layer::<H, C>(
            reduced::<H, C>((count - 2) as nat, nl),
        ));
    }
}

/// A layer of at most `pow2(count)` digests (and at least one) collapses
/// to exactly one digest after `count` reductions.
pub proof fn lemma_reduced_one<H: View, C: Combinator<H>>(count: nat, layer: Seq<<H as View>::V>)
    requires
        1 <= layer.len() <= pow2(count),
    ensures
        reduced::<H, C>(count, layer).len() == 1,
    decreases count,
{
    if count == 0 {
        assert(pow2(0) == 1) by {
            vstd::arithmetic::power2::lemma2_to64();
        }
    } else {
        lemma_pow2_unfold(count);
        lemma_pow2_pos((count - 1) as nat);
        lemma_reduced_peel_first::<H, C>(count, layer);
        let nl = next_layer::<H, C>(layer);
        assert(nl.len() == (layer.len() + 1) / 2);
        assert(1 <= nl.len() <= pow2((count - 1) as nat));
        lemma_reduced_one::<H, C>((count - 1) as nat, nl);
    }
}

/// Reducing the concatenation of a full block of `pow2(count)` digests
/// with any remainder reduces the two parts independently.
pub proof fn lemma_reduced_split<H: View, C: Combinator<H>>(
    count: nat,
    a: Seq<<H as View>::V>,
    b: Seq<<H as View>::V>,
)
    requires
        a.len() == pow2(count),
    ensures
        reduced::<H, C>(count, a + b) == reduced::<H, C>(count, a) + reduced::<H, C>(count, b),
    decreases count,
{
    if count == 0 {
        assert(pow2(0) == 1) by {
            vstd::arithmetic::power2::lemma2_to64();
        }
    } else {
        lemma_pow2_unfold(count);
        lemma_pow2_pos((count - 1) as nat);
        assert(a.len() % 2 == 0);
        lemma_next_layer_split::<H, C>(a, b);
        lemma_reduced_peel_first::<H, C>(count, a + b);
        lemma_reduced_peel_first::<H, C>(count, a);
        lemma_reduced_peel_first::<H, C>(count, b);
        let na = next_layer::<H, C>(a);
        let nb = next_layer::<H, C>(b);
        assert(na.len() == pow2((count - 1) as nat));
        lemma_reduced_split::<H, C>((count - 1) as nat, na, nb);
    }
}

/// For a layer whose length lies in `(pow2(count - 1), pow2(count)]`,
/// level collapse stops after exactly `count` reductions, and the root
/// is the sole digest left.
pub proof fn lemma_levels_root_via_reduced<H: View, C: Combinator<H>>(
    count: nat,
    layer: Seq<<H as View>::V>,
)
    requires
        count >= 1,
        pow2((count - 1) as nat) < layer.len() <= pow2(count),
    ensures
        levels_root::<H, C>(layer) == reduced::<H, C>(count, layer)[0],
    decreases count,
{
    lemma_pow2_unfold(count);
    lemma_pow2_pos((count - 1) as nat);
    let nl = next_layer::<H, C>(layer);
    lemma_reduced_peel_first::<H, C>(count, layer);
    if count == 1 {
        assert(pow2(0) == 1) by {
            vstd::arithmetic::power2::lemma2_to64();
        }
        assert(layer.len() == 2);
        assert(nl.len() == 1);
        assert(levels_root::<H, C>(layer) == levels_root::<H, C>(nl));
        assert(levels_root::<H, C>(nl) == nl[0]);
    } else {
        lemma_pow2_unfold((count - 1) as nat);
        lemma_pow2_pos((count - 2) as nat);
        assert(layer.len() >= 2);
        assert(pow2((count - 2) as nat) < nl.len() <= pow2((count - 1) as nat));
        lemma_levels_root_via_reduced::<H, C>((count - 1) as nat, nl);
    }
}

/// The root of a non-empty leaf sequence whose length lies in
/// `(pow2(count - 1), pow2(count)]` is the digest left after `count`
/// reductions.
pub proof fn lemma_root_of_via_reduced<H: View, C: Combinator<H>>(
    count: nat,
    leaves: Seq<<H as View>::V>,
)
    requires
        count >= 1,
        pow2((count - 1) as nat) < leaves.len() <= pow2(count),
        leaves.len() >= 2,
    ensures
        root_of::<H, C>(leaves) == reduced::<H, C>(count, leaves)[0],
{
    lemma_levels_root_via_reduced::<H, C>(count, leaves);
}

} // verus!

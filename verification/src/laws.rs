//! The laws of the Merkle tree construction, stated and proved over the
//! model. Both strategies return `root_of` of their leaf sequence, so
//! each law holds of either strategy's result.

use vstd::prelude::*;
use vstd::arithmetic::power2::{pow2, lemma_pow2_unfold, lemma_pow2_pos};
use crate::combinator::{Combinator, ConcatCombinator};
use crate::model::{
    next_layer,
    reduced,
    levels_root,
    root_of,
    lemma_next_layer_pair,
    lemma_reduced_peel_first,
    lemma_root_of_via_reduced,
};

verus! {

/// The root of a sole leaf `a` is `a` duplicated and combined with
/// itself: `combined(a, None)`.
pub proof fn lemma_root_single<H: View, C: Combinator<H>>(a: <H as View>::V)
    ensures
        root_of::<H, C>(seq![a]) == C::combined(a, None),
{
}

/// The root of exactly two leaves `a, b` is `combined(a, Some(b))`.
pub proof fn lemma_root_pair<H: View, C: Combinator<H>>(a: <H as View>::V, b: <H as View>::V)
    ensures
        root_of::<H, C>(seq![a, b]) == C::combined(a, Some(b)),
{
    lemma_next_layer_pair::<H, C>(a, b);
    assert(levels_root::<H, C>(seq![C::combined(a, Some(b))]) == C::combined(a, Some(b)));
}

/// At any level of odd width, the rightmost node of the next level is
/// produced by combining the sole remaining digest with itself.
pub proof fn lemma_odd_layer_duplicates<H: View, C: Combinator<H>>(layer: Seq<<H as View>::V>)
    requires
        layer.len() % 2 == 1,
    ensures
        next_layer::<H, C>(layer).last() == C::combined(layer.last(), None),
{
    let n = layer.len() as int;
    let i = (n - 1) / 2;
    assert(next_layer::<H, C>(layer).len() == (n + 1) / 2);
    assert(2 * i == n - 1);
    assert(next_layer::<H, C>(layer)[i] == C::combined(layer[2 * i], None));
}

/// Determinism: the root is a function of the leaf sequence alone, so
/// two independently constructed sources carrying equal leaves yield
/// identical roots, whichever strategy computes them.
pub proof fn lemma_root_deterministic<H: View, C: Combinator<H>>(
    leaves1: Seq<<H as View>::V>,
    leaves2: Seq<<H as View>::V>,
)
    requires
        leaves1 == leaves2,
    ensures
        root_of::<H, C>(leaves1) == root_of::<H, C>(leaves2),
{
}

/// Over `pow2(count)` leaves, the layer reached after `level`
/// reductions holds exactly `pow2(count - level)` nodes: every layer
/// below the root has even width, so every internal node has two
/// genuine children and the duplication rule never fires, whichever
/// combinator builds the tree.
pub proof fn lemma_power_of_two_layer_len<H: View, C: Combinator<H>>(
    count: nat,
    level: nat,
    layer: Seq<<H as View>::V>,
)
    requires
        layer.len() == pow2(count),
        level <= count,
    ensures
        reduced::<H, C>(level, layer).len() == pow2((count - level) as nat),
    decreases level,
{
    if level > 0 {
        lemma_pow2_unfold(count);
        lemma_pow2_pos((count - 1) as nat);
        lemma_reduced_peel_first::<H, C>(level, layer);
        let nl = next_layer::<H, C>(layer);
        assert(nl.len() == pow2((count - 1) as nat));
        lemma_power_of_two_layer_len::<H, C>((count - 1) as nat, (level - 1) as nat, nl);
    }
}

/// The concatenation of a sequence of digest views, in order. Under the
/// concatenating combinator a digest view is a sequence of characters.
pub open spec fn concat_all(leaves: Seq<Seq<char>>) -> Seq<char>
    decreases leaves.len(),
{
    if leaves.len() == 0 {
        Seq::empty()
    } else {
        leaves[0] + concat_all(leaves.drop_first())
    }
}

/// One reduction of an even-width layer concatenates pairs only, so it
/// preserves the concatenation of the layer.
proof fn lemma_next_layer_concat_even(layer: Seq<Seq<char>>)
    requires
        layer.len() % 2 == 0,
    ensures
        concat_all(next_layer::<Vec<char>, ConcatCombinator>(layer)) == concat_all(layer),
    decreases layer.len(),
{
    let nl = next_layer::<Vec<char>, ConcatCombinator>(layer);
    if layer.len() == 0 {
        assert(nl =~= Seq::<Seq<char>>::empty());
    } else {
        let x = <ConcatCombinator as Combinator<Vec<char>>>::combined(layer[0], Some(layer[1]));
        let rest = layer.skip(2);
        let nrest = next_layer::<Vec<char>, ConcatCombinator>(rest);
        assert(nl =~= seq![x] + nrest);
        lemma_next_layer_concat_even(rest);
        assert((seq![x] + nrest)[0] == x);
        assert((seq![x] + nrest).drop_first() =~= nrest);
        assert(concat_all(nl) == x + concat_all(rest));
        assert(layer.drop_first()[0] == layer[1]);
        assert(layer.drop_first().drop_first() =~= rest);
        assert(concat_all(layer) == layer[0] + concat_all(layer.drop_first()));
        assert(concat_all(layer.drop_first()) == layer[1] + concat_all(rest));
        assert(concat_all(layer) == layer[0] + (layer[1] + concat_all(rest)));
        assert((layer[0] + layer[1]) + concat_all(rest) =~= layer[0] + (layer[1] + concat_all(
            rest,
        )));
    }
}

/// A full block of `pow2(count)` leaves reduces to exactly their
/// concatenation: no leaf is ever duplicated.
proof fn lemma_reduced_concat_pow2(count: nat, layer: Seq<Seq<char>>)
    requires
        layer.len() == pow2(count),
    ensures
        reduced::<Vec<char>, ConcatCombinator>(count, layer)[0] == concat_all(layer),
    decreases count,
{
    if count == 0 {
        assert(pow2(0) == 1) by {
            vstd::arithmetic::power2::lemma2_to64();
        }
        assert(layer.drop_first().len() == 0);
        assert(concat_all(layer.drop_first()) == Seq::<char>::empty());
        assert(concat_all(layer) == layer[0] + Seq::<char>::empty());
        assert(layer[0] + Seq::<char>::empty() =~= layer[0]);
    } else {
        lemma_pow2_unfold(count);
        lemma_pow2_pos((count - 1) as nat);
        let nl = next_layer::<Vec<char>, ConcatCombinator>(layer);
        lemma_reduced_peel_first::<Vec<char>, ConcatCombinator>(count, layer);
        lemma_next_layer_concat_even(layer);
        assert(nl.len() == pow2((count - 1) as nat));
        lemma_reduced_concat_pow2((count - 1) as nat, nl);
    }
}

/// For a power-of-two leaf count (of at least two), every internal node
/// has two genuine children: under the concatenating combinator the
/// root is exactly the leaves concatenated in order, each used once,
/// with no duplication anywhere. (A sole leaf is the exception: it is
/// duplicated into its own parent.)
pub proof fn lemma_power_of_two_concat(count: nat, leaves: Seq<Seq<char>>)
    requires
        count >= 1,
        leaves.len() == pow2(count),
    ensures
        root_of::<Vec<char>, ConcatCombinator>(leaves) == concat_all(leaves),
{
    lemma_pow2_unfold(count);
    lemma_pow2_pos((count - 1) as nat);
    lemma_root_of_via_reduced::<Vec<char>, ConcatCombinator>(count, leaves);
    lemma_reduced_concat_pow2(count, leaves);
}

} // verus!

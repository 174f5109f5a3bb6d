//! The depth-first construction strategy.
//!
//! Sequential, recursive, O(n log n) time and O(log n) auxiliary space:
//! the tree is never materialized. The walk keeps a single `left`
//! digest summarizing the first `pow2(height - 1)` leaves, descends to
//! compute the matching `right` sibling from the next leaves of the
//! stream, combines, and ascends while the source still has leaves.
//! The result is proved to be `root_of` of the full leaf sequence, the
//! same value the width-first strategy returns.

use vstd::prelude::*;
use vstd::arithmetic::power2::{
    pow2,
    lemma_pow2_unfold,
    lemma_pow2_pos,
    lemma_pow2_strictly_increases,
    lemma2_to64,
    lemma2_to64_rest,
};
use crate::combinator::Combinator;
use crate::model::{
    next_layer,
    reduced,
    root_of,
    lemma_next_layer_single,
    lemma_next_layer_pair,
    lemma_reduced_one,
    lemma_reduced_split,
    lemma_root_of_via_reduced,
};
use crate::source::LeafSource;

verus! {

/// How many leaves a descent at `height` consumes from a source that
/// still holds `available` leaves: a full block of `pow2(height)`, or
/// everything that is left.
pub open spec fn consumed(height: nat, available: nat) -> nat {
    if pow2(height) <= available {
        pow2(height)
    } else {
        available
    }
}

/// The depth-first strategy.
pub struct DepthWalk;

impl crate::MerkleTreeRoot for DepthWalk {
    fn calculate<H: View + Send + Sync, C: Combinator<H> + Sync>(
        source: &mut LeafSource<H>,
        combinator: &C,
    ) -> (out: H) {
        let first = source.next();
        match first {
            Some(left) => {
                let ghost pfx: Seq<<H as View>::V> = seq![left@];
                proof {
                    lemma2_to64();
                    assert(reduced::<H, C>(0, pfx) == pfx);
                }
                let out = walk_up(1, left, source, combinator, Ghost(pfx));
                proof {
                    assert(seq![old(source)@[0]] + old(source)@.drop_first() =~= old(source)@);
                }
                out
            },
            None => vstd::pervasive::unreached(),
        }
    }
}

/// One ascent step: `left` summarizes the block of the first
/// `pow2(height - 1)` leaves already consumed (the ghost `prefix`); the
/// walk computes that block's right sibling from the stream, combines,
/// and keeps ascending while leaves remain. The result is the root of
/// the whole leaf sequence, prefix included.
pub fn walk_up<H: View, C: Combinator<H>>(
    height: usize,
    left: H,
    source: &mut LeafSource<H>,
    combinator: &C,
    prefix: Ghost<Seq<<H as View>::V>>,
) -> (out: H)
    requires
        height >= 1,
        prefix@.len() == pow2((height - 1) as nat),
        reduced::<H, C>((height - 1) as nat, prefix@) == seq![left@],
        height > 1 ==> old(source)@.len() >= 1,
    ensures
        out@ == root_of::<H, C>(prefix@ + old(source)@),
        final(source)@.len() == 0,
    decreases old(source)@.len(),
{
    let ghost s = old(source)@;
    let ghost h1 = (height - 1) as nat;
    proof {
        // a usize bounds the number of leaves left, which caps the
        // ascent height: the overflow argument below rests on this
        source.lemma_len_bounded();
        lemma_pow2_pos(h1);
    }
    let right = walk_down(height - 1, source, combinator);
    let node = match &right {
        Some(r) => combinator.combine(&left, Some(r)),
        None => combinator.combine(&left, None),
    };
    if source.has_more() {
        proof {
            assert(s.len() >= 1);
            let m1 = consumed(h1, s.len());
            let q = s.take(m1 as int);
            let mid = s.skip(m1 as int);
            assert(mid.len() >= 1);
            assert(m1 == pow2(h1));
            // the ascended block of pow2(height) leaves reduces to `node`
            lemma_reduced_one::<H, C>(h1, q);
            assert(reduced::<H, C>(h1, q) =~= seq![reduced::<H, C>(h1, q)[0]]);
            lemma_reduced_split::<H, C>(h1, prefix@, q);
            assert(seq![left@] + seq![reduced::<H, C>(h1, q)[0]] =~= seq![
                left@,
                reduced::<H, C>(h1, q)[0],
            ]);
            lemma_next_layer_pair::<H, C>(left@, reduced::<H, C>(h1, q)[0]);
            assert(reduced::<H, C>(height as nat, prefix@ + q) == next_layer::<H, C>(
                reduced::<H, C>(h1, prefix@ + q),
            ));
            assert(reduced::<H, C>(height as nat, prefix@ + q) == seq![node@]);
            lemma_pow2_unfold(height as nat);
            assert((prefix@ + q).len() == pow2(height as nat));
            // the ascent cannot overflow `height`: a block of
            // pow2(height - 1) leaves fit in the source, whose length a
            // usize holds
            if height >= 65 {
                lemma2_to64();
                lemma2_to64_rest();
                if h1 > 64 {
                    lemma_pow2_strictly_increases(64, h1);
                }
                assert(pow2(h1) >= pow2(64));
                assert(pow2(h1) <= s.len());
                assert(false);
            }
        }
        let ghost pfx: Seq<<H as View>::V> = prefix@ + s.take(consumed(h1, s.len()) as int);
        let out = walk_up(height + 1, node, source, combinator, Ghost(pfx));
        proof {
            let m1 = consumed(h1, s.len());
            assert((prefix@ + s.take(m1 as int)) + s.skip(m1 as int) =~= prefix@ + s);
        }
        out
    } else {
        proof {
            if s.len() == 0 {
                // only the very first ascent can start on an exhausted
                // source: a single leaf, combined with itself
                assert(height == 1);
                assert(reduced::<H, C>(0, prefix@) == prefix@);
                assert(prefix@ == seq![left@]);
                assert(prefix@ + s =~= prefix@);
                assert(root_of::<H, C>(prefix@) == C::combined(prefix@[0], None));
            } else {
                let m1 = consumed(h1, s.len());
                let q = s.take(m1 as int);
                assert(s.skip(m1 as int).len() == 0);
                assert(m1 == s.len());
                assert(q =~= s);
                lemma_reduced_one::<H, C>(h1, q);
                assert(reduced::<H, C>(h1, q) =~= seq![reduced::<H, C>(h1, q)[0]]);
                lemma_reduced_split::<H, C>(h1, prefix@, q);
                assert(seq![left@] + seq![reduced::<H, C>(h1, q)[0]] =~= seq![
                    left@,
                    reduced::<H, C>(h1, q)[0],
                ]);
                lemma_next_layer_pair::<H, C>(left@, reduced::<H, C>(h1, q)[0]);
                assert(reduced::<H, C>(height as nat, prefix@ + q) == next_layer::<H, C>(
                    reduced::<H, C>(h1, prefix@ + q),
                ));
                assert(reduced::<H, C>(height as nat, prefix@ + q) == seq![node@]);
                lemma_pow2_unfold(height as nat);
                assert(pow2(h1) < (prefix@ + q).len() <= pow2(height as nat));
                lemma_root_of_via_reduced::<H, C>(height as nat, prefix@ + q);
                assert(prefix@ + q =~= prefix@ + s);
            }
        }
        node
    }
}

/// One descent: consumes up to `pow2(height)` leaves from the stream
/// and returns the digest summarizing them — the result of `height`
/// levels of reduction over exactly the leaves consumed. Returns `None`
/// only on an already exhausted source; a descent that runs out of
/// leaves midway duplicates transitively, and a partial block empties
/// the source.
pub fn walk_down<H: View, C: Combinator<H>>(
    height: usize,
    source: &mut LeafSource<H>,
    combinator: &C,
) -> (out: Option<H>)
    ensures
        old(source)@.len() == 0 ==> out is None && final(source)@ == old(source)@,
        old(source)@.len() >= 1 ==> ({
            let m = consumed(height as nat, old(source)@.len());
            &&& out matches Some(h) && h@ == reduced::<H, C>(
                height as nat,
                old(source)@.take(m as int),
            )[0]
            &&& final(source)@ == old(source)@.skip(m as int)
        }),
    decreases height,
{
    let ghost s = old(source)@;
    if height == 0 {
        let r = source.next();
        proof {
            if s.len() >= 1 {
                lemma2_to64();
                assert(consumed(0, s.len()) == 1);
                assert(reduced::<H, C>(0, s.take(1)) == s.take(1));
                assert(s.take(1)[0] == s[0]);
                assert(s.drop_first() =~= s.skip(1));
            }
        }
        r
    } else {
        let ghost h1 = (height - 1) as nat;
        let first = walk_down(height - 1, source, combinator);
        match first {
            None => None,
            Some(lv) => {
                proof {
                    lemma_pow2_pos(h1);
                    lemma_pow2_unfold(height as nat);
                }
                let ghost m1 = consumed(h1, s.len());
                let ghost q1 = s.take(m1 as int);
                let ghost mid = s.skip(m1 as int);
                let second = walk_down(height - 1, source, combinator);
                let node = match &second {
                    Some(r) => combinator.combine(&lv, Some(r)),
                    None => combinator.combine(&lv, None),
                };
                proof {
                    lemma_reduced_one::<H, C>(h1, q1);
                    assert(reduced::<H, C>(h1, q1) =~= seq![lv@]);
                    let m = consumed(height as nat, s.len());
                    if mid.len() == 0 {
                        // the source ran dry inside the left branch:
                        // everything is consumed and `node` duplicates
                        assert(m1 == s.len());
                        assert(q1 =~= s);
                        assert(m == s.len());
                        assert(s.take(m as int) =~= s);
                        lemma_next_layer_single::<H, C>(lv@);
                        assert(reduced::<H, C>(height as nat, s) == next_layer::<H, C>(
                            reduced::<H, C>(h1, s),
                        ));
                        assert(node@ == reduced::<H, C>(height as nat, s.take(m as int))[0]);
                        assert(final(source)@ =~= s.skip(m as int));
                    } else {
                        // a full left block; the right branch consumes
                        // what comes next
                        assert(m1 == pow2(h1));
                        let m2 = consumed(h1, mid.len());
                        let q2 = mid.take(m2 as int);
                        lemma_reduced_one::<H, C>(h1, q2);
                        assert(reduced::<H, C>(h1, q2) =~= seq![reduced::<H, C>(h1, q2)[0]]);
                        lemma_reduced_split::<H, C>(h1, q1, q2);
                        assert(seq![lv@] + seq![reduced::<H, C>(h1, q2)[0]] =~= seq![
                            lv@,
                            reduced::<H, C>(h1, q2)[0],
                        ]);
                        lemma_next_layer_pair::<H, C>(lv@, reduced::<H, C>(h1, q2)[0]);
                        assert(reduced::<H, C>(height as nat, q1 + q2) == next_layer::<H, C>(
                            reduced::<H, C>(h1, q1 + q2),
                        ));
                        assert(reduced::<H, C>(height as nat, q1 + q2) == seq![node@]);
                        assert(m == m1 + m2);
                        assert(q1 + q2 =~= s.take(m as int));
                        assert(node@ == reduced::<H, C>(height as nat, s.take(m as int))[0]);
                        assert(mid.skip(m2 as int) =~= s.skip(m as int));
                    }
                }
                Some(node)
            },
        }
    }
}

} // verus!

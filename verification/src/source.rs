//! The in-memory hash source both strategies consume: a forward-only,
//! single-pass, order-preserving producer of digests with a peek that
//! reports whether at least one more value remains.

use vstd::prelude::*;

verus! {

/// A forward-only stream of leaf digests, consumed left to right.
///
/// Its view is the sequence of digest views still to be produced, in
/// order. `next` removes the front element; nothing is ever re-read.
pub struct LeafSource<H> {
    items: Vec<H>,
}

impl<H: View> View for LeafSource<H> {
    type V = Seq<<H as View>::V>;

    closed spec fn view(&self) -> Seq<<H as View>::V> {
        self.items@.map_values(|h: H| h@)
    }
}

impl<H: View> LeafSource<H> {
    /// Builds a source that will produce the given digests in order.
    pub fn new(items: Vec<H>) -> (s: Self)
        ensures
            s@ == items@.map_values(|h: H| h@),
    {
        LeafSource { items }
    }

    /// Peek: reports whether at least one more digest remains, without
    /// consuming anything.
    pub fn has_more(&self) -> (b: bool)
        ensures
            b == (self@.len() > 0),
    {
        self.items.len() > 0
    }

    /// How many digests remain to be produced.
    pub fn len(&self) -> (n: usize)
        ensures
            n == self@.len(),
    {
        self.items.len()
    }

    /// The stream is backed by in-memory storage, so the number of
    /// digests left always fits in a usize.
    pub proof fn lemma_len_bounded(&self)
        ensures
            self@.len() <= usize::MAX,
    {
        vstd::std_specs::vec::axiom_spec_len(&self.items);
        assert(self@.len() == self.items@.len());
    }

    /// Produces the next digest, or `None` once the source is exhausted.
    pub fn next(&mut self) -> (r: Option<H>)
        ensures
            old(self)@.len() == 0 ==> r is None && final(self)@ == old(self)@,
            old(self)@.len() > 0 ==> match r {
                Some(h) => h@ == old(self)@[0] && final(self)@ == old(self)@.drop_first(),
                None => false,
            },
    {
        if self.items.len() > 0 {
            let h = self.items.remove(0);
            assert(self@ =~= old(self)@.drop_first());
            Some(h)
        } else {
            None
        }
    }
}

} // verus!

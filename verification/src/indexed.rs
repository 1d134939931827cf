//! An iterator adapter that numbers the items of another iterator.

use vstd::prelude::*;
use vstd::std_specs::iter::IteratorSpec;

verus! {

/// The items of an iterator, each with its position: the first item has
/// position 0.
pub struct Indexed<A, T> {
    iter: T,
    idx: usize,
    item: core::marker::PhantomData<A>,
}

impl<A, T: Iterator<Item = A>> Indexed<A, T> {
    /// The position that the next item gets.
    pub closed spec fn position(&self) -> nat {
        self.idx as nat
    }

    /// The iterator that the items come from.
    pub closed spec fn source(&self) -> T {
        self.iter
    }

    /// Asks the source once for its next item and hands it out with its
    /// position, or `None` if the source gave none. The position grows by
    /// one with every item handed out and stays when there was none.
    pub fn next(&mut self) -> (result: Option<(usize, A)>)
        requires
            old(self).position() < usize::MAX,
        ensures
            result matches Some(pair) ==> pair.0 == old(self).position()
                && final(self).position() == old(self).position() + 1,
            result is None ==> final(self).position() == old(self).position(),
            final(self).source().obeys_prophetic_iter_laws() == old(
                self,
            ).source().obeys_prophetic_iter_laws(),
            old(self).source().obeys_prophetic_iter_laws() ==> (if old(
                self,
            ).source().remaining().len() > 0 {
                &&& result == Some((old(self).position() as usize, old(self).source().remaining()[0]))
                &&& final(self).position() == old(self).position() + 1
                &&& final(self).source().remaining() == old(self).source().remaining().drop_first()
            } else {
                &&& result is None
                &&& final(self).position() == old(self).position()
                &&& final(self).source().remaining() == old(self).source().remaining()
            }),
    {
        match self.iter.next() {
            Some(v) => {
                let result = (self.idx, v);
                self.idx += 1;
                Some(result)
            },
            None => None,
        }
    }
}

/// Iterators whose items can be numbered.
pub trait ToIndexed<A, T: Iterator<Item = A>> {
    /// The same items, each with its position, counted from 0.
    fn indexed(self) -> (indexed: Indexed<A, T>)
        ensures
            indexed.position() == 0,
    ;
}

impl<A, T: Iterator<Item = A>> ToIndexed<A, T> for T {
    fn indexed(self) -> (indexed: Indexed<A, T>)
        ensures
            indexed.source() == self,
    {
        Indexed { iter: self, idx: 0, item: core::marker::PhantomData }
    }
}

} // verus!

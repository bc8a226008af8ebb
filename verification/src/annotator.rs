//! The annotator: a source of elements, read one element at a time, each
//! element handed on with its coordinate.

use crate::laws::lemma_annotate_unfold;
use crate::model::{advance, annotate, is_split};
use vstd::prelude::*;
use vstd::std_specs::cmp::PartialEqSpec;
use vstd::std_specs::iter::IteratorSpec;

verus! {

/// Pairs the elements of a source with their coordinates
/// `(block_number, block_position)`. Made by [`enumerate_split`].
///
/// Both counters stop at `usize::MAX` instead of overflowing. Once the source
/// has reported its end it is not asked again.
#[verifier::reject_recursive_types(T)]
pub struct EnumerateSplit<Iter, T> where Iter: Iterator<Item = T>, T: PartialEq {
    iter: Iter,
    split_value: T,
    block_number: usize,
    block_position: usize,
    exhausted: bool,
}

impl<Iter, T> EnumerateSplit<Iter, T> where Iter: Iterator<Item = T>, T: PartialEq {
    /// The source in its present state.
    pub closed spec fn source(&self) -> Iter {
        self.iter
    }

    /// The value that closes a block.
    pub closed spec fn split_value(&self) -> T {
        self.split_value
    }

    /// The coordinate that the next element will get.
    pub closed spec fn position(&self) -> (usize, usize) {
        (self.block_number, self.block_position)
    }

    /// Whether the source has reported its end.
    pub closed spec fn exhausted(&self) -> bool {
        self.exhausted
    }

    /// What is yet to be handed out, if `rest` is what the source has yet to
    /// hand out: nothing after the end, else `rest` with its coordinates.
    pub open spec fn output(&self, rest: Seq<T>) -> Seq<(T, (usize, usize))> {
        if self.exhausted() {
            Seq::empty()
        } else {
            annotate(rest, self.split_value(), self.position())
        }
    }

    /// Moves to the start of the next block.
    fn nudge_block(&mut self)
        ensures
            *final(self) == (EnumerateSplit {
                block_number: advance(old(self).position(), true).0,
                block_position: advance(old(self).position(), true).1,
                ..*old(self)
            }),
    {
        self.block_number = self.block_number.saturating_add(1);
        self.block_position = 0;
    }

    /// Moves to the next position of the same block.
    fn nudge_position(&mut self)
        ensures
            *final(self) == (EnumerateSplit {
                block_number: advance(old(self).position(), false).0,
                block_position: advance(old(self).position(), false).1,
                ..*old(self)
            }),
    {
        self.block_position = self.block_position.saturating_add(1);
    }

    /// The coordinate that the next element will get.
    fn get_position(&self) -> (at: (usize, usize))
        ensures
            at == self.position(),
    {
        (self.block_number, self.block_position)
    }

    /// Takes the next element from the source and returns it with its
    /// coordinate, or returns `None` when the source has ended.
    ///
    /// The element gets the coordinate held before the call. After a split
    /// element the coordinate moves to position 0 of the next block, after any
    /// other element to the next position of the same block. Once `None` was
    /// returned, every later call returns `None` and changes nothing.
    pub fn next(&mut self) -> (ret: Option<(T, (usize, usize))>)
        ensures
            final(self).split_value() == old(self).split_value(),
            // The end, once reported, stays.
            final(self).exhausted() <==> ret is None,
            old(self).exhausted() ==> ret is None && *final(self) == *old(self),
            // The coordinate handed out is the one held before the call; the
            // one held after it follows from the element.
            ret is None ==> final(self).position() == old(self).position(),
            ret matches Some((e, at)) ==> ({
                &&& at == old(self).position()
                &&& final(self).position() == advance(at, true) || final(self).position()
                    == advance(at, false)
                &&& T::obeys_eq_spec() ==> final(self).position() == advance(
                    at,
                    is_split(e, old(self).split_value()),
                )
            }),
            // A source that keeps the iterator laws gives up its first element.
            final(self).source().obeys_prophetic_iter_laws() == old(
                self,
            ).source().obeys_prophetic_iter_laws(),
            !old(self).exhausted() && old(self).source().obeys_prophetic_iter_laws() ==> ({
                let pending = old(self).source().remaining();
                if pending.len() > 0 {
                    &&& ret matches Some((e, _))
                    &&& e == pending[0]
                    &&& final(self).source().remaining() == pending.drop_first()
                } else {
                    &&& ret is None
                    &&& final(self).source().remaining() == pending
                    &&& final(self).source().will_return_none()
                }
            }),
            old(self).source().obeys_prophetic_iter_laws() ==> ({
                &&& final(self).source().will_return_none() == old(self).source().will_return_none()
                &&& final(self).source().decrease() is Some <==> old(self).source().decrease()
                    is Some
                &&& ret is Some && final(self).source().decrease() is Some ==> decreases_to!(
                    old(self).source().decrease()->0 => final(self).source().decrease()->0
                )
            }),
            // Of all that was yet to be handed out, the first pair is handed
            // out and the others remain.
            old(self).source().obeys_prophetic_iter_laws() && T::obeys_eq_spec() ==> ({
                let output = old(self).output(old(self).source().remaining());
                let rest = final(self).output(final(self).source().remaining());
                if output.len() > 0 {
                    ret == Some(output[0]) && rest == output.drop_first()
                } else {
                    ret is None && rest == output
                }
            }),
    {
        if self.exhausted {
            return None;
        }
        match self.iter.next() {
            Some(t) => {
                let split = t == self.split_value;
                let res = Some((t, self.get_position()));
                if split {
                    self.nudge_block();
                } else {
                    self.nudge_position();
                }
                proof {
                    if old(self).source().obeys_prophetic_iter_laws() {
                        lemma_annotate_unfold(
                            old(self).source().remaining(),
                            old(self).split_value(),
                            old(self).position(),
                        );
                    }
                }
                res
            },
            None => {
                self.exhausted = true;
                None
            },
        }
    }
}

/// Makes an annotator that reads `iter` and closes a block at every element
/// equal to `split_value`. The first element will get the coordinate `(0, 0)`.
pub fn enumerate_split<Iter, T>(iter: Iter, split_value: T) -> (r: EnumerateSplit<Iter, T>) where
    Iter: Iterator<Item = T>,
    T: PartialEq,

    ensures
        r.source() == iter,
        r.split_value() == split_value,
        r.position() == (0usize, 0usize),
        !r.exhausted(),
        r.output(iter.remaining()) == annotate(iter.remaining(), split_value, (0, 0)),
{
    EnumerateSplit {
        iter: iter,
        split_value: split_value,
        block_number: 0,
        block_position: 0,
        exhausted: false,
    }
}

} // verus!

//! The mathematical model: which coordinate each element of a sequence gets.

use vstd::prelude::*;
use vstd::std_specs::cmp::PartialEqSpec;

verus! {

/// Whether `e` is a split element, by the element type's own equality.
pub open spec fn is_split<T: PartialEq>(e: T, split: T) -> bool {
    e.eq_spec(&split)
}

/// The predicate "is a split element" for a fixed split value.
pub open spec fn splits<T: PartialEq>(split: T) -> spec_fn(T) -> bool {
    |e: T| is_split(e, split)
}

/// The number of split elements in `s`.
pub open spec fn split_count<T: PartialEq>(s: Seq<T>, split: T) -> nat {
    s.filter(splits(split)).len()
}

/// The number of elements at the end of `s` that follow its last split
/// element; all of `s` if it holds none.
pub open spec fn open_run<T: PartialEq>(s: Seq<T>, split: T) -> nat
    decreases s.len(),
{
    if s.len() == 0 || is_split(s.last(), split) {
        0
    } else {
        1 + open_run(s.drop_last(), split)
    }
}

/// A counter value as it is held in a `usize`: counters stop at `usize::MAX`.
pub open spec fn saturate(n: int) -> usize {
    if n <= usize::MAX {
        n as usize
    } else {
        usize::MAX
    }
}

/// The coordinate that follows `at`, given whether the element at `at` was a
/// split element.
pub open spec fn advance(at: (usize, usize), split: bool) -> (usize, usize) {
    if split {
        (saturate(at.0 + 1), 0)
    } else {
        (at.0, saturate(at.1 + 1))
    }
}

/// The coordinate of `s[i]` when `s[0]` has the coordinate `start`; for
/// `i == s.len()`, the coordinate of an element that would follow `s`.
///
/// The block number grows by the number of split elements before `s[i]`. The
/// position counts the elements since the last of them; as long as there is
/// none, it continues from `start`.
pub open spec fn coordinate<T: PartialEq>(s: Seq<T>, split: T, start: (usize, usize), i: int) -> (
    usize,
    usize,
) {
    let before = s.take(i);
    if split_count(before, split) == 0 {
        (start.0, saturate(start.1 + i))
    } else {
        (saturate(start.0 + split_count(before, split)), saturate(open_run(before, split) as int))
    }
}

/// Every element of `s` paired with its coordinate, `s[0]` standing at `start`.
pub open spec fn annotate<T: PartialEq>(s: Seq<T>, split: T, start: (usize, usize)) -> Seq<
    (T, (usize, usize)),
> {
    Seq::new(s.len(), |i: int| (s[i], coordinate(s, split, start, i)))
}

} // verus!

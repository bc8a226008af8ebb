//! What holds of the coordinates of every sequence.

use crate::model::{advance, annotate, coordinate, is_split, open_run, saturate, split_count, splits};
use vstd::prelude::*;

verus! {

/// Appending one element adds it to the split count if it is a split element.
pub proof fn lemma_split_count_push<T: PartialEq>(s: Seq<T>, split: T, e: T)
    ensures
        split_count(s.push(e), split) == split_count(s, split) + if is_split(e, split) {
            1nat
        } else {
            0nat
        },
{
    s.lemma_filter_len_push(splits(split), e);
}

/// A sequence holds no split element exactly if its split count is 0.
pub proof fn lemma_split_count_zero<T: PartialEq>(s: Seq<T>, split: T)
    ensures
        split_count(s, split) == 0 <==> forall|j: int| 0 <= j < s.len() ==> !is_split(s[j], split),
    decreases s.len(),
{
    if s.len() == 0 {
        s.lemma_filter_len(splits(split));
    } else {
        let front = s.drop_last();
        lemma_split_count_zero(front, split);
        lemma_split_count_push(front, split, s.last());
        assert(front.push(s.last()) =~= s);
    }
}

/// The open run of `s` is made of its last elements, none of them a split
/// element, and the element before them, if there is one, is a split element.
pub proof fn lemma_open_run_bounds<T: PartialEq>(s: Seq<T>, split: T)
    ensures
        open_run(s, split) <= s.len(),
        forall|j: int| s.len() - open_run(s, split) <= j < s.len() ==> !is_split(s[j], split),
        open_run(s, split) < s.len() ==> is_split(s[s.len() - open_run(s, split) - 1], split),
        split_count(s, split) == 0 <==> open_run(s, split) == s.len(),
    decreases s.len(),
{
    lemma_split_count_zero(s, split);
    if s.len() > 0 && !is_split(s.last(), split) {
        let front = s.drop_last();
        lemma_open_run_bounds(front, split);
        assert forall|j: int| s.len() - open_run(s, split) <= j < s.len() implies !is_split(
            s[j],
            split,
        ) by {
            if j < front.len() {
                assert(front[j] == s[j]);
            }
        }
        if open_run(s, split) < s.len() {
            assert(front[front.len() - open_run(front, split) - 1] == s[s.len() - open_run(
                s,
                split,
            ) - 1]);
        }
    }
}

/// The first element stands at `start`.
pub proof fn lemma_coordinate_first<T: PartialEq>(s: Seq<T>, split: T, start: (usize, usize))
    ensures
        coordinate(s, split, start, 0) == start,
{
    s.take(0).lemma_filter_len(splits(split));
}

/// From one element to the next the coordinate moves by one step: after a
/// split element the block number grows by 1 and the position returns to 0;
/// after any other element the block number stays and the position grows by 1.
pub proof fn lemma_coordinate_step<T: PartialEq>(
    s: Seq<T>,
    split: T,
    start: (usize, usize),
    i: int,
)
    requires
        0 <= i < s.len(),
    ensures
        coordinate(s, split, start, i + 1) == advance(
            coordinate(s, split, start, i),
            is_split(s[i], split),
        ),
{
    let before = s.take(i);
    assert(s.take(i + 1) =~= before.push(s[i]));
    assert(before.push(s[i]).drop_last() =~= before);
    lemma_split_count_push(before, split, s[i]);
}

/// Without its first element a sequence keeps its coordinates, counted from
/// the coordinate that follows `start`.
pub proof fn lemma_coordinate_rest<T: PartialEq>(
    s: Seq<T>,
    split: T,
    start: (usize, usize),
    i: int,
)
    requires
        0 <= i < s.len(),
    ensures
        coordinate(s, split, start, i + 1) == coordinate(
            s.drop_first(),
            split,
            advance(start, is_split(s[0], split)),
            i,
        ),
    decreases i,
{
    let rest = s.drop_first();
    let second = advance(start, is_split(s[0], split));
    lemma_coordinate_step(s, split, start, i);
    if i == 0 {
        lemma_coordinate_first(s, split, start);
        lemma_coordinate_first(rest, split, second);
    } else {
        lemma_coordinate_rest(s, split, start, i - 1);
        lemma_coordinate_step(rest, split, second, i - 1);
    }
}

/// The annotated sequence starts with the first element at `start` and goes
/// on with the annotation of the rest, counted from the coordinate that
/// follows `start`.
pub proof fn lemma_annotate_unfold<T: PartialEq>(s: Seq<T>, split: T, start: (usize, usize))
    requires
        s.len() > 0,
    ensures
        annotate(s, split, start)[0] == (s[0], start),
        annotate(s, split, start).drop_first() == annotate(
            s.drop_first(),
            split,
            advance(start, is_split(s[0], split)),
        ),
{
    let rest = s.drop_first();
    let second = advance(start, is_split(s[0], split));
    lemma_coordinate_first(s, split, start);
    assert forall|i: int| 0 <= i < rest.len() implies annotate(s, split, start).drop_first()[i]
        == annotate(rest, split, second)[i] by {
        lemma_coordinate_rest(s, split, start, i);
    }
    assert(annotate(s, split, start).drop_first() =~= annotate(rest, split, second));
}

/// Annotation keeps the elements: as many as in `s`, each in its place.
pub proof fn lemma_elements_kept<T: PartialEq>(s: Seq<T>, split: T, start: (usize, usize))
    ensures
        annotate(s, split, start).len() == s.len(),
        annotate(s, split, start).map_values(|pair: (T, (usize, usize))| pair.0) == s,
{
    assert(annotate(s, split, start).map_values(|pair: (T, (usize, usize))| pair.0) =~= s);
}

/// In a sequence without split elements every element lies in block 0, at
/// the position that is its index (as far as a `usize` counts).
pub proof fn lemma_single_block<T: PartialEq>(s: Seq<T>, split: T)
    requires
        forall|j: int| 0 <= j < s.len() ==> !is_split(s[j], split),
    ensures
        forall|i: int|
            0 <= i < s.len() ==> #[trigger] annotate(s, split, (0, 0))[i] == (
                s[i],
                (0usize, saturate(i)),
            ),
        forall|i: int|
            0 <= i < s.len() && i <= usize::MAX ==> (#[trigger] annotate(s, split, (0, 0))[i]).1.1
                == i,
{
    assert forall|i: int| 0 <= i < s.len() implies #[trigger] annotate(s, split, (0, 0))[i] == (
        s[i],
        (0usize, saturate(i)),
    ) by {
        lemma_split_count_zero(s.take(i), split);
    }
}

/// Block numbers never go down along the sequence.
pub proof fn lemma_block_number_monotonic<T: PartialEq>(
    s: Seq<T>,
    split: T,
    start: (usize, usize),
    i: int,
    j: int,
)
    requires
        0 <= i <= j <= s.len(),
    ensures
        coordinate(s, split, start, i).0 <= coordinate(s, split, start, j).0,
{
    s.take(j).lemma_filter_take_len(splits(split), i);
    assert(s.take(j).take(i) =~= s.take(i));
}

/// A split element closes its block. Its position is the number of elements
/// that precede it in that block: they reach back to the previous split
/// element, or to the start of the sequence. The element after it opens the
/// next block, whose number is greater by 1 (as far as a `usize` counts), at
/// position 0.
pub proof fn lemma_split_closes_block<T: PartialEq>(s: Seq<T>, split: T, i: int)
    requires
        0 <= i < s.len(),
        is_split(s[i], split),
    ensures
        ({
            let run = open_run(s.take(i), split);
            &&& annotate(s, split, (0, 0))[i].1.1 == saturate(run as int)
            &&& run <= i
            &&& forall|j: int| i - run <= j < i ==> !is_split(s[j], split)
            &&& run < i ==> is_split(s[i - run - 1], split)
        }),
        i + 1 < s.len() ==> ({
            let at = annotate(s, split, (0, 0))[i].1;
            let after = annotate(s, split, (0, 0))[i + 1].1;
            &&& after == (saturate(at.0 + 1), 0usize)
            &&& at.0 < usize::MAX ==> after.0 == at.0 + 1
        }),
{
    let before = s.take(i);
    lemma_open_run_bounds(before, split);
    assert forall|j: int| i - open_run(before, split) <= j < i implies !is_split(s[j], split) by {
        assert(before[j] == s[j]);
    }
    if open_run(before, split) < i {
        assert(before[i - open_run(before, split) - 1] == s[i - open_run(before, split) - 1]);
    }
    lemma_coordinate_step(s, split, (0, 0), i);
}

} // verus!

//! Block-position annotation of sequences.
//!
//! An annotator wraps a source of elements and pairs every element with a
//! coordinate `(block_number, block_position)`. Blocks are separated by a
//! designated split value: an element equal to it is the last element of its
//! block, and the element after it opens the next block at position 0.
//!
//! [`enumerate_split`] makes an annotator and [`EnumerateSplit::next`] hands
//! out one pair at a time. [`model`] says which coordinate every element of a
//! sequence gets, and [`laws`] holds what is proved of those coordinates.

pub mod annotator;
pub mod laws;
pub mod model;

pub use annotator::{enumerate_split, EnumerateSplit};

//! Descending ranges of characters in the 7-bit ASCII table.
//!
//! The library computes the lines that a range printer writes: every
//! character from an upper bound down to a lower bound, both included, one
//! per line. Writing them out is left to the caller.

mod range;

pub use range::{
    a2z_descending, ascending_chars, descending_chars, descending_range, in_table,
    lemma_calls_agree, lemma_empty_when_inverted, lemma_line_count, lemma_reversed_is_ascending,
    lemma_single_line, lemma_strictly_decreasing, line_count, range_outcome, InvalidRange,
    TABLE_SIZE,
};

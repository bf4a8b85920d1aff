//! Maximum gross value of a four-way contiguous partition.
//!
//! A sequence of 32-bit integers is split into four contiguous segments by
//! three ordered cut points, and the segment sums are combined with
//! alternating signs. The library computes the maximum such combination over
//! all valid cut-point triples, with exact contracts over a mathematical
//! model of the partition.

pub mod model;
pub mod partitioner;

pub use partitioner::{get_maximum_gross_value, gross_value_of, GrossValueError};

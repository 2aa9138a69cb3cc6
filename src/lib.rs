//! The integer and text side of a small decoder-only transformer, with its
//! behaviour stated in contracts and proved: the whitespace and byte-pair
//! tokenizers, next-token samples and their batching, greedy choice of the
//! next token, the gradient update schedule, the shape rules of the layers,
//! matrix lookups and reshapes, and the layout and names of tensor files.
//!
//! The floating-point layers that use these live outside this crate.
use vstd::prelude::*;

pub mod text;
pub mod tokenizer;
pub mod dataset;
pub mod ffi;
pub mod greedy;
pub mod tensor_file;
pub mod schedule;
pub mod shapes;
pub mod matrix;
pub mod names;

verus! {

/// Sum of two unsigned integers; the caller guarantees it fits.
pub fn add(left: u64, right: u64) -> (r: u64)
    requires
        left + right <= u64::MAX,
    ensures
        r == left + right,
{
    left + right
}

} // verus!

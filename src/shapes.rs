//! Shape rules that the layers check when they are built.
use vstd::prelude::*;

verus! {

/// Width of each attention head: `embed_dim` split evenly over `num_heads`
/// heads, or `None` when `num_heads` is 0 or does not divide `embed_dim`.
pub fn head_dim(embed_dim: usize, num_heads: usize) -> (r: Option<usize>)
    ensures
        r is Some <==> num_heads > 0 && embed_dim % num_heads == 0,
        r matches Some(h) ==> h * num_heads == embed_dim,
{
    if num_heads == 0 || embed_dim % num_heads != 0 {
        None
    } else {
        let h = embed_dim / num_heads;
        assert(h * num_heads == embed_dim) by (nonlinear_arith)
            requires
                num_heads > 0,
                embed_dim % num_heads == 0,
                h == embed_dim / num_heads,
        ;
        Some(h)
    }
}

/// Number of coordinate pairs that rotary encoding turns for vectors of
/// length `dim`, or `None` when `dim` is odd.
pub fn rotary_pairs(dim: usize) -> (r: Option<usize>)
    ensures
        r is Some <==> dim % 2 == 0,
        r matches Some(p) ==> 2 * p == dim,
{
    if dim % 2 != 0 {
        None
    } else {
        Some(dim / 2)
    }
}

} // verus!

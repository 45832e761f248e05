//! Sizing of the flat cell-geometry buffer.
use vstd::prelude::*;

verus! {

/// Number of slots that each cell occupies in the geometry buffer.
pub const LAYOUT_STRIDE: usize = 16;

/// Length of a geometry buffer that holds `cell_count` cells.
pub fn buf_len(cell_count: usize) -> (r: usize)
    requires
        cell_count * LAYOUT_STRIDE <= usize::MAX,
    ensures
        r == cell_count * LAYOUT_STRIDE,
{
    cell_count * LAYOUT_STRIDE
}

} // verus!

//! Coordinate vectors: per-axis extents and grid positions, stored inline
//! for the usual small number of axes.
use vstd::prelude::*;

use smallvec::SmallVec;

verus! {

/// Number of axes stored without allocation.
pub const COORD_SMALLVEC_SIZE: usize = 6;

/// Per-axis extents of a dataset, or a position in its block grid.
#[verifier::external_body]
#[derive(Debug)]
pub struct GridCoord {
    v: SmallVec<[u64; COORD_SMALLVEC_SIZE]>,
}

/// Per-axis block extents, in voxels.
#[verifier::external_body]
#[derive(Debug)]
pub struct BlockCoord {
    v: SmallVec<[u32; COORD_SMALLVEC_SIZE]>,
}

/// The coordinates that a grid coordinate vector holds, in order.
pub uninterp spec fn grid_coords(v: GridCoord) -> Seq<u64>;

/// The extents that a block coordinate vector holds, in order.
pub uninterp spec fn block_coords(v: BlockCoord) -> Seq<u32>;

impl View for GridCoord {
    type V = Seq<u64>;

    open spec fn view(&self) -> Seq<u64> {
        grid_coords(*self)
    }
}

impl View for BlockCoord {
    type V = Seq<u32>;

    open spec fn view(&self) -> Seq<u32> {
        block_coords(*self)
    }
}

/// Relies on `SmallVec::from_slice`: a vector holding a copy of `s`.
#[verifier::external_body]
fn grid_from_slice(s: &[u64]) -> (r: GridCoord)
    ensures
        grid_coords(r) == s@,
{
    GridCoord { v: SmallVec::from_slice(s) }
}

/// Relies on `SmallVec::as_slice`: the elements, in order.
#[verifier::external_body]
fn grid_as_slice(c: &GridCoord) -> (r: &[u64])
    ensures
        r@ == grid_coords(*c),
{
    c.v.as_slice()
}

/// Relies on `SmallVec::from_slice`: a vector holding a copy of `s`.
#[verifier::external_body]
fn block_from_slice(s: &[u32]) -> (r: BlockCoord)
    ensures
        block_coords(r) == s@,
{
    BlockCoord { v: SmallVec::from_slice(s) }
}

/// Relies on `SmallVec::as_slice`: the elements, in order.
#[verifier::external_body]
fn block_as_slice(c: &BlockCoord) -> (r: &[u32])
    ensures
        r@ == block_coords(*c),
{
    c.v.as_slice()
}

impl GridCoord {
    /// The coordinates `s`, in order.
    pub fn from_slice(s: &[u64]) -> (r: GridCoord)
        ensures
            r@ == s@,
    {
        grid_from_slice(s)
    }

    /// The coordinates, in order.
    pub fn as_slice(&self) -> (r: &[u64])
        ensures
            r@ == self@,
    {
        grid_as_slice(self)
    }
}

impl BlockCoord {
    /// The extents `s`, in order.
    pub fn from_slice(s: &[u32]) -> (r: BlockCoord)
        ensures
            r@ == s@,
    {
        block_from_slice(s)
    }

    /// The extents, in order.
    pub fn as_slice(&self) -> (r: &[u32])
        ensures
            r@ == self@,
    {
        block_as_slice(self)
    }
}

} // verus!

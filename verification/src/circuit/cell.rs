//! Cells and the regions they lie in.

use crate::middleware::Any;
use crate::plonk::circuit::Column;
use vstd::prelude::*;

verus! {

/// Index of a region in a layouter.
#[derive(Clone, Copy, Debug, PartialEq, Eq, Structural, Hash)]
pub struct RegionIndex(pub usize);

/// Starting row of a region in a layouter.
#[derive(Clone, Copy, Debug, PartialEq, Eq, Structural, Hash)]
pub struct RegionStart(pub usize);

/// A pointer to a cell within a circuit: the region, the row within the
/// region, and the column.
#[derive(Clone, Copy, Debug, PartialEq, Eq)]
pub struct Cell {
    /// Identifies the region in which this cell resides.
    pub region_index: RegionIndex,
    /// The relative offset of this cell within its region.
    pub row_offset: usize,
    /// The column of this cell.
    pub column: Column<Any>,
}

} // verus!

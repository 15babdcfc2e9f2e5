//! Errors of synthesis.

use super::circuit::{Column, TableColumn};
use crate::middleware::Any;
use vstd::prelude::*;

verus! {

/// This is an error that could occur during table synthesis.
#[derive(Debug)]
pub enum TableError {
    /// A table column has not been assigned, or has an unassigned cell
    /// below its first unused row.
    ColumnNotAssigned(TableColumn),
    /// A table has columns of uneven lengths.
    UnevenColumnLengths((TableColumn, usize), (TableColumn, usize)),
    /// Attempt to assign a used table column.
    UsedColumn(TableColumn),
    /// Attempt to overwrite a default value.
    OverwriteDefault(TableColumn),
}

/// This is an error that could occur during synthesis.
#[derive(Debug)]
pub enum Error {
    /// This is an error that can occur during synthesis of the circuit, for
    /// example, when the witness is not present.
    Synthesis,
    /// Out of bounds index passed to a backend.
    BoundsFailure,
    /// `k` is too small for the given circuit.
    NotEnoughRowsAvailable {
        /// The current value of `k` being used.
        current_k: u32,
    },
    /// Instance provided exceeds number of available rows.
    InstanceTooLarge,
    /// Circuit synthesis requires global constants, but the circuit
    /// configuration did not call `ConstraintSystem::enable_constant` on
    /// fixed columns with sufficient space.
    NotEnoughColumnsForConstants,
    /// The instance sets up a copy constraint involving a column that has
    /// not been included in the permutation.
    ColumnNotInPermutation(Column<Any>),
    /// An error relating to a lookup table.
    TableError(TableError),
    /// Generic error not covered by previous cases.
    Other(String),
}

} // verus!

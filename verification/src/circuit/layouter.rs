//! The shape of a region: the columns it touches and the rows it spans.

use super::cell::{Cell, RegionIndex};
use super::value::Value;
use crate::middleware::{Advice, Any, Fixed, Instance};
use crate::plonk::circuit::{Column, Selector};
use crate::plonk::{Assigned, Error};
use vstd::prelude::*;
use vstd::std_specs::convert::FromSpecImpl;

verus! {

/// The virtual column involved in a region. This includes concrete columns,
/// as well as selectors that are not concrete columns at this stage.
#[derive(Clone, Copy, Debug, PartialEq, Eq)]
pub enum RegionColumn {
    /// Concrete column.
    Column(Column<Any>),
    /// Virtual column representing a (boolean) selector.
    Selector(Selector),
}

impl From<Column<Any>> for RegionColumn {
    fn from(column: Column<Any>) -> (r: RegionColumn) {
        RegionColumn::Column(column)
    }
}

impl FromSpecImpl<Column<Any>> for RegionColumn {
    open spec fn obeys_from_spec() -> bool {
        true
    }

    open spec fn from_spec(column: Column<Any>) -> Self {
        RegionColumn::Column(column)
    }
}

impl From<Selector> for RegionColumn {
    fn from(selector: Selector) -> (r: RegionColumn) {
        RegionColumn::Selector(selector)
    }
}

impl FromSpecImpl<Selector> for RegionColumn {
    open spec fn obeys_from_spec() -> bool {
        true
    }

    open spec fn from_spec(selector: Selector) -> Self {
        RegionColumn::Selector(selector)
    }
}

impl RegionColumn {
    /// Whether two region columns are the same.
    pub fn same(&self, other: &RegionColumn) -> (r: bool)
        ensures
            r == (*self == *other),
    {
        match (self, other) {
            (RegionColumn::Column(a), RegionColumn::Column(b)) => a.same(b),
            (RegionColumn::Selector(a), RegionColumn::Selector(b)) => *a == *b,
            _ => false,
        }
    }

    /// Whether this is an advice column.
    pub open spec fn spec_is_advice(&self) -> bool {
        *self matches RegionColumn::Column(c) && c.column_type is Advice
    }

    /// Whether this is an advice column.
    pub fn is_advice(&self) -> (r: bool)
        ensures
            r == self.spec_is_advice(),
    {
        match self {
            RegionColumn::Column(c) => match c.column_type {
                Any::Advice(_) => true,
                _ => false,
            },
            _ => false,
        }
    }
}

/// The larger of two row counts.
pub open spec fn spec_rows(a: usize, b: int) -> int {
    if a >= b {
        a as int
    } else {
        b
    }
}

/// The columns after `column` was touched: `column` is appended unless it
/// was touched before.
pub open spec fn spec_touched(columns: Seq<RegionColumn>, column: RegionColumn) -> Seq<RegionColumn> {
    if columns.contains(column) {
        columns
    } else {
        columns.push(column)
    }
}

/// Intermediate struct that measures the shape of a region: the columns
/// that were written to, each once, and one more than the largest row
/// offset that was written to.
#[derive(Debug)]
pub struct RegionShape {
    pub region_index: RegionIndex,
    pub columns: Vec<RegionColumn>,
    pub row_count: usize,
}

impl RegionShape {
    /// Create a new `RegionShape` for a region at `region_index`.
    pub fn new(region_index: RegionIndex) -> (r: Self)
        ensures
            r.region_index == region_index,
            r.columns@.len() == 0,
            r.row_count == 0,
    {
        RegionShape { region_index, columns: Vec::new(), row_count: 0 }
    }

    /// Get the `region_index` of a `RegionShape`.
    pub fn region_index(&self) -> (r: RegionIndex)
        ensures
            r == self.region_index,
    {
        self.region_index
    }

    /// Get a reference to the set of `columns` used in a `RegionShape`.
    pub fn columns(&self) -> (r: &Vec<RegionColumn>)
        ensures
            *r == self.columns,
    {
        &self.columns
    }

    /// Get the `row_count` of a `RegionShape`.
    pub fn row_count(&self) -> (r: usize)
        ensures
            r == self.row_count,
    {
        self.row_count
    }

    /// Whether `column` is one of the columns of the shape.
    pub fn touches(&self, column: &RegionColumn) -> (r: bool)
        ensures
            r == self.columns@.contains(*column),
    {
        let mut i: usize = 0;
        while i < self.columns.len()
            invariant
                i <= self.columns.len(),
                forall|j: int| 0 <= j < i ==> self.columns@[j] != *column,
            decreases self.columns.len() - i,
        {
            if self.columns[i].same(column) {
                return true;
            }
            i += 1;
        }
        false
    }

    /// Whether `after` is the shape `self` after a write to `column` at
    /// the row `offset`.
    pub open spec fn spec_written(&self, after: &Self, column: RegionColumn, offset: usize) -> bool {
        &&& after.region_index == self.region_index
        &&& after.columns@ == spec_touched(self.columns@, column)
        &&& after.row_count == spec_rows(self.row_count, offset + 1)
    }

    /// Records a write to `column` at the row `offset`.
    pub fn write(&mut self, column: RegionColumn, offset: usize)
        requires
            offset < usize::MAX,
        ensures
            old(self).spec_written(final(self), column, offset),
            old(self).columns@.no_duplicates() ==> final(self).columns@.no_duplicates(),
    {
        if !self.touches(&column) {
            self.columns.push(column);
        }
        if offset + 1 > self.row_count {
            self.row_count = offset + 1;
        }
    }

    /// Enable a selector at `offset`: the selector and the row are
    /// recorded.
    pub fn enable_selector(&mut self, annotation: &str, selector: &Selector, offset: usize) -> (r:
        Result<(), Error>)
        requires
            offset < usize::MAX,
        ensures
            r is Ok,
            old(self).spec_written(final(self), RegionColumn::Selector(*selector), offset),
            old(self).columns@.no_duplicates() ==> final(self).columns@.no_duplicates(),
    {
        // Track the selector's fixed column as part of the region's shape.
        self.write(RegionColumn::Selector(*selector), offset);
        Ok(())
    }

    /// Assign an advice column value: the column and the row are recorded.
    pub fn assign_advice<F>(
        &mut self,
        annotation: &str,
        column: Column<Advice>,
        offset: usize,
        to: Value<Assigned<F>>,
    ) -> (r: Result<Cell, Error>)
        requires
            offset < usize::MAX,
        ensures
            r matches Ok(cell) && cell == (Cell {
                region_index: old(self).region_index,
                row_offset: offset,
                column: column.spec_any(),
            }),
            old(self).spec_written(final(self), RegionColumn::Column(column.spec_any()), offset),
            old(self).columns@.no_duplicates() ==> final(self).columns@.no_duplicates(),
    {
        let any = Column { index: column.index, column_type: Any::Advice(column.column_type) };
        self.write(RegionColumn::Column(any), offset);
        Ok(Cell { region_index: self.region_index, row_offset: offset, column: any })
    }

    /// Assign the value of a constant to an advice cell: the column and the
    /// row are recorded.
    pub fn assign_advice_from_constant<F>(
        &mut self,
        annotation: &str,
        column: Column<Advice>,
        offset: usize,
        constant: Assigned<F>,
    ) -> (r: Result<Cell, Error>)
        requires
            offset < usize::MAX,
        ensures
            r matches Ok(cell) && cell == (Cell {
                region_index: old(self).region_index,
                row_offset: offset,
                column: column.spec_any(),
            }),
            old(self).spec_written(final(self), RegionColumn::Column(column.spec_any()), offset),
            old(self).columns@.no_duplicates() ==> final(self).columns@.no_duplicates(),
    {
        // Global constants don't affect the region shape: the rest is
        // identical to witnessing an advice cell.
        self.assign_advice(annotation, column, offset, Value::known(constant))
    }

    /// Assign the value of an instance cell to an advice cell: the advice
    /// column and the row are recorded, and the value is unknown.
    pub fn assign_advice_from_instance<F>(
        &mut self,
        annotation: &str,
        instance: Column<Instance>,
        row: usize,
        advice: Column<Advice>,
        offset: usize,
    ) -> (r: Result<(Cell, Value<F>), Error>)
        requires
            offset < usize::MAX,
        ensures
            r matches Ok(pair) && pair.0 == (Cell {
                region_index: old(self).region_index,
                row_offset: offset,
                column: advice.spec_any(),
            }) && pair.1.inner.is_none(),
            old(self).spec_written(final(self), RegionColumn::Column(advice.spec_any()), offset),
            old(self).columns@.no_duplicates() ==> final(self).columns@.no_duplicates(),
    {
        let any = Column { index: advice.index, column_type: Any::Advice(advice.column_type) };
        self.write(RegionColumn::Column(any), offset);
        Ok((Cell { region_index: self.region_index, row_offset: offset, column: any }, Value::unknown()))
    }

    /// The value of an instance cell, which is unknown while a shape is
    /// measured.
    pub fn instance_value<F>(&mut self, instance: Column<Instance>, row: usize) -> (r: Result<
        Value<F>,
        Error,
    >)
        ensures
            r matches Ok(value) && value.inner.is_none(),
            *final(self) == *old(self),
    {
        Ok(Value::unknown())
    }

    /// Assign a fixed value: the column and the row are recorded.
    pub fn assign_fixed<F>(
        &mut self,
        annotation: &str,
        column: Column<Fixed>,
        offset: usize,
        to: Value<Assigned<F>>,
    ) -> (r: Result<Cell, Error>)
        requires
            offset < usize::MAX,
        ensures
            r matches Ok(cell) && cell == (Cell {
                region_index: old(self).region_index,
                row_offset: offset,
                column: column.spec_any(),
            }),
            old(self).spec_written(final(self), RegionColumn::Column(column.spec_any()), offset),
            old(self).columns@.no_duplicates() ==> final(self).columns@.no_duplicates(),
    {
        let any = Column { index: column.index, column_type: Any::Fixed };
        self.write(RegionColumn::Column(any), offset);
        Ok(Cell { region_index: self.region_index, row_offset: offset, column: any })
    }

    /// Constrain a cell to have a constant value, which does not change
    /// the shape.
    pub fn constrain_constant<F>(&mut self, cell: Cell, constant: Assigned<F>) -> (r: Result<
        (),
        Error,
    >)
        ensures
            r is Ok,
            *final(self) == *old(self),
    {
        // Global constants don't affect the region shape.
        Ok(())
    }

    /// Name a column, which does not change the shape.
    pub fn name_column(&mut self, annotation: &str, column: Column<Any>)
        ensures
            *final(self) == *old(self),
    {
    }

    /// Constrain two cells to have the same value, which does not change
    /// the shape.
    pub fn constrain_equal(&mut self, left: Cell, right: Cell) -> (r: Result<(), Error>)
        ensures
            r is Ok,
            *final(self) == *old(self),
    {
        // Equality constraints don't affect the region shape.
        Ok(())
    }
}

} // verus!

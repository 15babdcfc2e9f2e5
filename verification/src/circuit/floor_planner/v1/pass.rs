//! The two passes of the floor planner: measuring the regions, and
//! assigning them.

use super::layouter::{lemma_begins_add, lemma_begins_transitive};
use super::plan::{V1Plan, V1Region};
use crate::circuit::cell::{Cell, RegionIndex, RegionStart};
use crate::circuit::layouter::{RegionColumn, RegionShape};
use crate::circuit::table_layouter::{
    compute_table_lengths, spec_table_checked, SimpleTableLayouter, TableEntry,
};
use crate::circuit::value::Value;
use crate::middleware::{Advice, Any, Fixed, Instance};
use crate::plonk::circuit::{Challenge, Column, Selector, TableColumn};
use crate::plonk::{
    lemma_answer_itself, spec_answer, spec_until_failure, Assigned, Assignment, Error, SinkCall,
};
use vstd::prelude::*;

verus! {

/// The handle through which the cells of a region are written: while
/// a circuit is measured it records the shape of the region, and while
/// a circuit is assigned it writes to the sink.
pub enum Region<F, CS: Assignment<F>> {
    /// The shape of a region that is measured.
    Measure(RegionShape),
    /// A region that is assigned.
    Assign(V1Region<F, CS>),
}

/// The cell that a call on the sink writes to, if it writes to one cell.
pub open spec fn spec_target<F>(call: SinkCall<F>) -> Option<(RegionColumn, usize)> {
    match call {
        SinkCall::EnableSelector(_, selector, row) => Some((RegionColumn::Selector(selector), row)),
        SinkCall::AssignAdvice(_, column, row, _) => Some(
            (RegionColumn::Column(column.spec_any()), row),
        ),
        SinkCall::AssignFixed(_, column, row, _) => Some(
            (RegionColumn::Column(column.spec_any()), row),
        ),
        _ => None,
    }
}

/// Whether `calls` write to no cell but the one at `row` in `column`.
pub open spec fn spec_writes_only<F>(
    calls: Seq<SinkCall<F>>,
    column: RegionColumn,
    row: usize,
) -> bool {
    forall|k: int|
        0 <= k < calls.len() ==> (spec_target(#[trigger] calls[k]) matches Some(cell) ==> cell == (
            column,
            row,
        ))
}

/// Whether one of `calls` writes to the cell at `row` in `column`.
pub open spec fn spec_writes_to<F>(calls: Seq<SinkCall<F>>, column: RegionColumn, row: usize) -> bool {
    exists|k: int| 0 <= k < calls.len() && spec_target(#[trigger] calls[k]) == Some((column, row))
}

/// Whether none of `calls` writes to a cell.
pub open spec fn spec_writes_none<F>(calls: Seq<SinkCall<F>>) -> bool {
    forall|k: int| 0 <= k < calls.len() ==> spec_target(#[trigger] calls[k]) is None
}

impl<F: Copy, CS: Assignment<F>> Region<F, CS> {
    /// Whether a cell can be written at `offset`: the row is a number of
    /// the machine.
    pub open spec fn spec_has_row(&self, offset: usize) -> bool {
        match self {
            Region::Measure(_) => offset < usize::MAX,
            Region::Assign(region) => region.spec_has_row(offset),
        }
    }

    /// Whether `after` is the handle `self` after a write to `column` at
    /// `offset` that made the calls `calls` on the sink.
    pub open spec fn spec_written(
        &self,
        after: &Self,
        column: RegionColumn,
        offset: usize,
        calls: Seq<SinkCall<F>>,
    ) -> bool {
        match (self, after) {
            (Region::Measure(before), Region::Measure(shape)) => before.spec_written(
                shape,
                column,
                offset,
            ),
            (Region::Assign(before), Region::Assign(region)) => before.spec_called(region, calls),
            _ => false,
        }
    }

    /// Whether `after` is the handle `self` after the cell at `offset` in
    /// `column` was written: while a circuit is measured the shape has
    /// the cell; while a circuit is assigned the calls that were made on
    /// the sink write to no other cell than the one at `offset` in the
    /// region, and, if the write was `done`, one of them writes to it.
    pub open spec fn spec_wrote(
        &self,
        after: &Self,
        column: RegionColumn,
        offset: usize,
        done: bool,
    ) -> bool {
        match (self, after) {
            (Region::Measure(before), Region::Measure(shape)) => before.spec_written(
                shape,
                column,
                offset,
            ),
            (Region::Assign(before), Region::Assign(region)) => {
                &&& region.region_index == before.region_index
                &&& region.plan.regions == before.plan.regions
                &&& exists|calls: Seq<SinkCall<F>>|
                    {
                        &&& region.plan.cs.calls() == before.plan.cs.calls() + calls
                        &&& #[trigger] spec_writes_only(calls, column, before.spec_row(offset))
                        &&& done ==> spec_writes_to(calls, column, before.spec_row(offset))
                    }
            },
            _ => false,
        }
    }

    /// Whether `after` is the handle `self` after something that wrote to
    /// no cell: while a circuit is measured the shape is as it was; while
    /// a circuit is assigned the calls that were made on the sink write to
    /// no cell.
    pub open spec fn spec_wrote_nothing(&self, after: &Self) -> bool {
        match (self, after) {
            (Region::Measure(before), Region::Measure(shape)) => shape == before,
            (Region::Assign(before), Region::Assign(region)) => {
                &&& region.region_index == before.region_index
                &&& region.plan.regions == before.plan.regions
                &&& exists|calls: Seq<SinkCall<F>>|
                    {
                        &&& region.plan.cs.calls() == before.plan.cs.calls() + calls
                        &&& #[trigger] spec_writes_none(calls)
                    }
            },
            _ => false,
        }
    }

    /// Whether `answers` are what the sink answered to the calls that
    /// were made on it between `self` and `after`. While a circuit is
    /// measured there is no sink.
    pub open spec fn spec_answered(&self, after: &Self, answers: Seq<Result<(), Error>>) -> bool {
        match (self, after) {
            (Region::Measure(_), Region::Measure(_)) => true,
            (Region::Assign(before), Region::Assign(region)) => before.plan.spec_answered(
                &region.plan,
                answers,
            ),
            _ => false,
        }
    }

    /// Whether the handle is in order: the shape of a region that is
    /// measured lists no column twice, and every cell that the plan of
    /// a region that is assigned is to constrain to a constant lies in
    /// a region of the plan.
    pub open spec fn spec_in_order(&self) -> bool {
        match self {
            Region::Measure(shape) => shape.columns@.no_duplicates(),
            Region::Assign(region) => region.plan.spec_constants_placed(),
        }
    }

    /// Whether `after` is a later state of the handle `self`: the same kind
    /// of handle for the same region, and the plan of a region that is
    /// assigned is a later state of the plan.
    pub open spec fn spec_continued(&self, after: &Self) -> bool {
        match (self, after) {
            (Region::Measure(before), Region::Measure(shape)) => shape.region_index
                == before.region_index,
            (Region::Assign(before), Region::Assign(region)) => before.plan.spec_continued(
                &region.plan,
            ) && region.region_index == before.region_index,
            _ => false,
        }
    }

    /// Whether `cell` can be constrained through the handle: while
    /// a circuit is assigned, the cell lies in a region of the plan at a row
    /// that is a number of the machine.
    pub open spec fn spec_has_cell(&self, cell: Cell) -> bool {
        *self matches Region::Assign(region) ==> region.plan.spec_has_cell(cell)
    }

    /// A later state of a later state of a handle is a later state of the
    /// handle.
    pub proof fn lemma_continued_transitive(&self, mid: &Self, after: &Self)
        requires
            self.spec_continued(mid),
            mid.spec_continued(after),
        ensures
            self.spec_continued(after),
    {
        if let (Region::Assign(a), Region::Assign(b), Region::Assign(c)) = (*self, *mid, *after) {
            lemma_begins_transitive(a.plan.cs.calls(), b.plan.cs.calls(), c.plan.cs.calls());
            lemma_begins_transitive(a.plan.constants@, b.plan.constants@, c.plan.constants@);
            lemma_begins_transitive(
                a.plan.table_columns@,
                b.plan.table_columns@,
                c.plan.table_columns@,
            );
        }
    }

    /// A handle is a later state of itself.
    pub proof fn lemma_continued_itself(&self)
        ensures
            self.spec_continued(self),
    {
        if let Region::Assign(a) = *self {
            a.plan.lemma_called_continues(&a.plan, Seq::empty());
        }
    }

    /// The index of the region.
    pub open spec fn spec_region_index(&self) -> RegionIndex {
        match self {
            Region::Measure(shape) => shape.region_index,
            Region::Assign(region) => region.region_index,
        }
    }

    /// The row of the circuit at `offset` in the region, as far as it is
    /// known: a region that is measured has no place yet.
    pub open spec fn spec_row(&self, offset: usize) -> usize {
        match self {
            Region::Measure(_) => offset,
            Region::Assign(region) => region.spec_row(offset),
        }
    }

    /// Enables a selector at `offset` in the region.
    pub fn enable_selector(&mut self, annotation: &str, selector: &Selector, offset: usize) -> (r:
        Result<(), Error>)
        requires
            old(self).spec_has_row(offset),
        ensures
            old(self).spec_written(
                final(self),
                RegionColumn::Selector(*selector),
                offset,
                seq![SinkCall::EnableSelector(annotation@, *selector, old(self).spec_row(offset))],
            ),
            old(self).spec_wrote(final(self), RegionColumn::Selector(*selector), offset, true),
            old(self).spec_answered(final(self), seq![r]),
            old(self).spec_continued(final(self)),
            old(self).spec_in_order() ==> final(self).spec_in_order(),
            *old(self) is Measure ==> r is Ok,
    {
        let r = match self {
            Region::Measure(shape) => shape.enable_selector(annotation, selector, offset),
            Region::Assign(region) => region.enable_selector(annotation, selector, offset),
        };
        proof {
            old(self).lemma_written_in_order(
                self,
                RegionColumn::Selector(*selector),
                offset,
                seq![SinkCall::EnableSelector(annotation@, *selector, old(self).spec_row(offset))],
            );
            old(self).lemma_written_wrote(
                self,
                RegionColumn::Selector(*selector),
                offset,
                seq![SinkCall::EnableSelector(annotation@, *selector, old(self).spec_row(offset))],
            );
        }
        r
    }

    /// Assigns `to` to the advice cell at `offset` in `column`, and returns
    /// the cell.
    pub fn assign_advice(
        &mut self,
        annotation: &str,
        column: Column<Advice>,
        offset: usize,
        to: Value<Assigned<F>>,
    ) -> (r: Result<Cell, Error>)
        requires
            old(self).spec_has_row(offset),
        ensures
            old(self).spec_written(
                final(self),
                RegionColumn::Column(column.spec_any()),
                offset,
                seq![SinkCall::AssignAdvice(annotation@, column, old(self).spec_row(offset), to)],
            ),
            old(self).spec_wrote(final(self), RegionColumn::Column(column.spec_any()), offset, true),
            old(self).spec_answered(final(self), seq![spec_answer(r)]),
            r matches Ok(cell) ==> cell == (Cell {
                region_index: old(self).spec_region_index(),
                row_offset: offset,
                column: column.spec_any(),
            }),
            old(self).spec_continued(final(self)),
            old(self).spec_in_order() ==> final(self).spec_in_order(),
            *old(self) is Measure ==> r is Ok,
    {
        let r = match self {
            Region::Measure(shape) => shape.assign_advice(annotation, column, offset, to),
            Region::Assign(region) => region.assign_advice(annotation, column, offset, to),
        };
        proof {
            old(self).lemma_written_in_order(
                self,
                RegionColumn::Column(column.spec_any()),
                offset,
                seq![SinkCall::AssignAdvice(annotation@, column, old(self).spec_row(offset), to)],
            );
            old(self).lemma_written_wrote(
                self,
                RegionColumn::Column(column.spec_any()),
                offset,
                seq![SinkCall::AssignAdvice(annotation@, column, old(self).spec_row(offset), to)],
            );
        }
        r
    }

    /// Assigns `to` to the fixed cell at `offset` in `column`, and returns
    /// the cell.
    pub fn assign_fixed(
        &mut self,
        annotation: &str,
        column: Column<Fixed>,
        offset: usize,
        to: Value<Assigned<F>>,
    ) -> (r: Result<Cell, Error>)
        requires
            old(self).spec_has_row(offset),
        ensures
            old(self).spec_written(
                final(self),
                RegionColumn::Column(column.spec_any()),
                offset,
                seq![SinkCall::AssignFixed(annotation@, column, old(self).spec_row(offset), to)],
            ),
            old(self).spec_wrote(final(self), RegionColumn::Column(column.spec_any()), offset, true),
            old(self).spec_answered(final(self), seq![spec_answer(r)]),
            r matches Ok(cell) ==> cell == (Cell {
                region_index: old(self).spec_region_index(),
                row_offset: offset,
                column: column.spec_any(),
            }),
            old(self).spec_continued(final(self)),
            old(self).spec_in_order() ==> final(self).spec_in_order(),
            *old(self) is Measure ==> r is Ok,
    {
        let r = match self {
            Region::Measure(shape) => shape.assign_fixed(annotation, column, offset, to),
            Region::Assign(region) => region.assign_fixed(annotation, column, offset, to),
        };
        proof {
            old(self).lemma_written_in_order(
                self,
                RegionColumn::Column(column.spec_any()),
                offset,
                seq![SinkCall::AssignFixed(annotation@, column, old(self).spec_row(offset), to)],
            );
            old(self).lemma_written_wrote(
                self,
                RegionColumn::Column(column.spec_any()),
                offset,
                seq![SinkCall::AssignFixed(annotation@, column, old(self).spec_row(offset), to)],
            );
        }
        r
    }

    /// Assigns the constant `constant` to the advice cell at `offset` in
    /// `column`, and records that the cell is to be constrained to the
    /// constant. Returns the cell.
    pub fn assign_advice_from_constant(
        &mut self,
        annotation: &str,
        column: Column<Advice>,
        offset: usize,
        constant: Assigned<F>,
    ) -> (r: Result<Cell, Error>)
        requires
            old(self).spec_has_row(offset),
        ensures
            r matches Ok(cell) ==> cell == (Cell {
                region_index: old(self).spec_region_index(),
                row_offset: offset,
                column: column.spec_any(),
            }),
            *old(self) matches Region::Measure(before) ==> (r is Ok && (
            *final(self) matches Region::Measure(shape) && before.spec_written(
                &shape,
                RegionColumn::Column(column.spec_any()),
                offset,
            ))),
            *old(self) matches Region::Assign(before) ==> (*final(self) matches Region::Assign(region) && {
                &&& region.plan.cs.calls() == before.plan.cs.calls() + seq![
                    SinkCall::AssignAdvice(
                        annotation@,
                        column,
                        before.spec_row(offset),
                        (Value { inner: Some(constant) }),
                    ),
                ]
                &&& region.plan.regions == before.plan.regions
                &&& region.plan.table_columns == before.plan.table_columns
                &&& region.region_index == before.region_index
                &&& r matches Ok(cell) ==> region.plan.constants@ == before.plan.constants@.push(
                    (constant, cell),
                )
                &&& r is Err ==> region.plan.constants == before.plan.constants
            }),
            old(self).spec_wrote(final(self), RegionColumn::Column(column.spec_any()), offset, true),
            old(self).spec_answered(final(self), seq![spec_answer(r)]),
            old(self).spec_continued(final(self)),
            old(self).spec_in_order() ==> final(self).spec_in_order(),
    {
        let r = match self {
            Region::Measure(shape) => shape.assign_advice_from_constant(
                annotation,
                column,
                offset,
                constant,
            ),
            Region::Assign(region) => region.assign_advice_from_constant(
                annotation,
                column,
                offset,
                constant,
            ),
        };
        proof {
            if *old(self) is Assign {
                let calls = seq![
                    SinkCall::AssignAdvice(
                        annotation@,
                        column,
                        old(self).spec_row(offset),
                        (Value { inner: Some(constant) }),
                    ),
                ];
                lemma_one_call(calls, RegionColumn::Column(column.spec_any()), old(self).spec_row(offset));
                if r is Ok {
                    assert(self->Assign_0.plan.constants@.drop_last() =~= old(
                        self,
                    )->Assign_0.plan.constants@);
                }
                old(self).lemma_recorded_in_order(self, calls);
            } else {
                old(self).lemma_measured_in_order(self, RegionColumn::Column(column.spec_any()), offset);
            }
        }
        r
    }

    /// Records that `cell` is to be constrained to `constant`. While
    /// a circuit is measured, nothing is recorded.
    pub fn constrain_constant(&mut self, cell: Cell, constant: Assigned<F>) -> (r: Result<
        (),
        Error,
    >)
        ensures
            r is Ok,
            *old(self) is Measure ==> *final(self) == *old(self),
            *old(self) matches Region::Assign(before) ==> (*final(self) matches Region::Assign(region)
                && region.plan.constants@ == before.plan.constants@.push((constant, cell))
                && region == (V1Region {
                plan: V1Plan { constants: region.plan.constants, ..before.plan },
                ..before
            })),
            old(self).spec_wrote_nothing(final(self)),
            old(self).spec_answered(final(self), Seq::empty()),
            old(self).spec_continued(final(self)),
            old(self).spec_in_order() && old(self).spec_has_cell(cell) ==> final(self).spec_in_order(),
    {
        let r = match self {
            Region::Measure(shape) => shape.constrain_constant(cell, constant),
            Region::Assign(region) => region.constrain_constant(cell, constant),
        };
        proof {
            old(self).lemma_called_nothing(self, Seq::empty());
            if let Region::Assign(before) = *old(self) {
                assert(before.plan.cs.answers() + Seq::empty() =~= before.plan.cs.answers());
                assert(before.plan.cs.calls() + Seq::empty() =~= before.plan.cs.calls());
                assert(self->Assign_0.plan.constants@.drop_last() =~= before.plan.constants@);
                old(self).lemma_recorded_in_order(self, Seq::empty());
            }
        }
        r
    }

    /// Constrains the cells `left` and `right` to be equal. While a circuit
    /// is measured, nothing is constrained.
    pub fn constrain_equal(&mut self, left: Cell, right: Cell) -> (r: Result<(), Error>)
        requires
            *old(self) matches Region::Assign(region) ==> (region.plan.spec_has_cell(left)
                && region.plan.spec_has_cell(right)),
        ensures
            *old(self) is Measure ==> r is Ok && *final(self) == *old(self),
            *old(self) matches Region::Assign(before) ==> (*final(self) matches Region::Assign(region)
                && before.spec_called(
                &region,
                seq![
                    SinkCall::Copy(
                        left.column,
                        before.plan.spec_row(left),
                        right.column,
                        before.plan.spec_row(right),
                    ),
                ],
            )),
            old(self).spec_wrote_nothing(final(self)),
            old(self).spec_answered(final(self), seq![r]),
            old(self).spec_continued(final(self)),
            old(self).spec_in_order() ==> final(self).spec_in_order(),
    {
        let r = match self {
            Region::Measure(shape) => shape.constrain_equal(left, right),
            Region::Assign(region) => region.constrain_equal(left, right),
        };
        proof {
            if let Region::Assign(before) = *old(self) {
                old(self).lemma_called_nothing(
                    self,
                    seq![
                        SinkCall::Copy(
                            left.column,
                            before.plan.spec_row(left),
                            right.column,
                            before.plan.spec_row(right),
                        ),
                    ],
                );
                old(self).lemma_recorded_in_order(
                    self,
                    seq![
                        SinkCall::Copy(
                            left.column,
                            before.plan.spec_row(left),
                            right.column,
                            before.plan.spec_row(right),
                        ),
                    ],
                );
            }
        }
        r
    }

    /// Annotates `column`. While a circuit is measured, nothing is
    /// annotated.
    pub fn name_column(&mut self, annotation: &str, column: Column<Any>)
        ensures
            *old(self) is Measure ==> *final(self) == *old(self),
            *old(self) matches Region::Assign(before) ==> (*final(self) matches Region::Assign(region)
                && before.spec_called(&region, seq![SinkCall::AnnotateColumn(annotation@, column)])),
            old(self).spec_wrote_nothing(final(self)),
            old(self).spec_answered(final(self), seq![Ok(())]),
            old(self).spec_continued(final(self)),
            old(self).spec_in_order() ==> final(self).spec_in_order(),
    {
        match self {
            Region::Measure(shape) => shape.name_column(annotation, column),
            Region::Assign(region) => region.name_column(annotation, column),
        }
        proof {
            old(self).lemma_called_nothing(
                self,
                seq![SinkCall::AnnotateColumn(annotation@, column)],
            );
            if *old(self) is Assign {
                old(self).lemma_recorded_in_order(
                    self,
                    seq![SinkCall::AnnotateColumn(annotation@, column)],
                );
            }
        }
    }

    /// The value of the instance cell at `row` in `instance`: unknown while
    /// a circuit is measured, and as the sink gives it while a circuit is
    /// assigned.
    pub fn instance_value(&mut self, instance: Column<Instance>, row: usize) -> (r: Result<
        Value<F>,
        Error,
    >)
        ensures
            *final(self) == *old(self),
            old(self).spec_wrote_nothing(final(self)),
            old(self).spec_continued(final(self)),
            *old(self) is Measure ==> (r matches Ok(value) && value.inner.is_none()),
            *old(self) matches Region::Assign(region) ==> r == region.plan.cs.spec_instance(
                instance,
                row,
            ),
    {
        let r = match self {
            Region::Measure(shape) => shape.instance_value(instance, row),
            Region::Assign(region) => region.instance_value(instance, row),
        };
        proof {
            old(self).lemma_called_nothing(self, Seq::empty());
            old(self).lemma_continued_itself();
        }
        r
    }

    /// Assigns the value of the instance cell at `row` in `instance` to the
    /// advice cell at `offset` in `advice`, and constrains the two cells to
    /// be equal. Returns the advice cell and the value, which is unknown
    /// while a circuit is measured.
    pub fn assign_advice_from_instance(
        &mut self,
        annotation: &str,
        instance: Column<Instance>,
        row: usize,
        advice: Column<Advice>,
        offset: usize,
    ) -> (r: Result<(Cell, Value<F>), Error>)
        requires
            old(self).spec_has_row(offset),
        ensures
            r matches Ok(pair) ==> pair.0 == (Cell {
                region_index: old(self).spec_region_index(),
                row_offset: offset,
                column: advice.spec_any(),
            }),
            *old(self) matches Region::Measure(before) ==> (r matches Ok(pair)
                && pair.1.inner.is_none() && (*final(self) matches Region::Measure(shape)
                && before.spec_written(&shape, RegionColumn::Column(advice.spec_any()), offset))),
            *old(self) matches Region::Assign(before) ==> (*final(self) matches Region::Assign(region)
                && before.spec_from_instance(
                &region,
                annotation@,
                instance,
                row,
                advice,
                offset,
                r,
            )),
            old(self).spec_wrote(
                final(self),
                RegionColumn::Column(advice.spec_any()),
                offset,
                r is Ok,
            ),
            old(self).spec_continued(final(self)),
            old(self).spec_in_order() ==> final(self).spec_in_order(),
    {
        let r = match self {
            Region::Measure(shape) => shape.assign_advice_from_instance(
                annotation,
                instance,
                row,
                advice,
                offset,
            ),
            Region::Assign(region) => region.assign_advice_from_instance(
                annotation,
                instance,
                row,
                advice,
                offset,
            ),
        };
        proof {
            if let Region::Assign(before) = *old(self) {
                let column = RegionColumn::Column(advice.spec_any());
                let at = before.spec_row(offset);
                let none = Seq::<SinkCall<F>>::empty();
                match before.plan.cs.spec_instance(instance, row) {
                    Err(e) => {
                        assert(self->Assign_0.plan.cs.calls() =~= before.plan.cs.calls() + none);
                        assert(spec_writes_only(none, column, at));
                        old(self).lemma_recorded_in_order(self, none);
                    },
                    Ok(value) => {
                        let calls = before.spec_instance_calls(
                            annotation@,
                            instance,
                            row,
                            advice,
                            offset,
                            V1Region::<F, CS>::spec_to_field(value),
                        );
                        assert(spec_target(calls[0]) == Some((column, at)));
                        assert(spec_target(calls.take(1)[0]) == Some((column, at)));
                        assert(spec_writes_only(calls, column, at));
                        assert(spec_writes_only(calls.take(1), column, at));
                        if before.spec_called(&self->Assign_0, calls) {
                            old(self).lemma_recorded_in_order(self, calls);
                        } else {
                            old(self).lemma_recorded_in_order(self, calls.take(1));
                        }
                    },
                }
            } else {
                old(self).lemma_measured_in_order(self, RegionColumn::Column(advice.spec_any()), offset);
            }
        }
        r
    }

    /// Whether a cell can be written at `offset`: the row is a number of
    /// the machine.
    pub fn has_row(&self, offset: usize) -> (r: bool)
        ensures
            r == self.spec_has_row(offset),
    {
        match self {
            Region::Measure(_) => offset < usize::MAX,
            Region::Assign(region) => region.has_row(offset),
        }
    }

    /// Whether `cell` can be constrained through the handle.
    pub fn has_cell(&self, cell: Cell) -> (r: bool)
        ensures
            r == self.spec_has_cell(cell),
    {
        match self {
            Region::Measure(_) => true,
            Region::Assign(region) => region.plan.has_cell(&cell),
        }
    }

    /// Enables a selector at `offset` in the region, if the region has a row
    /// there; else nothing is done.
    pub fn checked_enable_selector(&mut self, annotation: &str, selector: &Selector, offset: usize) -> (r: Option<Result<(), Error>>)
        ensures
            r is Some <==> old(self).spec_has_row(offset),
            r is None ==> *final(self) == *old(self),
            r matches Some(given) ==> (old(self).spec_written(
                final(self),
                RegionColumn::Selector(*selector),
                offset,
                seq![SinkCall::EnableSelector(annotation@, *selector, old(self).spec_row(offset))],
            )),
            r matches Some(given) ==> (old(self).spec_wrote(final(self), RegionColumn::Selector(*selector), offset, true)),
            r matches Some(given) ==> (old(self).spec_answered(final(self), seq![given])),
            old(self).spec_continued(final(self)),
            old(self).spec_in_order() ==> final(self).spec_in_order(),
            r matches Some(given) ==> (*old(self) is Measure ==> given is Ok),
    {
        if self.has_row(offset) {
            Some(self.enable_selector(annotation, selector, offset))
        } else {
            proof {
                self.lemma_continued_itself();
            }
            None
        }
    }

    /// Assigns `to` to the advice cell at `offset` in `column`, if the region
    /// has a row there; else nothing is done.
    pub fn checked_assign_advice(
        &mut self,
        annotation: &str,
        column: Column<Advice>,
        offset: usize,
        to: Value<Assigned<F>>,
    ) -> (r: Option<Result<Cell, Error>>)
        ensures
            r is Some <==> old(self).spec_has_row(offset),
            r is None ==> *final(self) == *old(self),
            r matches Some(given) ==> (old(self).spec_written(
                final(self),
                RegionColumn::Column(column.spec_any()),
                offset,
                seq![SinkCall::AssignAdvice(annotation@, column, old(self).spec_row(offset), to)],
            )),
            r matches Some(given) ==> (old(self).spec_wrote(final(self), RegionColumn::Column(column.spec_any()), offset, true)),
            r matches Some(given) ==> (old(self).spec_answered(final(self), seq![spec_answer(given)])),
            r matches Some(given) ==> (given matches Ok(cell) ==> cell == (Cell {
                region_index: old(self).spec_region_index(),
                row_offset: offset,
                column: column.spec_any(),
            })),
            old(self).spec_continued(final(self)),
            old(self).spec_in_order() ==> final(self).spec_in_order(),
            r matches Some(given) ==> (*old(self) is Measure ==> given is Ok),
    {
        if self.has_row(offset) {
            Some(self.assign_advice(annotation, column, offset, to))
        } else {
            proof {
                self.lemma_continued_itself();
            }
            None
        }
    }

    /// Assigns `to` to the fixed cell at `offset` in `column`, if the region
    /// has a row there; else nothing is done.
    pub fn checked_assign_fixed(
        &mut self,
        annotation: &str,
        column: Column<Fixed>,
        offset: usize,
        to: Value<Assigned<F>>,
    ) -> (r: Option<Result<Cell, Error>>)
        ensures
            r is Some <==> old(self).spec_has_row(offset),
            r is None ==> *final(self) == *old(self),
            r matches Some(given) ==> (old(self).spec_written(
                final(self),
                RegionColumn::Column(column.spec_any()),
                offset,
                seq![SinkCall::AssignFixed(annotation@, column, old(self).spec_row(offset), to)],
            )),
            r matches Some(given) ==> (old(self).spec_wrote(final(self), RegionColumn::Column(column.spec_any()), offset, true)),
            r matches Some(given) ==> (old(self).spec_answered(final(self), seq![spec_answer(given)])),
            r matches Some(given) ==> (given matches Ok(cell) ==> cell == (Cell {
                region_index: old(self).spec_region_index(),
                row_offset: offset,
                column: column.spec_any(),
            })),
            old(self).spec_continued(final(self)),
            old(self).spec_in_order() ==> final(self).spec_in_order(),
            r matches Some(given) ==> (*old(self) is Measure ==> given is Ok),
    {
        if self.has_row(offset) {
            Some(self.assign_fixed(annotation, column, offset, to))
        } else {
            proof {
                self.lemma_continued_itself();
            }
            None
        }
    }

    /// Assigns the constant `constant` to the advice cell at `offset` in
    /// `column`, if the region has a row there; else nothing is done.
    pub fn checked_assign_advice_from_constant(
        &mut self,
        annotation: &str,
        column: Column<Advice>,
        offset: usize,
        constant: Assigned<F>,
    ) -> (r: Option<Result<Cell, Error>>)
        ensures
            r is Some <==> old(self).spec_has_row(offset),
            r is None ==> *final(self) == *old(self),
            r matches Some(given) ==> (given matches Ok(cell) ==> cell == (Cell {
                region_index: old(self).spec_region_index(),
                row_offset: offset,
                column: column.spec_any(),
            })),
            r matches Some(given) ==> (*old(self) matches Region::Measure(before) ==> (given is Ok && (
            *final(self) matches Region::Measure(shape) && before.spec_written(
                &shape,
                RegionColumn::Column(column.spec_any()),
                offset,
            )))),
            r matches Some(given) ==> (*old(self) matches Region::Assign(before) ==> (*final(self) matches Region::Assign(region) && {
                &&& region.plan.cs.calls() == before.plan.cs.calls() + seq![
                    SinkCall::AssignAdvice(
                        annotation@,
                        column,
                        before.spec_row(offset),
                        (Value { inner: Some(constant) }),
                    ),
                ]
                &&& region.plan.regions == before.plan.regions
                &&& region.plan.table_columns == before.plan.table_columns
                &&& region.region_index == before.region_index
                &&& given matches Ok(cell) ==> region.plan.constants@ == before.plan.constants@.push(
                    (constant, cell),
                )
                &&& given is Err ==> region.plan.constants == before.plan.constants
            })),
            r matches Some(given) ==> (old(self).spec_wrote(final(self), RegionColumn::Column(column.spec_any()), offset, true)),
            r matches Some(given) ==> (old(self).spec_answered(final(self), seq![spec_answer(given)])),
            old(self).spec_continued(final(self)),
            old(self).spec_in_order() ==> final(self).spec_in_order(),
    {
        if self.has_row(offset) {
            Some(self.assign_advice_from_constant(annotation, column, offset, constant))
        } else {
            proof {
                self.lemma_continued_itself();
            }
            None
        }
    }

    /// Assigns the value of the instance cell at `row` in `instance` to the
    /// advice cell at `offset` in `advice`, if the region has a row there;
    /// else nothing is done.
    pub fn checked_assign_advice_from_instance(
        &mut self,
        annotation: &str,
        instance: Column<Instance>,
        row: usize,
        advice: Column<Advice>,
        offset: usize,
    ) -> (r: Option<Result<(Cell, Value<F>), Error>>)
        ensures
            r is Some <==> old(self).spec_has_row(offset),
            r is None ==> *final(self) == *old(self),
            r matches Some(given) ==> (given matches Ok(pair) ==> pair.0 == (Cell {
                region_index: old(self).spec_region_index(),
                row_offset: offset,
                column: advice.spec_any(),
            })),
            r matches Some(given) ==> (*old(self) matches Region::Measure(before) ==> (given matches Ok(pair)
                && pair.1.inner.is_none() && (*final(self) matches Region::Measure(shape)
                && before.spec_written(&shape, RegionColumn::Column(advice.spec_any()), offset)))),
            r matches Some(given) ==> (*old(self) matches Region::Assign(before) ==> (*final(self) matches Region::Assign(region)
                && before.spec_from_instance(
                &region,
                annotation@,
                instance,
                row,
                advice,
                offset,
                given,
            ))),
            r matches Some(given) ==> (old(self).spec_wrote(
                final(self),
                RegionColumn::Column(advice.spec_any()),
                offset,
                given is Ok,
            )),
            old(self).spec_continued(final(self)),
            old(self).spec_in_order() ==> final(self).spec_in_order(),
    {
        if self.has_row(offset) {
            Some(self.assign_advice_from_instance(annotation, instance, row, advice, offset))
        } else {
            proof {
                self.lemma_continued_itself();
            }
            None
        }
    }

    /// Constrains the cells `left` and `right` to be equal, if both can be
    /// constrained through the handle; else nothing is done.
    pub fn checked_constrain_equal(&mut self, left: Cell, right: Cell) -> (r: Option<Result<(), Error>>)
        ensures
            r is Some <==> (old(self).spec_has_cell(left) && old(self).spec_has_cell(right)),
            r is None ==> *final(self) == *old(self),
            r matches Some(given) ==> (*old(self) is Measure ==> given is Ok && *final(self) == *old(self)),
            r matches Some(given) ==> (*old(self) matches Region::Assign(before) ==> (*final(self) matches Region::Assign(region)
                && before.spec_called(
                &region,
                seq![
                    SinkCall::Copy(
                        left.column,
                        before.plan.spec_row(left),
                        right.column,
                        before.plan.spec_row(right),
                    ),
                ],
            ))),
            r matches Some(given) ==> (old(self).spec_wrote_nothing(final(self))),
            r matches Some(given) ==> (old(self).spec_answered(final(self), seq![given])),
            old(self).spec_continued(final(self)),
            old(self).spec_in_order() ==> final(self).spec_in_order(),
    {
        if self.has_cell(left) && self.has_cell(right) {
            Some(self.constrain_equal(left, right))
        } else {
            proof {
                self.lemma_continued_itself();
            }
            None
        }
    }

    /// Records that `cell` is to be constrained to `constant`, if the cell
    /// can be constrained through the handle; else nothing is done.
    pub fn checked_constrain_constant(&mut self, cell: Cell, constant: Assigned<F>) -> (r: Option<Result<(), Error>>)
        ensures
            r is Some <==> old(self).spec_has_cell(cell),
            r is None ==> *final(self) == *old(self),
            r matches Some(given) ==> (given is Ok),
            r matches Some(given) ==> (*old(self) is Measure ==> *final(self) == *old(self)),
            r matches Some(given) ==> (*old(self) matches Region::Assign(before) ==> (*final(self) matches Region::Assign(region)
                && region.plan.constants@ == before.plan.constants@.push((constant, cell))
                && region == (V1Region {
                plan: V1Plan { constants: region.plan.constants, ..before.plan },
                ..before
            }))),
            r matches Some(given) ==> (old(self).spec_wrote_nothing(final(self))),
            r matches Some(given) ==> (old(self).spec_answered(final(self), Seq::empty())),
            old(self).spec_continued(final(self)),
            old(self).spec_in_order() && old(self).spec_has_cell(cell) ==> final(self).spec_in_order(),
    {
        if self.has_cell(cell) {
            Some(self.constrain_constant(cell, constant))
        } else {
            proof {
                self.lemma_continued_itself();
            }
            None
        }
    }

    /// A shape with one more write is a later state of the shape, and in
    /// order if the shape was.
    proof fn lemma_measured_in_order(&self, after: &Self, column: RegionColumn, offset: usize)
        requires
            *self matches Region::Measure(before),
            *after matches Region::Measure(shape),
            self->Measure_0.spec_written(&after->Measure_0, column, offset),
        ensures
            self.spec_continued(after),
            self.spec_in_order() ==> after.spec_in_order(),
    {
    }

    /// A handle after a write is a later state of the handle, and in order
    /// if the handle was.
    proof fn lemma_written_in_order(
        &self,
        after: &Self,
        column: RegionColumn,
        offset: usize,
        calls: Seq<SinkCall<F>>,
    )
        requires
            self.spec_written(after, column, offset, calls),
        ensures
            self.spec_continued(after),
            self.spec_in_order() ==> after.spec_in_order(),
    {
        match (*self, *after) {
            (Region::Measure(_), Region::Measure(_)) => {
                self.lemma_measured_in_order(after, column, offset);
            },
            (Region::Assign(before), Region::Assign(region)) => {
                before.plan.lemma_called_continues(&region.plan, calls);
            },
            _ => {},
        }
    }

    /// A handle of a region that is assigned, after more calls on the sink
    /// and at most one more constant for a cell in a region of the plan,
    /// is a later state of the handle, and in order if the handle was.
    proof fn lemma_recorded_in_order(&self, after: &Self, calls: Seq<SinkCall<F>>)
        requires
            *self matches Region::Assign(before),
            *after matches Region::Assign(region),
            after->Assign_0.region_index == self->Assign_0.region_index,
            after->Assign_0.plan.regions == self->Assign_0.plan.regions,
            after->Assign_0.plan.table_columns == self->Assign_0.plan.table_columns,
            after->Assign_0.plan.cs.calls() == self->Assign_0.plan.cs.calls() + calls,
            after->Assign_0.plan.constants == self->Assign_0.plan.constants || (
            after->Assign_0.plan.constants@.len() == self->Assign_0.plan.constants@.len() + 1
                && after->Assign_0.plan.constants@.drop_last() == self->Assign_0.plan.constants@),
        ensures
            self.spec_continued(after),
            self.spec_in_order() && (after->Assign_0.plan.constants == self->Assign_0.plan.constants
                || self->Assign_0.plan.spec_has_cell(after->Assign_0.plan.constants@.last().1))
                ==> after.spec_in_order(),
    {
        let before = self->Assign_0.plan;
        let plan = after->Assign_0.plan;
        lemma_begins_add(before.cs.calls(), calls);
        assert(before.table_columns@.subrange(0, before.table_columns@.len() as int)
            =~= before.table_columns@);
        if plan.constants == before.constants {
            assert(before.constants@.subrange(0, before.constants@.len() as int)
                =~= before.constants@);
        } else {
            assert(plan.constants@.subrange(0, before.constants@.len() as int)
                =~= plan.constants@.drop_last());
            if self.spec_in_order() && before.spec_has_cell(plan.constants@.last().1) {
                assert forall|k: int| 0 <= k < plan.constants@.len() implies plan.spec_has_cell(
                    (#[trigger] plan.constants@[k]).1,
                ) by {
                    if k < before.constants@.len() {
                        assert(plan.constants@[k] == plan.constants@.drop_last()[k]);
                        assert(before.spec_has_cell(before.constants@[k].1));
                    }
                }
            }
        }
    }

    /// A write that made `calls` on the sink, of which one writes to the
    /// cell and none to another cell, wrote the cell.
    proof fn lemma_written_wrote(
        &self,
        after: &Self,
        column: RegionColumn,
        offset: usize,
        calls: Seq<SinkCall<F>>,
    )
        requires
            self.spec_written(after, column, offset, calls),
            calls.len() == 1,
            *self is Assign ==> spec_target(calls[0]) == Some((column, self.spec_row(offset))),
        ensures
            self.spec_wrote(after, column, offset, true),
    {
        if *self is Assign {
            lemma_one_call(calls, column, self.spec_row(offset));
        }
    }

    /// Calls on the sink of which none writes to a cell wrote nothing.
    proof fn lemma_called_nothing(&self, after: &Self, calls: Seq<SinkCall<F>>)
        requires
            *self is Measure ==> after == self,
            *self matches Region::Assign(before) ==> (*after matches Region::Assign(region)
                && region.region_index == before.region_index && region.plan.regions
                == before.plan.regions && region.plan.cs.calls() == before.plan.cs.calls()
                + calls),
            spec_writes_none(calls),
        ensures
            self.spec_wrote_nothing(after),
    {
    }
}

/// One call that writes to a cell writes to it and to no other.
proof fn lemma_one_call<F>(calls: Seq<SinkCall<F>>, column: RegionColumn, row: usize)
    requires
        calls.len() == 1,
        spec_target(calls[0]) == Some((column, row)),
    ensures
        spec_writes_only(calls, column, row),
        spec_writes_to(calls, column, row),
{
}

impl Selector {
    /// Enable this selector at the given offset within the given region.
    pub fn enable<F: Copy, CS: Assignment<F>>(&self, region: &mut Region<F, CS>, offset: usize) -> (r:
        Result<(), Error>)
        requires
            old(region).spec_has_row(offset),
        ensures
            old(region).spec_written(
                final(region),
                RegionColumn::Selector(*self),
                offset,
                seq![SinkCall::EnableSelector(""@, *self, old(region).spec_row(offset))],
            ),
            old(region).spec_wrote(final(region), RegionColumn::Selector(*self), offset, true),
            old(region).spec_answered(final(region), seq![r]),
            old(region).spec_continued(final(region)),
            old(region).spec_in_order() ==> final(region).spec_in_order(),
            *old(region) is Measure ==> r is Ok,
    {
        region.enable_selector("", self, offset)
    }
}

impl Selector {
    /// Enable this selector at the given offset within the given region,
    /// if the region has a row there; else nothing is done.
    pub fn checked_enable<F: Copy, CS: Assignment<F>>(
        &self,
        region: &mut Region<F, CS>,
        offset: usize,
    ) -> (r: Option<Result<(), Error>>)
        ensures
            r is Some <==> old(region).spec_has_row(offset),
            r is None ==> *final(region) == *old(region),
            r matches Some(done) ==> old(region).spec_written(
                final(region),
                RegionColumn::Selector(*self),
                offset,
                seq![SinkCall::EnableSelector(""@, *self, old(region).spec_row(offset))],
            ) && old(region).spec_wrote(final(region), RegionColumn::Selector(*self), offset, true)
                && old(region).spec_answered(final(region), seq![done]) && (*old(region)
                is Measure ==> done is Ok),
            old(region).spec_continued(final(region)),
            old(region).spec_in_order() ==> final(region).spec_in_order(),
    {
        if region.has_row(offset) {
            Some(self.enable(region, offset))
        } else {
            proof {
                region.lemma_continued_itself();
            }
            None
        }
    }
}

/// Measures the circuit.
#[derive(Debug)]
pub struct MeasurementPass {
    pub regions: Vec<RegionShape>,
}

impl MeasurementPass {
    /// A pass that has measured no region.
    pub fn new() -> (r: Self)
        ensures
            r.regions@.len() == 0,
    {
        MeasurementPass { regions: Vec::new() }
    }

    /// Whether `region` is the handle that the next region is measured by:
    /// an empty shape with the index of the region.
    pub open spec fn spec_next_region<F, CS: Assignment<F>>(&self, region: Region<F, CS>) -> bool {
        region matches Region::Measure(shape) && shape.region_index == RegionIndex(
            self.regions@.len() as usize,
        ) && shape.columns@.len() == 0 && shape.row_count == 0
    }

    /// Measures a region: `assignment` writes the region to a handle that
    /// records its shape, and the shape is kept if `assignment` succeeds.
    pub fn assign_region<F: Copy, CS: Assignment<F>, A, AR>(&mut self, assignment: A) -> (r: Result<
        AR,
        Error,
    >) where A: FnOnce(&mut Region<F, CS>) -> Result<AR, Error>
        requires
            forall|region: &mut Region<F, CS>|
                old(self).spec_next_region(*region) ==> #[trigger] call_requires(
                    assignment,
                    (region,),
                ),
            forall|region: &mut Region<F, CS>, out: Result<AR, Error>|
                old(self).spec_next_region(*region) && #[trigger] call_ensures(
                    assignment,
                    (region,),
                    out,
                ) ==> *final(region) is Measure,
        ensures
            exists|region: &mut Region<F, CS>|
                {
                    &&& #[trigger] call_ensures(assignment, (region,), r)
                    &&& old(self).spec_next_region(*region)
                    &&& *final(region) matches Region::Measure(shape)
                    &&& r is Ok ==> final(self).regions@ == old(self).regions@.push(shape)
                    &&& r is Err ==> final(self).regions == old(self).regions
                },
    {
        let region_index = self.regions.len();

        // Get shape of the region.
        let mut region = Region::Measure(RegionShape::new(RegionIndex(region_index)));
        let result = assignment(&mut region);
        match result {
            Ok(value) => {
                match region {
                    Region::Measure(shape) => {
                        self.regions.push(shape);
                    },
                    Region::Assign(_) => {
                        proof {
                            assert(false);
                        }
                    },
                }
                Ok(value)
            },
            Err(e) => Err(e),
        }
    }
}

/// Assigns the circuit.
pub struct AssignmentPass<F, CS: Assignment<F>> {
    /// The plan of the circuit. It is lent to the handle of a region or
    /// a table while the region or the table is assigned.
    pub plan: Option<V1Plan<F, CS>>,
    /// Counter tracking which region we need to assign next.
    pub region_index: usize,
}

/// The calls that fill the columns of `entries` with their default values
/// from the row `first_unused` on.
pub open spec fn spec_fills<F>(entries: Seq<TableEntry<F>>, first_unused: usize) -> Seq<SinkCall<F>> {
    Seq::new(
        entries.len(),
        |k: int|
            SinkCall::FillFromRow(entries[k].column.inner(), first_unused, entries[k].default.unwrap()),
    )
}

/// The columns of `entries`.
pub open spec fn spec_entry_columns<F>(entries: Seq<TableEntry<F>>) -> Seq<TableColumn> {
    Seq::new(entries.len(), |k: int| entries[k].column)
}

impl<F: Copy, CS: Assignment<F>> AssignmentPass<F, CS> {
    /// A pass that assigns through `plan`, and has assigned no region.
    pub fn new(plan: V1Plan<F, CS>) -> (r: Self)
        ensures
            r.plan == Some(plan),
            r.region_index == 0,
    {
        AssignmentPass { plan: Some(plan), region_index: 0 }
    }

    /// Whether the pass holds its plan.
    pub open spec fn spec_wf(&self) -> bool {
        self.plan.is_some()
    }

    /// The plan of the pass.
    pub open spec fn spec_plan(&self) -> V1Plan<F, CS> {
        self.plan.unwrap()
    }

    /// Whether `region` is the handle that the next region is assigned
    /// by: it assigns the region of the index that the pass has come to,
    /// through the plan of the pass, whose sink was told that the region
    /// `name` is entered.
    pub open spec fn spec_next_region(&self, name: Seq<char>, region: Region<F, CS>) -> bool {
        region matches Region::Assign(handle) && handle.region_index == RegionIndex(
            self.region_index,
        ) && self.spec_plan().spec_called(&handle.plan, seq![SinkCall::EnterRegion(name)])
            && self.spec_plan().spec_answered(&handle.plan, seq![Ok(())])
    }

    /// Assigns a region: the sink is told that the region `name` is
    /// entered, `assignment` writes the region through a handle, and if it
    /// succeeds the sink is told that the region is left. The pass goes on
    /// to the next region in either case.
    pub fn assign_region<A, AR>(&mut self, name: &str, assignment: A) -> (r: Result<AR, Error>) where
        A: FnOnce(&mut Region<F, CS>) -> Result<AR, Error>,

        requires
            old(self).spec_wf(),
            old(self).region_index < usize::MAX,
            forall|region: &mut Region<F, CS>|
                old(self).spec_next_region(name@, *region) ==> #[trigger] call_requires(
                    assignment,
                    (region,),
                ),
            forall|region: &mut Region<F, CS>, out: Result<AR, Error>|
                old(self).spec_next_region(name@, *region) && #[trigger] call_ensures(
                    assignment,
                    (region,),
                    out,
                ) ==> *final(region) is Assign,
        ensures
            final(self).spec_wf(),
            final(self).region_index == old(self).region_index + 1,
            exists|region: &mut Region<F, CS>|
                {
                    &&& #[trigger] call_ensures(assignment, (region,), r)
                    &&& old(self).spec_next_region(name@, *region)
                    &&& *final(region) matches Region::Assign(done)
                    &&& done.plan.spec_called(
                        &final(self).spec_plan(),
                        if r is Ok {
                            seq![SinkCall::ExitRegion]
                        } else {
                            Seq::empty()
                        },
                    )
                    &&& done.plan.spec_answered(
                        &final(self).spec_plan(),
                        if r is Ok {
                            seq![Ok(())]
                        } else {
                            Seq::empty()
                        },
                    )
                },
    {
        // Get the next region we are assigning.
        let region_index = self.region_index;
        self.region_index += 1;

        let mut plan = self.plan.take().unwrap();
        plan.cs.enter_region(name);
        proof {
            assert(plan.cs.calls() =~= old(self).spec_plan().cs.calls() + seq![
                SinkCall::EnterRegion(name@),
            ]);
            assert(plan.cs.answers() =~= old(self).spec_plan().cs.answers() + seq![Ok(())]);
        }
        let mut region = Region::Assign(V1Region::new(plan, RegionIndex(region_index)));
        let result = assignment(&mut region);
        let mut plan = match region {
            Region::Assign(handle) => handle.plan,
            Region::Measure(_) => {
                proof {
                    assert(false);
                }
                vstd::pervasive::unreached()
            },
        };
        let ghost done = plan;
        match result {
            Ok(value) => {
                plan.cs.exit_region();
                proof {
                    assert(plan.cs.calls() =~= done.cs.calls() + seq![SinkCall::ExitRegion]);
                    assert(plan.cs.answers() =~= done.cs.answers() + seq![Ok(())]);
                }
                self.plan = Some(plan);
                Ok(value)
            },
            Err(e) => {
                proof {
                    assert(plan.cs.calls() =~= done.cs.calls() + Seq::<SinkCall<F>>::empty());
                    assert(plan.cs.answers() =~= done.cs.answers() + Seq::<
                        Result<(), Error>,
                    >::empty());
                }
                self.plan = Some(plan);
                Err(e)
            },
        }
    }

    /// Whether `table` is the handle that the next table is assigned by:
    /// it assigns through the sink of the plan, which was told that the
    /// region `name` is entered, and may not assign to the table columns
    /// that are in use.
    pub open spec fn spec_next_table(
        &self,
        name: Seq<char>,
        table: SimpleTableLayouter<F, CS>,
    ) -> bool {
        &&& table.cs.calls() == self.spec_plan().cs.calls() + seq![SinkCall::EnterRegion(name)]
        &&& table.cs.answers() == self.spec_plan().cs.answers() + seq![Ok(())]
        &&& table.used_columns == self.spec_plan().table_columns
        &&& table.default_and_assigned@.len() == 0
    }

    /// Whether `after` is the plan `self` after the table that `table`
    /// holds was assigned with the result `out` of the assignment and the
    /// result `r` of the whole: after a failed assignment nothing more is
    /// done, and its error is the result; else the sink is told that the
    /// region is left, the columns are checked, and if they are fine they
    /// are in use from now on and each is filled from its first unused row
    /// on with its default value, until a fill fails. The error of the
    /// check, or of the fill that failed, is the result.
    pub open spec fn spec_table_assigned<AR>(
        before: V1Plan<F, CS>,
        table: SimpleTableLayouter<F, CS>,
        out: Result<AR, Error>,
        after: V1Plan<F, CS>,
        r: Result<AR, Error>,
    ) -> bool {
        let entries = table.default_and_assigned@;
        &&& after.regions == before.regions
        &&& after.constants == before.constants
        &&& match out {
            Err(_) => r == out && after.cs.calls() == table.cs.calls() && after.cs.answers()
                == table.cs.answers() && after.table_columns == table.used_columns,
            Ok(_) => exists|checked: Result<usize, Error>| #[trigger]
                spec_table_checked(entries, checked) && match checked {
                    Err(_) => spec_answer(r) == spec_answer(checked) && after.cs.calls()
                        == table.cs.calls() + seq![SinkCall::ExitRegion] && after.cs.answers()
                        == table.cs.answers() + seq![Ok(())] && after.table_columns
                        == table.used_columns,
                    Ok(first_unused) => exists|answers: Seq<Result<(), Error>>|
                        {
                            &&& answers.len() <= entries.len()
                            &&& after.cs.calls() == table.cs.calls().push(SinkCall::ExitRegion)
                                + spec_fills(entries, first_unused).take(answers.len() as int)
                            &&& after.cs.answers() == table.cs.answers().push(Ok(())) + answers
                            &&& #[trigger] spec_until_failure(answers, spec_answer(r))
                            &&& after.table_columns@ == table.used_columns@ + spec_entry_columns(
                                entries,
                            )
                            &&& r is Ok ==> r == out && answers.len() == entries.len()
                        },
                },
        }
    }

    /// Assigns a table: the sink is told that the region `name` is
    /// entered, `assignment` writes the cells of the table through a table
    /// layouter, and the sink is told that the region is left. Then the
    /// columns of the table must all have the same length, with every cell
    /// up to that length assigned. They are kept as in use, and each is
    /// filled from that length on with its default value.
    #[verifier::loop_isolation(false)]
    pub fn assign_table<A, AR>(&mut self, name: &str, assignment: A) -> (r: Result<AR, Error>) where
        A: FnOnce(&mut SimpleTableLayouter<F, CS>) -> Result<AR, Error>,

        requires
            old(self).spec_wf(),
            forall|table: &mut SimpleTableLayouter<F, CS>|
                old(self).spec_next_table(name@, *table) ==> #[trigger] call_requires(
                    assignment,
                    (table,),
                ),
        ensures
            final(self).spec_wf(),
            final(self).region_index == old(self).region_index,
            exists|table: &mut SimpleTableLayouter<F, CS>, out: Result<AR, Error>|
                {
                    &&& #[trigger] call_ensures(assignment, (table,), out)
                    &&& old(self).spec_next_table(name@, *table)
                    &&& Self::spec_table_assigned(
                        old(self).spec_plan(),
                        *final(table),
                        out,
                        final(self).spec_plan(),
                        r,
                    )
                },
    {
        // Assign table cells.
        let plan = self.plan.take().unwrap();
        let V1Plan { cs, regions, constants, table_columns } = plan;
        let mut cs = cs;
        cs.enter_region(name);
        proof {
            assert(cs.calls() =~= old(self).spec_plan().cs.calls() + seq![
                SinkCall::EnterRegion(name@),
            ]);
            assert(cs.answers() =~= old(self).spec_plan().cs.answers() + seq![Ok(())]);
        }
        let mut table = SimpleTableLayouter::new(cs, table_columns);
        let result = assignment(&mut table);
        let ghost done = table;
        let ghost out = result;
        let SimpleTableLayouter { cs, used_columns, default_and_assigned } = table;
        let mut plan = V1Plan { cs, regions, constants, table_columns: used_columns };
        let value = match result {
            Ok(value) => value,
            Err(e) => {
                self.plan = Some(plan);
                return Err(e);
            },
        };
        plan.cs.exit_region();

        // Check that all table columns have the same length `first_unused`,
        // and all cells up to that length are assigned.
        let checked = compute_table_lengths(&default_and_assigned);
        let first_unused = match checked {
            Ok(first_unused) => first_unused,
            Err(e) => {
                proof {
                    assert(plan.cs.calls() =~= done.cs.calls() + seq![SinkCall::ExitRegion]);
                    assert(plan.cs.answers() =~= done.cs.answers() + seq![Ok(())]);
                    assert(spec_table_checked(done.default_and_assigned@, checked));
                }
                self.plan = Some(plan);
                return Err(e);
            },
        };

        // Record these columns so that we can prevent them from being used
        // again.
        let ghost entries = default_and_assigned@;
        let mut k: usize = 0;
        while k < default_and_assigned.len()
            invariant
                k <= default_and_assigned.len(),
                self.region_index == old(self).region_index,
                entries == default_and_assigned@,
                plan.table_columns@ == done.used_columns@ + spec_entry_columns(entries).take(
                    k as int,
                ),
                plan.cs.calls() == done.cs.calls().push(SinkCall::ExitRegion),
                plan.cs.answers() == done.cs.answers().push(Ok(())),
                plan.regions == old(self).spec_plan().regions,
                plan.constants == old(self).spec_plan().constants,
            decreases default_and_assigned.len() - k,
        {
            plan.table_columns.push(default_and_assigned[k].column);
            proof {
                assert(done.used_columns@ + spec_entry_columns(entries).take(k + 1) =~= (
                done.used_columns@ + spec_entry_columns(entries).take(k as int)).push(
                    entries[k as int].column,
                ));
            }
            k += 1;
        }
        proof {
            assert(spec_entry_columns(entries).take(entries.len() as int) =~= spec_entry_columns(
                entries,
            ));
        }

        let ghost base = plan.cs.calls();
        let ghost answers = Seq::<Result<(), Error>>::empty();
        proof {
            assert(plan.cs.answers() =~= done.cs.answers().push(Ok(())) + answers);
        }
        let mut k: usize = 0;
        while k < default_and_assigned.len()
            invariant
                k <= default_and_assigned.len(),
                self.region_index == old(self).region_index,
                entries == default_and_assigned@,
                crate::circuit::table_layouter::spec_all_complete(entries),
                base == done.cs.calls().push(SinkCall::ExitRegion),
                plan.cs.calls() == base + spec_fills(entries, first_unused).take(k as int),
                answers.len() == k,
                forall|j: int| 0 <= j < k ==> (#[trigger] answers[j]) is Ok,
                plan.cs.answers() == done.cs.answers().push(Ok(())) + answers,
                plan.table_columns@ == done.used_columns@ + spec_entry_columns(entries),
                plan.regions == old(self).spec_plan().regions,
                plan.constants == old(self).spec_plan().constants,
            decreases default_and_assigned.len() - k,
        {
            let entry = &default_and_assigned[k];
            assert(entries[k as int].spec_complete());
            // The default value is there because at least one cell was
            // assigned in each column, and all cells up to `first_unused`
            // were assigned.
            let filled = plan.cs.fill_from_row(
                entry.column.inner(),
                first_unused,
                entry.default.unwrap(),
            );
            proof {
                assert(base + spec_fills(entries, first_unused).take(k + 1) =~= (base + spec_fills(
                    entries,
                    first_unused,
                ).take(k as int)).push(spec_fills(entries, first_unused)[k as int]));
                assert(done.cs.answers().push(Ok(())) + answers.push(filled) =~= (
                done.cs.answers().push(Ok(())) + answers).push(filled));
                answers = answers.push(filled);
            }
            match filled {
                Ok(()) => {},
                Err(e) => {
                    proof {
                        assert(plan.cs.calls() == base + spec_fills(entries, first_unused).take(
                            k + 1,
                        ));
                        assert(spec_table_checked(done.default_and_assigned@, checked));
                        assert(spec_until_failure(answers, spec_answer(Err::<AR, Error>(e))));
                    }
                    self.plan = Some(plan);
                    return Err(e);
                },
            }
            k += 1;
        }
        proof {
            assert(plan.cs.calls() == base + spec_fills(entries, first_unused).take(
                entries.len() as int,
            ));
            assert(spec_table_checked(done.default_and_assigned@, checked));
            assert(spec_until_failure(answers, spec_answer(Ok::<AR, Error>(value)))) by {
                if answers.len() > 0 {
                    lemma_answer_itself(answers.last());
                }
            }
        }
        self.plan = Some(plan);
        Ok(value)
    }

    /// Constrains `cell` to equal the instance cell at `row` in
    /// `instance`.
    pub fn constrain_instance(&mut self, cell: Cell, instance: Column<Instance>, row: usize) -> (r:
        Result<(), Error>)
        requires
            old(self).spec_wf(),
            old(self).spec_plan().spec_has_cell(cell),
        ensures
            final(self).spec_wf(),
            final(self).region_index == old(self).region_index,
            old(self).spec_plan().spec_called(
                &final(self).spec_plan(),
                seq![
                    SinkCall::Copy(
                        cell.column,
                        old(self).spec_plan().spec_row(cell),
                        instance.spec_any(),
                        row,
                    ),
                ],
            ),
            old(self).spec_plan().spec_answered(&final(self).spec_plan(), seq![r]),
    {
        let mut plan = self.plan.take().unwrap();
        let at = plan.row(&cell);
        let r = plan.cs.copy(
            cell.column,
            at,
            Column { index: instance.index, column_type: Any::Instance },
            row,
        );
        proof {
            assert(plan.cs.calls() =~= old(self).spec_plan().cs.calls() + seq![
                SinkCall::Copy(cell.column, at, instance.spec_any(), row),
            ]);
            assert(plan.cs.answers() =~= old(self).spec_plan().cs.answers() + seq![r]);
        }
        self.plan = Some(plan);
        r
    }
}

} // verus!

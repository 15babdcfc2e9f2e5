//! The plan of a circuit, and the region handle that assigns through it.

use crate::circuit::cell::{Cell, RegionIndex, RegionStart};
use crate::circuit::value::Value;
use crate::middleware::{Advice, Any, Fixed, Instance};
use crate::plonk::circuit::{Column, Selector, TableColumn};
use crate::plonk::{lemma_answer_itself, spec_answer, Assigned, Assignment, Error, SinkCall};
use vstd::prelude::*;

verus! {

/// The plan of a circuit: the sink that the circuit is assigned to, the
/// starting row of each region, the constants to be assigned with the
/// cells that they are copied to, and the table columns that are in use.
pub struct V1Plan<F, CS: Assignment<F>> {
    pub cs: CS,
    /// Stores the starting row for each region.
    pub regions: Vec<RegionStart>,
    /// Stores the constants to be assigned, and the cells to which they
    /// are copied.
    pub constants: Vec<(Assigned<F>, Cell)>,
    /// Stores the table fixed columns.
    pub table_columns: Vec<TableColumn>,
}

impl<F, CS: Assignment<F>> V1Plan<F, CS> {
    /// Creates a new v1 layouter.
    pub fn new(cs: CS) -> (r: Result<Self, Error>)
        ensures
            r matches Ok(plan) && plan.cs == cs && plan.regions@.len() == 0
                && plan.constants@.len() == 0 && plan.table_columns@.len() == 0,
    {
        let ret = V1Plan {
            cs,
            regions: Vec::new(),
            constants: Vec::new(),
            table_columns: Vec::new(),
        };
        Ok(ret)
    }

    /// Whether `cell` lies in a region of the plan, at a row that is
    /// a number of the machine.
    pub open spec fn spec_has_cell(&self, cell: Cell) -> bool {
        cell.region_index.0 < self.regions@.len() && self.regions@[cell.region_index.0 as int].0
            + cell.row_offset <= usize::MAX
    }

    /// The row of `cell` in the circuit: the start of its region and its
    /// offset in the region.
    pub open spec fn spec_row(&self, cell: Cell) -> usize {
        (self.regions@[cell.region_index.0 as int].0 + cell.row_offset) as usize
    }

    /// Whether `cell` lies in a region of the plan, at a row that is
    /// a number of the machine.
    pub fn has_cell(&self, cell: &Cell) -> (r: bool)
        ensures
            r == self.spec_has_cell(*cell),
    {
        cell.region_index.0 < self.regions.len() && self.regions[cell.region_index.0].0
            <= usize::MAX - cell.row_offset
    }

    /// The row of `cell` in the circuit.
    pub fn row(&self, cell: &Cell) -> (r: usize)
        requires
            self.spec_has_cell(*cell),
        ensures
            r == self.spec_row(*cell),
    {
        self.regions[cell.region_index.0].0 + cell.row_offset
    }

    /// Whether `after` is the plan `self` with `calls` more calls made on
    /// its sink, and nothing else changed.
    pub open spec fn spec_called(&self, after: &Self, calls: Seq<SinkCall<F>>) -> bool {
        &&& after.cs.calls() == self.cs.calls() + calls
        &&& after.regions == self.regions
        &&& after.constants == self.constants
        &&& after.table_columns == self.table_columns
    }

    /// Whether `answers` are what the sink answered to the calls that
    /// were made on it between `self` and `after`.
    pub open spec fn spec_answered(&self, after: &Self, answers: Seq<Result<(), Error>>) -> bool {
        after.cs.answers() == self.cs.answers() + answers
    }
}

/// The handle through which a region is assigned: writes at an offset in
/// the region go to the sink at the region's starting row and the offset.
pub struct V1Region<F, CS: Assignment<F>> {
    pub plan: V1Plan<F, CS>,
    pub region_index: RegionIndex,
}

impl<F: Copy, CS: Assignment<F>> V1Region<F, CS> {
    /// A handle for the region `region_index` of `plan`.
    pub fn new(plan: V1Plan<F, CS>, region_index: RegionIndex) -> (r: Self)
        ensures
            r.plan == plan,
            r.region_index == region_index,
    {
        V1Region { plan, region_index }
    }

    /// The cell of the region at `offset` in `column`.
    pub open spec fn spec_cell(&self, column: Column<Any>, offset: usize) -> Cell {
        Cell { region_index: self.region_index, row_offset: offset, column }
    }

    /// Whether the region has a row at `offset`: the region is one of the
    /// plan, and the row is a number of the machine.
    pub open spec fn spec_has_row(&self, offset: usize) -> bool {
        self.plan.spec_has_cell(
            Cell {
                region_index: self.region_index,
                row_offset: offset,
                column: Column { index: 0, column_type: Any::Fixed },
            },
        )
    }

    /// Whether the region has a row at `offset`.
    pub fn has_row(&self, offset: usize) -> (r: bool)
        ensures
            r == self.spec_has_row(offset),
    {
        self.region_index.0 < self.plan.regions.len() && self.plan.regions[self.region_index.0].0
            <= usize::MAX - offset
    }

    /// The row of the circuit at `offset` in the region.
    pub open spec fn spec_row(&self, offset: usize) -> usize {
        (self.plan.regions@[self.region_index.0 as int].0 + offset) as usize
    }

    /// Whether `after` is the handle `self` with `calls` more calls made on
    /// the sink, and nothing else changed.
    pub open spec fn spec_called(&self, after: &Self, calls: Seq<SinkCall<F>>) -> bool {
        &&& self.plan.spec_called(&after.plan, calls)
        &&& after.region_index == self.region_index
    }

    /// Enables a selector at `offset` in the region.
    pub fn enable_selector(&mut self, annotation: &str, selector: &Selector, offset: usize) -> (r:
        Result<(), Error>)
        requires
            old(self).spec_has_row(offset),
        ensures
            old(self).spec_called(
                final(self),
                seq![SinkCall::EnableSelector(annotation@, *selector, old(self).spec_row(offset))],
            ),
            old(self).plan.spec_answered(&final(self).plan, seq![r]),
    {
        let row = self.plan.regions[self.region_index.0].0 + offset;
        let r = self.plan.cs.enable_selector(annotation, selector, row);
        proof {
            assert(self.plan.cs.answers() =~= old(self).plan.cs.answers() + seq![r]);
            assert(self.plan.cs.calls() =~= old(self).plan.cs.calls() + seq![
                SinkCall::EnableSelector(annotation@, *selector, row),
            ]);
        }
        r
    }

    /// Assigns `to` to the advice cell at `offset` in `column`, and returns
    /// the cell.
    pub fn assign_advice(
        &mut self,
        annotation: &str,
        column: Column<Advice>,
        offset: usize,
        to: Value<Assigned<F>>,
    ) -> (r: Result<Cell, Error>)
        requires
            old(self).spec_has_row(offset),
        ensures
            old(self).spec_called(
                final(self),
                seq![SinkCall::AssignAdvice(annotation@, column, old(self).spec_row(offset), to)],
            ),
            old(self).plan.spec_answered(&final(self).plan, seq![spec_answer(r)]),
            r matches Ok(cell) ==> cell == old(self).spec_cell(column.spec_any(), offset),
    {
        let row = self.plan.regions[self.region_index.0].0 + offset;
        let r = self.plan.cs.assign_advice(annotation, column, row, to);
        proof {
            assert(self.plan.cs.answers() =~= old(self).plan.cs.answers() + seq![r]);
            assert(self.plan.cs.calls() =~= old(self).plan.cs.calls() + seq![
                SinkCall::AssignAdvice(annotation@, column, row, to),
            ]);
        }
        let cell = match r {
            Ok(()) => Ok(
                Cell {
                    region_index: self.region_index,
                    row_offset: offset,
                    column: Column { index: column.index, column_type: Any::Advice(column.column_type) },
                },
            ),
            Err(e) => Err(e),
        };
        proof {
            lemma_answer_itself(r);
            assert(seq![r] =~= seq![spec_answer(cell)]);
        }
        cell
    }

    /// Assigns the constant `constant` to the advice cell at `offset` in
    /// `column`, and records that the cell is to be constrained to the
    /// constant. Returns the cell.
    pub fn assign_advice_from_constant(
        &mut self,
        annotation: &str,
        column: Column<Advice>,
        offset: usize,
        constant: Assigned<F>,
    ) -> (r: Result<Cell, Error>)
        requires
            old(self).spec_has_row(offset),
        ensures
            final(self).plan.cs.calls() == old(self).plan.cs.calls() + seq![
                SinkCall::AssignAdvice(
                    annotation@,
                    column,
                    old(self).spec_row(offset),
                    (Value { inner: Some(constant) }),
                ),
            ],
            final(self).plan.regions == old(self).plan.regions,
            final(self).plan.table_columns == old(self).plan.table_columns,
            final(self).region_index == old(self).region_index,
            r matches Ok(cell) ==> cell == old(self).spec_cell(column.spec_any(), offset)
                && final(self).plan.constants@ == old(self).plan.constants@.push((constant, cell)),
            r is Err ==> final(self).plan.constants == old(self).plan.constants,
            old(self).plan.spec_answered(&final(self).plan, seq![spec_answer(r)]),
    {
        let advice = self.assign_advice(annotation, column, offset, Value::known(constant));
        match advice {
            Ok(cell) => {
                let _ = self.constrain_constant(cell, constant);
                Ok(cell)
            },
            Err(e) => Err(e),
        }
    }

    /// The value of the instance cell at `row` in `instance`, as the sink
    /// gives it.
    pub fn instance_value(&mut self, instance: Column<Instance>, row: usize) -> (r: Result<
        Value<F>,
        Error,
    >)
        ensures
            *final(self) == *old(self),
            r == old(self).plan.cs.spec_instance(instance, row),
    {
        self.plan.cs.query_instance(instance, row)
    }

    /// The value `value` as a value to assign.
    pub open spec fn spec_to_field(value: Value<F>) -> Value<Assigned<F>> {
        match value.inner {
            Some(v) => Value { inner: Some(Assigned::Trivial(v)) },
            None => Value { inner: None },
        }
    }

    /// The two calls by which `value` is assigned to the advice cell at
    /// `offset` in `advice`, and the cell constrained to equal the instance
    /// cell at `row` in `instance`.
    pub open spec fn spec_instance_calls(
        &self,
        annotation: Seq<char>,
        instance: Column<Instance>,
        row: usize,
        advice: Column<Advice>,
        offset: usize,
        value: Value<Assigned<F>>,
    ) -> Seq<SinkCall<F>> {
        seq![
            SinkCall::AssignAdvice(annotation, advice, self.spec_row(offset), value),
            SinkCall::Copy(advice.spec_any(), self.spec_row(offset), instance.spec_any(), row),
        ]
    }

    /// Whether `after` is the handle `self` after the value of the instance
    /// cell at `row` in `instance` was assigned to the advice cell at
    /// `offset` in `advice`, with the result `r`: where the sink does not
    /// give the value, nothing is called; else the value is assigned and,
    /// if that succeeds, the two cells are constrained to be equal. The
    /// whole succeeds if both calls do, and fails with the error of the
    /// call that failed.
    pub open spec fn spec_from_instance(
        &self,
        after: &Self,
        annotation: Seq<char>,
        instance: Column<Instance>,
        row: usize,
        advice: Column<Advice>,
        offset: usize,
        r: Result<(Cell, Value<F>), Error>,
    ) -> bool {
        match self.plan.cs.spec_instance(instance, row) {
            Err(e) => r == Err::<(Cell, Value<F>), Error>(e) && self.spec_called(
                after,
                Seq::empty(),
            ) && self.plan.spec_answered(&after.plan, Seq::empty()),
            Ok(value) => {
                let calls = self.spec_instance_calls(
                    annotation,
                    instance,
                    row,
                    advice,
                    offset,
                    Self::spec_to_field(value),
                );
                &&& r matches Ok(pair) ==> pair.1 == value
                &&& if r is Ok {
                    self.spec_called(after, calls) && self.plan.spec_answered(
                        &after.plan,
                        seq![Ok(()), Ok(())],
                    )
                } else {
                    ||| self.spec_called(after, calls.take(1)) && self.plan.spec_answered(
                        &after.plan,
                        seq![spec_answer(r)],
                    )
                    ||| self.spec_called(after, calls) && self.plan.spec_answered(
                        &after.plan,
                        seq![Ok(()), spec_answer(r)],
                    )
                }
            },
        }
    }

    /// Assigns the value of the instance cell at `row` in `instance` to the
    /// advice cell at `offset` in `advice`, and constrains the two cells to
    /// be equal. Returns the advice cell and the value.
    ///
    /// Where the sink does not give the value, nothing is assigned. Where
    /// the assignment fails, nothing is constrained.
    pub fn assign_advice_from_instance(
        &mut self,
        annotation: &str,
        instance: Column<Instance>,
        row: usize,
        advice: Column<Advice>,
        offset: usize,
    ) -> (r: Result<(Cell, Value<F>), Error>)
        requires
            old(self).spec_has_row(offset),
        ensures
            old(self).spec_from_instance(
                final(self),
                annotation@,
                instance,
                row,
                advice,
                offset,
                r,
            ),
            r matches Ok(pair) ==> pair.0 == old(self).spec_cell(advice.spec_any(), offset),
    {
        let value = match self.plan.cs.query_instance(instance, row) {
            Ok(value) => value,
            Err(e) => {
                proof {
                    assert(self.plan.cs.calls() =~= old(self).plan.cs.calls() + Seq::empty());
                    assert(self.plan.cs.answers() =~= old(self).plan.cs.answers() + Seq::empty());
                }
                return Err(e);
            },
        };
        let to = match value.inner {
            Some(v) => Value::known(Assigned::Trivial(v)),
            None => Value::unknown(),
        };
        let ghost assign = SinkCall::AssignAdvice(
            annotation@,
            advice,
            old(self).spec_row(offset),
            to,
        );
        let ghost calls = old(self).spec_instance_calls(
            annotation@,
            instance,
            row,
            advice,
            offset,
            to,
        );
        let cell = match self.assign_advice(annotation, advice, offset, to) {
            Ok(cell) => cell,
            Err(e) => {
                proof {
                    assert(calls.take(1) =~= seq![assign]);
                    assert(old(self).spec_called(self, calls.take(1)));
                    assert(seq![spec_answer(Err::<Cell, Error>(e))] =~= seq![
                        spec_answer(Err::<(Cell, Value<F>), Error>(e)),
                    ]);
                }
                return Err(e);
            },
        };
        proof {
            assert(self.plan.cs.answers() =~= old(self).plan.cs.answers() + seq![Ok(())]);
        }
        let at = self.plan.regions[cell.region_index.0].0 + cell.row_offset;
        let copied = self.plan.cs.copy(
            cell.column,
            at,
            Column { index: instance.index, column_type: Any::Instance },
            row,
        );
        proof {
            assert(self.plan.cs.calls() =~= old(self).plan.cs.calls() + calls);
            assert(old(self).spec_called(self, calls));
            assert(self.plan.cs.answers() =~= old(self).plan.cs.answers() + seq![Ok(()), copied]);
        }
        let out = match copied {
            Ok(()) => Ok((cell, value)),
            Err(e) => Err(e),
        };
        proof {
            lemma_answer_itself(copied);
            assert(seq![Ok(()), copied] =~= seq![Ok(()), spec_answer(out)]);
        }
        out
    }

    /// Assigns `to` to the fixed cell at `offset` in `column`, and returns
    /// the cell.
    pub fn assign_fixed(
        &mut self,
        annotation: &str,
        column: Column<Fixed>,
        offset: usize,
        to: Value<Assigned<F>>,
    ) -> (r: Result<Cell, Error>)
        requires
            old(self).spec_has_row(offset),
        ensures
            old(self).spec_called(
                final(self),
                seq![SinkCall::AssignFixed(annotation@, column, old(self).spec_row(offset), to)],
            ),
            old(self).plan.spec_answered(&final(self).plan, seq![spec_answer(r)]),
            r matches Ok(cell) ==> cell == old(self).spec_cell(column.spec_any(), offset),
    {
        let row = self.plan.regions[self.region_index.0].0 + offset;
        let r = self.plan.cs.assign_fixed(annotation, column, row, to);
        proof {
            assert(self.plan.cs.answers() =~= old(self).plan.cs.answers() + seq![r]);
            assert(self.plan.cs.calls() =~= old(self).plan.cs.calls() + seq![
                SinkCall::AssignFixed(annotation@, column, row, to),
            ]);
        }
        let cell = match r {
            Ok(()) => Ok(
                Cell {
                    region_index: self.region_index,
                    row_offset: offset,
                    column: Column { index: column.index, column_type: Any::Fixed },
                },
            ),
            Err(e) => Err(e),
        };
        proof {
            lemma_answer_itself(r);
            assert(seq![r] =~= seq![spec_answer(cell)]);
        }
        cell
    }

    /// Records that `cell` is to be constrained to `constant`. The
    /// constants are assigned once all regions are.
    pub fn constrain_constant(&mut self, cell: Cell, constant: Assigned<F>) -> (r: Result<
        (),
        Error,
    >)
        ensures
            r is Ok,
            final(self).plan.constants@ == old(self).plan.constants@.push((constant, cell)),
            *final(self) == (V1Region {
                plan: V1Plan { constants: final(self).plan.constants, ..old(self).plan },
                ..*old(self)
            }),
    {
        self.plan.constants.push((constant, cell));
        Ok(())
    }

    /// Annotates `column`.
    pub fn name_column(&mut self, annotation: &str, column: Column<Any>)
        ensures
            old(self).spec_called(
                final(self),
                seq![SinkCall::AnnotateColumn(annotation@, column)],
            ),
            old(self).plan.spec_answered(&final(self).plan, seq![Ok(())]),
    {
        self.plan.cs.annotate_column(annotation, column);
        proof {
            assert(self.plan.cs.answers() =~= old(self).plan.cs.answers() + seq![Ok(())]);
            assert(self.plan.cs.calls() =~= old(self).plan.cs.calls() + seq![
                SinkCall::AnnotateColumn(annotation@, column),
            ]);
        }
    }

    /// Constrains the cells `left` and `right` to be equal.
    pub fn constrain_equal(&mut self, left: Cell, right: Cell) -> (r: Result<(), Error>)
        requires
            old(self).plan.spec_has_cell(left),
            old(self).plan.spec_has_cell(right),
        ensures
            old(self).spec_called(
                final(self),
                seq![
                    SinkCall::Copy(
                        left.column,
                        old(self).plan.spec_row(left),
                        right.column,
                        old(self).plan.spec_row(right),
                    ),
                ],
            ),
            old(self).plan.spec_answered(&final(self).plan, seq![r]),
    {
        let left_row = self.plan.row(&left);
        let right_row = self.plan.row(&right);
        let r = self.plan.cs.copy(left.column, left_row, right.column, right_row);
        proof {
            assert(self.plan.cs.answers() =~= old(self).plan.cs.answers() + seq![r]);
            assert(self.plan.cs.calls() =~= old(self).plan.cs.calls() + seq![
                SinkCall::Copy(left.column, left_row, right.column, right_row),
            ]);
        }
        r
    }
}

} // verus!

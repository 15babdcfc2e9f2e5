//! Wiring the constants of a circuit: each constant is assigned to a free
//! cell of a fixed column, and that cell is constrained to equal the cell
//! that uses the constant.

use super::plan::V1Plan;
use super::strategy::{
    lemma_end_bounds, spec_all, spec_end, spec_entry_owned, spec_largest_end, spec_region_of,
    AllocatedRegion, Allocations, CircuitAllocations,
};
use crate::circuit::cell::{Cell, RegionStart};
use crate::circuit::layouter::{RegionColumn, RegionShape};
use crate::circuit::value::Value;
use crate::middleware::{Any, Fixed};
use crate::plonk::circuit::Column;
use crate::plonk::{
    lemma_answer_itself, spec_until_failure, Assigned, Assignment, Error, SinkCall,
};
use vstd::prelude::*;

verus! {

/// The free rows of a column below `limit`, in rising order. `occupied`
/// says of each row whether it is allocated.
pub open spec fn spec_free_rows(occupied: spec_fn(int) -> bool, limit: int) -> Seq<usize>
    decreases limit,
{
    if limit <= 0 {
        Seq::empty()
    } else if occupied(limit - 1) {
        spec_free_rows(occupied, limit - 1)
    } else {
        spec_free_rows(occupied, limit - 1).push((limit - 1) as usize)
    }
}

impl CircuitAllocations {
    /// Whether `row` is allocated in `column`.
    pub open spec fn spec_occupied(&self, column: RegionColumn, row: int) -> bool {
        exists|p: int|
            0 <= p < self.columns@.len() && self.columns@[p] == column
                && #[trigger] self.allocations@[p].spec_occupied(row)
    }

    /// The free cells of the columns `columns` below the row `limit`: for
    /// each column in order, its free rows in rising order.
    pub open spec fn spec_positions(&self, columns: Seq<Column<Fixed>>, limit: int) -> Seq<
        (Column<Fixed>, usize),
    >
        decreases columns.len(),
    {
        if columns.len() == 0 {
            Seq::empty()
        } else {
            let column = columns.last();
            self.spec_positions(columns.drop_last(), limit) + spec_free_rows(
                |row: int| self.spec_occupied(RegionColumn::Column(column.spec_any()), row),
                limit,
            ).map_values(|row: usize| (column, row))
        }
    }

    /// Whether `row` is allocated in `column`.
    pub fn occupied(&self, column: &RegionColumn, row: usize) -> (r: bool)
        requires
            self.spec_wf(),
            row < usize::MAX,
        ensures
            r == self.spec_occupied(*column, row as int),
    {
        match self.position(column) {
            Some(p) => {
                let conflict = self.allocations[p].conflict(row, 1);
                proof {
                    let a = self.allocations@[p as int];
                    if conflict.is_some() {
                        assert(!a.spec_free(row as int, 1));
                        let i = choose|i: int|
                            0 <= i < a.0@.len() && super::strategy::spec_overlap(
                                row as int,
                                1,
                                (#[trigger] a.0@[i]).start as int,
                                a.0@[i].length as int,
                            );
                        assert(a.0@[i].start <= row < a.0@[i].start + a.0@[i].length);
                        assert(a.spec_occupied(row as int));
                    } else {
                        if self.spec_occupied(*column, row as int) {
                            let q = choose|q: int|
                                0 <= q < self.columns@.len() && self.columns@[q] == *column
                                    && #[trigger] self.allocations@[q].spec_occupied(row as int);
                            assert(q == p);
                            let i = choose|i: int|
                                0 <= i < a.0@.len() && (#[trigger] a.0@[i]).start <= row
                                    < a.0@[i].start + a.0@[i].length;
                            assert(super::strategy::spec_overlap(
                                row as int,
                                1,
                                a.0@[i].start as int,
                                a.0@[i].length as int,
                            ));
                        }
                    }
                }
                conflict.is_some()
            },
            None => {
                proof {
                    if self.spec_occupied(*column, row as int) {
                        let q = choose|q: int|
                            0 <= q < self.columns@.len() && self.columns@[q] == *column
                                && #[trigger] self.allocations@[q].spec_occupied(row as int);
                        assert(self.columns@.contains(*column));
                    }
                }
                false
            },
        }
    }

    /// The first `needed` free cells of the columns `columns` below the row
    /// `limit`, or all of them if there are fewer.
    pub fn constant_positions(&self, columns: &Vec<Column<Fixed>>, limit: usize, needed: usize) -> (r:
        Vec<(Column<Fixed>, usize)>)
        requires
            self.spec_wf(),
        ensures
            r@.len() <= needed,
            r@ == self.spec_positions(columns@, limit as int).take(
                if self.spec_positions(columns@, limit as int).len() <= needed {
                    self.spec_positions(columns@, limit as int).len() as int
                } else {
                    needed as int
                },
            ),
    {
        let mut out: Vec<(Column<Fixed>, usize)> = Vec::new();
        let ghost mut all: Seq<(Column<Fixed>, usize)> = Seq::empty();
        let mut k: usize = 0;
        while k < columns.len()
            invariant
                k <= columns.len(),
                self.spec_wf(),
                all == self.spec_positions(columns@.subrange(0, k as int), limit as int),
                out@.len() <= needed,
                out@ == all.take(
                    if all.len() <= needed {
                        all.len() as int
                    } else {
                        needed as int
                    },
                ),
            decreases columns.len() - k,
        {
            let column = columns[k];
            let any = RegionColumn::Column(Column { index: column.index, column_type: Any::Fixed });
            let ghost occupied = |row: int| self.spec_occupied(RegionColumn::Column(column.spec_any()), row);
            let ghost before = all;
            proof {
                assert(columns@.subrange(0, k + 1).drop_last() =~= columns@.subrange(0, k as int));
                assert(columns@.subrange(0, k + 1).last() == column);
            }
            let mut row: usize = 0;
            while row < limit
                invariant
                    row <= limit,
                    self.spec_wf(),
                    any == RegionColumn::Column(column.spec_any()),
                    occupied == |row: int|
                        self.spec_occupied(RegionColumn::Column(column.spec_any()), row),
                    all == before + spec_free_rows(occupied, row as int).map_values(
                        |free: usize| (column, free),
                    ),
                    out@.len() <= needed,
                    out@ == all.take(
                        if all.len() <= needed {
                            all.len() as int
                        } else {
                            needed as int
                        },
                    ),
                decreases limit - row,
            {
                let taken = self.occupied(&any, row);
                proof {
                    assert(occupied(row as int) == taken);
                    if !taken {
                        let rows = spec_free_rows(occupied, row as int);
                        let more = spec_free_rows(occupied, row + 1);
                        assert(more == rows.push(row));
                        assert(more.map_values(|free: usize| (column, free)) =~= rows.map_values(
                            |free: usize| (column, free),
                        ).push((column, row)));
                        assert(before + more.map_values(|free: usize| (column, free)) =~= all.push(
                            (column, row),
                        ));
                    }
                }
                if !taken {
                    let ghost old_all = all;
                    proof {
                        all = all.push((column, row));
                    }
                    if out.len() < needed {
                        out.push((column, row));
                        proof {
                            assert(old_all.len() < needed);
                            assert(out@ =~= all.take(all.len() as int));
                            assert(all.take(all.len() as int) =~= all);
                            if all.len() > needed {
                                assert(false);
                            }
                        }
                    } else {
                        proof {
                            assert(out@ =~= all.take(needed as int));
                        }
                    }
                }
                row += 1;
            }
            k += 1;
        }
        proof {
            assert(columns@.subrange(0, columns@.len() as int) =~= columns@);
        }
        out
    }
}

impl<F: Copy, CS: Assignment<F>> V1Plan<F, CS> {
    /// The calls that wire the first `count` constants: for each constant
    /// in the order in which the constants were recorded, the constant is
    /// assigned to the fixed cell at its position, and that cell is
    /// constrained to equal the cell that the constant was recorded for.
    pub open spec fn spec_wiring(&self, positions: Seq<(Column<Fixed>, usize)>, count: int) -> Seq<
        SinkCall<F>,
    >
        decreases count,
    {
        if count <= 0 {
            Seq::empty()
        } else {
            let constant = self.constants@[count - 1];
            let position = positions[count - 1];
            self.spec_wiring(positions, count - 1).push(
                SinkCall::AssignFixed(
                    "Constant"@,
                    position.0,
                    position.1,
                    Value { inner: Some(constant.0) },
                ),
            ).push(
                SinkCall::Copy(
                    position.0.spec_any(),
                    position.1,
                    constant.1.column,
                    self.spec_row(constant.1),
                ),
            )
        }
    }

    /// Assigns the constants of the plan to the cells at `positions`, and
    /// constrains each of these cells to equal the cell that the constant
    /// was recorded for.
    ///
    /// Where there are fewer positions than constants, nothing is assigned
    /// and the error says that there are not enough columns for constants.
    /// Else the constants are wired in order, until a call on the sink
    /// fails.
    pub fn assign_constants(&mut self, positions: &Vec<(Column<Fixed>, usize)>) -> (r: Result<
        (),
        Error,
    >)
        requires
            old(self).spec_constants_placed(),
        ensures
            final(self).regions == old(self).regions,
            final(self).constants == old(self).constants,
            final(self).table_columns == old(self).table_columns,
            positions@.len() < old(self).constants@.len() ==> r is Err && r->Err_0
                is NotEnoughColumnsForConstants && final(self).cs == old(self).cs,
            positions@.len() >= old(self).constants@.len() ==> old(self).spec_wired(
                positions@,
                final(self).cs,
                r,
            ),
    {
        if positions.len() < self.constants.len() {
            return Err(Error::NotEnoughColumnsForConstants);
        }
        let ghost start = self.cs.calls();
        let ghost answers = Seq::<Result<(), Error>>::empty();
        let n = self.constants.len();
        let mut k: usize = 0;
        proof {
            assert(start + old(self).spec_wiring(positions@, 0) =~= start);
            assert(self.cs.answers() =~= old(self).cs.answers() + answers);
        }
        while k < n
            invariant
                k <= n,
                answers.len() == 2 * k,
                forall|j: int| 0 <= j < answers.len() ==> (#[trigger] answers[j]) is Ok,
                self.cs.answers() == old(self).cs.answers() + answers,
                n == self.constants@.len(),
                n <= positions@.len(),
                self.regions == old(self).regions,
                self.constants == old(self).constants,
                self.table_columns == old(self).table_columns,
                old(self).spec_constants_placed(),
                start == old(self).cs.calls(),
                self.cs.calls() == start + old(self).spec_wiring(positions@, k as int),
                old(self).spec_wiring(positions@, k as int).len() == 2 * k,
            decreases n - k,
        {
            let (fixed_column, fixed_row) = positions[k];
            let (value, advice) = self.constants[k];
            let ghost done = old(self).spec_wiring(positions@, k as int);
            let ghost all = old(self).spec_wiring(positions@, n as int);
            proof {
                lemma_wiring_take(*old(self), positions@, k + 1, n as int);
                assert(old(self).spec_has_cell(old(self).constants@[k as int].1));
            }
            let assigned = self.cs.assign_fixed(
                "Constant",
                fixed_column,
                fixed_row,
                Value::known(value),
            );
            proof {
                assert(old(self).cs.answers() + answers.push(assigned) =~= (old(self).cs.answers()
                    + answers).push(assigned));
                answers = answers.push(assigned);
            }
            match assigned {
                Ok(()) => {},
                Err(e) => {
                    proof {
                        let next = old(self).spec_wiring(positions@, k + 1);
                        assert(self.cs.calls() =~= start + next.take(2 * k + 1));
                        assert(next.take(2 * k + 1) =~= all.take(2 * k + 1));
                        assert(spec_until_failure(answers, Err(e)));
                    }
                    return Err(e);
                },
            }
            let at = self.regions[advice.region_index.0].0 + advice.row_offset;
            let copied = self.cs.copy(
                Column { index: fixed_column.index, column_type: Any::Fixed },
                fixed_row,
                advice.column,
                at,
            );
            proof {
                let next = old(self).spec_wiring(positions@, k + 1);
                assert(self.cs.calls() =~= start + next);
                assert(old(self).cs.answers() + answers.push(copied) =~= (old(self).cs.answers()
                    + answers).push(copied));
                answers = answers.push(copied);
            }
            match copied {
                Ok(()) => {},
                Err(e) => {
                    proof {
                        let next = old(self).spec_wiring(positions@, k + 1);
                        assert(next =~= all.take(2 * k + 2));
                        assert(spec_until_failure(answers, Err(e)));
                    }
                    return Err(e);
                },
            }
            k += 1;
        }
        proof {
            let all = old(self).spec_wiring(positions@, n as int);
            lemma_wiring_take(*old(self), positions@, n as int, n as int);
            assert(all.take(answers.len() as int) =~= all);
            assert(spec_until_failure(answers, Ok(()))) by {
                if answers.len() > 0 {
                    lemma_answer_itself(answers.last());
                }
            }
        }
        Ok(())
    }

    /// Whether `sink` is the sink of the plan after its constants were
    /// wired to `positions` with the result `r`: the calls that wire the
    /// constants were made in order until one failed, and `r` is the
    /// answer to the last of them.
    pub open spec fn spec_wired(
        &self,
        positions: Seq<(Column<Fixed>, usize)>,
        sink: CS,
        r: Result<(), Error>,
    ) -> bool {
        let wiring = self.spec_wiring(positions, self.constants@.len() as int);
        exists|answers: Seq<Result<(), Error>>|
            {
                &&& answers.len() <= wiring.len()
                &&& sink.calls() == self.cs.calls() + wiring.take(answers.len() as int)
                &&& sink.answers() == self.cs.answers() + answers
                &&& #[trigger] spec_until_failure(answers, r)
                &&& r is Ok ==> answers.len() == wiring.len()
            }
    }
}

/// Whether the row `row` of `column` lies in one of the regions `shapes`,
/// placed at `starts`.
pub open spec fn spec_covered(
    shapes: Seq<RegionShape>,
    starts: Seq<RegionStart>,
    column: RegionColumn,
    row: int,
) -> bool {
    exists|j: int|
        0 <= j < shapes.len() && (#[trigger] shapes[j]).columns@.contains(column) && starts[j].0
            <= row < starts[j].0 + shapes[j].row_count
}

/// A row of a column is allocated exactly if it lies in a region that is
/// placed: the free cells for constants are those that no region uses.
pub proof fn lemma_occupied_is_covered(
    allocations: CircuitAllocations,
    shapes: Seq<RegionShape>,
    starts: Seq<RegionStart>,
    column: RegionColumn,
    row: int,
)
    requires
        allocations.spec_wf(),
        allocations.spec_reflects(shapes, starts, spec_all(shapes)),
    ensures
        allocations.spec_occupied(column, row) == spec_covered(shapes, starts, column, row),
{
    if allocations.spec_occupied(column, row) {
        let p = choose|p: int|
            0 <= p < allocations.columns@.len() && allocations.columns@[p] == column
                && #[trigger] allocations.allocations@[p].spec_occupied(row);
        let entries = allocations.allocations@[p].0@;
        let t = choose|t: int|
            0 <= t < entries.len() && (#[trigger] entries[t]).start <= row < entries[t].start
                + entries[t].length;
        assert(spec_entry_owned(shapes, starts, spec_all(shapes), column, entries[t]));
        let j = choose|j: int|
            0 <= j < shapes.len() && #[trigger] spec_all(shapes)[j] && shapes[j].columns@.contains(
                column,
            ) && entries[t] == spec_region_of(shapes, starts, j);
        assert(shapes[j].columns@.contains(column));
    }
    if spec_covered(shapes, starts, column, row) {
        let j = choose|j: int|
            0 <= j < shapes.len() && (#[trigger] shapes[j]).columns@.contains(column)
                && starts[j].0 <= row < starts[j].0 + shapes[j].row_count;
        let k = choose|k: int| 0 <= k < shapes[j].columns@.len() && shapes[j].columns@[k] == column;
        assert(spec_all(shapes)[j]);
        assert(allocations.spec_has_entry(
            shapes[j].columns@[k],
            spec_region_of(shapes, starts, j),
        ));
        let (p, t) = choose|p: int, t: int|
            0 <= p < allocations.columns@.len() && allocations.columns@[p] == column && 0 <= t
                < allocations.allocations@[p].0@.len() && #[trigger] allocations.allocations@[p].0@[t]
                == spec_region_of(shapes, starts, j);
        assert(allocations.allocations@[p].spec_occupied(row));
    }
}

/// The row after the last row is the end of a region that holds a row,
/// unless it is zero.
pub proof fn lemma_end_attained(regions: Seq<AllocatedRegion>)
    ensures
        spec_end(regions) == 0 || exists|i: int|
            0 <= i < regions.len() && (#[trigger] regions[i]).length > 0 && regions[i].start
                + regions[i].length == spec_end(regions),
    decreases regions.len(),
{
    if regions.len() > 0 {
        lemma_end_attained(regions.drop_last());
        let before = spec_end(regions.drop_last());
        let last = regions.last();
        if last.length > 0 && last.start + last.length > before {
            assert(regions[regions.len() - 1] == last);
        } else if before != 0 {
            let i = choose|i: int|
                0 <= i < regions.drop_last().len() && (#[trigger] regions.drop_last()[i]).length > 0
                    && regions.drop_last()[i].start + regions.drop_last()[i].length == before;
            assert(regions[i] == regions.drop_last()[i]);
        }
    }
}

/// The first row that is allocated in no column is at or after the row
/// after the last row of each column, and it is that row of a column
/// unless it is zero.
pub proof fn lemma_largest_end(columns: Seq<Allocations>)
    ensures
        forall|p: int|
            0 <= p < columns.len() ==> (#[trigger] columns[p]).spec_unbounded_interval_start()
                <= spec_largest_end(columns),
        spec_largest_end(columns) == 0 || exists|p: int|
            0 <= p < columns.len() && (#[trigger] columns[p]).spec_unbounded_interval_start()
                == spec_largest_end(columns),
    decreases columns.len(),
{
    if columns.len() > 0 {
        lemma_largest_end(columns.drop_last());
        let before = spec_largest_end(columns.drop_last());
        assert forall|p: int| 0 <= p < columns.len() implies (
        #[trigger] columns[p]).spec_unbounded_interval_start() <= spec_largest_end(columns) by {
            if p < columns.len() - 1 {
                assert(columns[p] == columns.drop_last()[p]);
            }
        }
        if columns.last().spec_unbounded_interval_start() > before {
            assert(columns[columns.len() - 1] == columns.last());
        } else if before != 0 {
            let p = choose|p: int|
                0 <= p < columns.drop_last().len() && (
                #[trigger] columns.drop_last()[p]).spec_unbounded_interval_start() == before;
            assert(columns[p] == columns.drop_last()[p]);
        }
    }
}

/// Whether the region `j` holds a cell: it has a column and a row.
pub open spec fn spec_holds_cell(shapes: Seq<RegionShape>, j: int) -> bool {
    shapes[j].columns@.len() > 0 && shapes[j].row_count > 0
}

/// The first row that no region uses is at or after the end of every
/// region that holds a cell, and it is the end of such a region unless it
/// is zero.
pub proof fn lemma_first_unassigned_row(
    allocations: CircuitAllocations,
    shapes: Seq<RegionShape>,
    starts: Seq<RegionStart>,
)
    requires
        allocations.spec_wf(),
        allocations.spec_reflects(shapes, starts, spec_all(shapes)),
    ensures
        forall|j: int|
            0 <= j < shapes.len() && #[trigger] spec_holds_cell(shapes, j) ==> starts[j].0
                + shapes[j].row_count <= allocations.spec_first_unassigned_row(),
        allocations.spec_first_unassigned_row() == 0 || exists|j: int|
            0 <= j < shapes.len() && #[trigger] spec_holds_cell(shapes, j) && starts[j].0
                + shapes[j].row_count == allocations.spec_first_unassigned_row(),
{
    let columns = allocations.allocations@;
    let first = allocations.spec_first_unassigned_row();
    lemma_largest_end(columns);
    assert forall|j: int| 0 <= j < shapes.len() && #[trigger] spec_holds_cell(shapes, j) implies
        starts[j].0 + shapes[j].row_count <= first by {
        assert(spec_all(shapes)[j]);
        let entry = spec_region_of(shapes, starts, j);
        assert(allocations.spec_has_entry(shapes[j].columns@[0], entry));
        let (p, t) = choose|p: int, t: int|
            0 <= p < allocations.columns@.len() && allocations.columns@[p] == shapes[j].columns@[0]
                && 0 <= t < columns[p].0@.len() && #[trigger] columns[p].0@[t] == entry;
        lemma_end_bounds(columns[p].0@, t);
        assert(columns[p].spec_unbounded_interval_start() <= first);
    }
    if first != 0 {
        let p = choose|p: int|
            0 <= p < columns.len() && (#[trigger] columns[p]).spec_unbounded_interval_start()
                == first;
        lemma_end_attained(columns[p].0@);
        let t = choose|t: int|
            0 <= t < columns[p].0@.len() && (#[trigger] columns[p].0@[t]).length > 0
                && columns[p].0@[t].start + columns[p].0@[t].length == first;
        assert(spec_entry_owned(
            shapes,
            starts,
            spec_all(shapes),
            allocations.columns@[p],
            columns[p].0@[t],
        ));
        let j = choose|j: int|
            0 <= j < shapes.len() && #[trigger] spec_all(shapes)[j] && shapes[j].columns@.contains(
                allocations.columns@[p],
            ) && columns[p].0@[t] == spec_region_of(shapes, starts, j);
        assert(spec_holds_cell(shapes, j));
    }
}

/// The free rows of a column depend on which rows are allocated alone.
pub proof fn lemma_free_rows_agree(
    a: spec_fn(int) -> bool,
    b: spec_fn(int) -> bool,
    limit: int,
)
    requires
        forall|row: int| 0 <= row < limit ==> #[trigger] a(row) == b(row),
    ensures
        spec_free_rows(a, limit) == spec_free_rows(b, limit),
    decreases limit,
{
    if limit > 0 {
        lemma_free_rows_agree(a, b, limit - 1);
        assert(a(limit - 1) == b(limit - 1));
    }
}

/// The free cells for constants depend on the regions and their places
/// alone: two allocations of the same regions at the same places give the
/// same first row that no region uses, and the same free cells below it.
pub proof fn lemma_positions_agree(
    a: CircuitAllocations,
    b: CircuitAllocations,
    shapes: Seq<RegionShape>,
    starts: Seq<RegionStart>,
    constants: Seq<Column<Fixed>>,
)
    requires
        a.spec_wf(),
        b.spec_wf(),
        a.spec_reflects(shapes, starts, spec_all(shapes)),
        b.spec_reflects(shapes, starts, spec_all(shapes)),
    ensures
        a.spec_first_unassigned_row() == b.spec_first_unassigned_row(),
        a.spec_positions(constants, a.spec_first_unassigned_row()) == b.spec_positions(
            constants,
            b.spec_first_unassigned_row(),
        ),
{
    lemma_first_unassigned_row(a, shapes, starts);
    lemma_first_unassigned_row(b, shapes, starts);
    lemma_largest_end(a.allocations@);
    lemma_largest_end(b.allocations@);
    assert(a.spec_first_unassigned_row() >= 0) by {
        lemma_largest_end_nonnegative(a.allocations@);
    }
    assert(b.spec_first_unassigned_row() >= 0) by {
        lemma_largest_end_nonnegative(b.allocations@);
    }
    let limit = a.spec_first_unassigned_row();
    assert(limit == b.spec_first_unassigned_row());
    lemma_positions_agree_upto(a, b, shapes, starts, constants, limit);
}

/// The first row that is allocated in no column is not negative.
proof fn lemma_largest_end_nonnegative(columns: Seq<Allocations>)
    ensures
        spec_largest_end(columns) >= 0,
    decreases columns.len(),
{
    if columns.len() > 0 {
        lemma_largest_end_nonnegative(columns.drop_last());
    }
}

/// Two allocations of the same regions at the same places give the same
/// free cells below a row.
proof fn lemma_positions_agree_upto(
    a: CircuitAllocations,
    b: CircuitAllocations,
    shapes: Seq<RegionShape>,
    starts: Seq<RegionStart>,
    constants: Seq<Column<Fixed>>,
    limit: int,
)
    requires
        a.spec_wf(),
        b.spec_wf(),
        a.spec_reflects(shapes, starts, spec_all(shapes)),
        b.spec_reflects(shapes, starts, spec_all(shapes)),
    ensures
        a.spec_positions(constants, limit) == b.spec_positions(constants, limit),
    decreases constants.len(),
{
    if constants.len() > 0 {
        lemma_positions_agree_upto(a, b, shapes, starts, constants.drop_last(), limit);
        let column = RegionColumn::Column(constants.last().spec_any());
        let occupied_a = |row: int| a.spec_occupied(column, row);
        let occupied_b = |row: int| b.spec_occupied(column, row);
        assert forall|row: int| 0 <= row < limit implies #[trigger] occupied_a(row)
            == occupied_b(row) by {
            lemma_occupied_is_covered(a, shapes, starts, column, row);
            lemma_occupied_is_covered(b, shapes, starts, column, row);
        }
        lemma_free_rows_agree(occupied_a, occupied_b, limit);
    }
}

/// The calls that wire the first `count` constants are the beginning of
/// the calls that wire more of them: two calls for each constant.
pub proof fn lemma_wiring_take<F: Copy, CS: Assignment<F>>(
    plan: V1Plan<F, CS>,
    positions: Seq<(Column<Fixed>, usize)>,
    count: int,
    more: int,
)
    requires
        0 <= count <= more,
    ensures
        plan.spec_wiring(positions, count).len() == 2 * count,
        plan.spec_wiring(positions, more).len() == 2 * more,
        plan.spec_wiring(positions, more).take(2 * count) == plan.spec_wiring(positions, count),
    decreases more,
{
    if more > 0 {
        if count < more {
            lemma_wiring_take(plan, positions, count, more - 1);
            assert(plan.spec_wiring(positions, more).take(2 * count) =~= plan.spec_wiring(
                positions,
                more - 1,
            ).take(2 * count));
        } else {
            lemma_wiring_take(plan, positions, count - 1, more - 1);
            assert(plan.spec_wiring(positions, more).take(2 * count) =~= plan.spec_wiring(
                positions,
                count,
            ));
        }
    } else {
        assert(plan.spec_wiring(positions, more).take(2 * count) =~= plan.spec_wiring(
            positions,
            count,
        ));
    }
}

/// Every recorded constant is wired: the calls that wire the constants
/// hold, for the constant `k`, the assignment of the constant to the cell
/// at its position, followed by the constraint that this cell equals the
/// cell that the constant was recorded for.
pub proof fn lemma_every_constant_wired<F: Copy, CS: Assignment<F>>(
    plan: V1Plan<F, CS>,
    positions: Seq<(Column<Fixed>, usize)>,
    k: int,
)
    requires
        0 <= k < plan.constants@.len(),
        plan.constants@.len() <= positions.len(),
    ensures
        ({
            let wiring = plan.spec_wiring(positions, plan.constants@.len() as int);
            &&& wiring.len() == 2 * plan.constants@.len()
            &&& wiring[2 * k] == SinkCall::AssignFixed(
                "Constant"@,
                positions[k].0,
                positions[k].1,
                (Value { inner: Some(plan.constants@[k].0) }),
            )
            &&& wiring[2 * k + 1] == SinkCall::<F>::Copy(
                positions[k].0.spec_any(),
                positions[k].1,
                plan.constants@[k].1.column,
                plan.spec_row(plan.constants@[k].1),
            )
        }),
{
    let n = plan.constants@.len() as int;
    lemma_wiring_take(plan, positions, k + 1, n);
    lemma_wiring_take(plan, positions, k, k + 1);
    let upto = plan.spec_wiring(positions, k + 1);
    let all = plan.spec_wiring(positions, n);
    assert(all.take(2 * (k + 1))[2 * k] == all[2 * k]);
    assert(all.take(2 * (k + 1))[2 * k + 1] == all[2 * k + 1]);
}

/// The calls that wire the first `count` constants depend on the first
/// `count` positions only.
pub proof fn lemma_wiring_positions<F: Copy, CS: Assignment<F>>(
    plan: V1Plan<F, CS>,
    a: Seq<(Column<Fixed>, usize)>,
    b: Seq<(Column<Fixed>, usize)>,
    count: int,
)
    requires
        0 <= count <= a.len(),
        count <= b.len(),
        forall|k: int| 0 <= k < count ==> a[k] == b[k],
    ensures
        plan.spec_wiring(a, count) == plan.spec_wiring(b, count),
    decreases count,
{
    if count > 0 {
        lemma_wiring_positions(plan, a, b, count - 1);
    }
}

} // verus!

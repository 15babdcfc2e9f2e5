//! The two passes agree: what a circuit writes to a region while it is
//! assigned lies within the shape that the same writes gave the region
//! while it was measured.

use super::pass::{spec_target, spec_writes_to, Region};
use crate::circuit::layouter::{RegionColumn, RegionShape};
use crate::plonk::{Assignment, SinkCall};
use vstd::prelude::*;

verus! {

/// One thing that a circuit does with the handle of a region: it writes
/// the cell at `offset` in `column`, or it does something that writes no
/// cell. A write is `done` unless the sink kept it from being made.
pub enum Step {
    Write { column: RegionColumn, offset: usize, done: bool },
    Other,
}

/// Whether `after` is the handle `before` after `step`.
pub open spec fn spec_stepped<F: Copy, CS: Assignment<F>>(
    before: Region<F, CS>,
    step: Step,
    after: Region<F, CS>,
) -> bool {
    match step {
        Step::Write { column, offset, done } => before.spec_has_row(offset) && before.spec_wrote(
            &after,
            column,
            offset,
            done,
        ),
        Step::Other => before.spec_wrote_nothing(&after),
    }
}

/// Whether `handles` are the handle of a region before, between and after
/// the steps `steps`.
pub open spec fn spec_ran<F: Copy, CS: Assignment<F>>(
    handles: Seq<Region<F, CS>>,
    steps: Seq<Step>,
) -> bool {
    &&& handles.len() == steps.len() + 1
    &&& forall|i: int|
        0 <= i < steps.len() ==> #[trigger] spec_stepped(handles[i], steps[i], handles[i + 1])
}

/// Whether every cell that `calls` write lies within `shape`, placed at
/// the row `start`: in one of its columns, and in one of its rows.
pub open spec fn spec_within<F>(calls: Seq<SinkCall<F>>, shape: RegionShape, start: usize) -> bool {
    forall|k: int|
        0 <= k < calls.len() ==> (spec_target(#[trigger] calls[k]) matches Some(cell)
            ==> shape.columns@.contains(cell.0) && start <= cell.1 < start + shape.row_count)
}

/// Whether one of `calls` writes to the cell at `row` in `column`.
pub open spec fn spec_writes_at<F>(calls: Seq<SinkCall<F>>, column: RegionColumn, row: int) -> bool {
    exists|k: int|
        0 <= k < calls.len() && (spec_target(#[trigger] calls[k]) matches Some(cell) && cell.0
            == column && cell.1 == row)
}

/// Whether `calls` write every cell that the first `n` of `steps` wrote,
/// in a region placed at the row `start`.
pub open spec fn spec_all_written<F>(
    calls: Seq<SinkCall<F>>,
    steps: Seq<Step>,
    n: int,
    start: usize,
) -> bool {
    forall|i: int|
        0 <= i < n ==> ((#[trigger] steps[i]) matches Step::Write { column, offset, done }
            ==> done ==> spec_writes_at(calls, column, start + offset))
}

/// Whether the handles `measured` and `assigned` agree after the first
/// `n` of `steps`: the region that is assigned is the one it was, at the
/// place it was, and `calls` are the calls that were made on the sink
/// since the first handle; every cell that they write lies within the
/// shape that was measured, and they write every cell that a step wrote.
pub open spec fn spec_agree<F: Copy, CS: Assignment<F>>(
    measured: Seq<Region<F, CS>>,
    assigned: Seq<Region<F, CS>>,
    steps: Seq<Step>,
    n: int,
    calls: Seq<SinkCall<F>>,
) -> bool {
    &&& measured[n] matches Region::Measure(shape)
    &&& assigned[n] matches Region::Assign(region)
    &&& assigned[0] matches Region::Assign(first)
    &&& region.region_index == first.region_index
    &&& region.plan.regions == first.plan.regions
    &&& region.plan.cs.calls() == first.plan.cs.calls() + calls
    &&& spec_within(calls, shape, first.plan.regions@[first.region_index.0 as int].0)
    &&& spec_all_written(calls, steps, n, first.plan.regions@[first.region_index.0 as int].0)
}

/// The handles agree after each of the steps.
proof fn lemma_agree_upto<F: Copy, CS: Assignment<F>>(
    measured: Seq<Region<F, CS>>,
    assigned: Seq<Region<F, CS>>,
    steps: Seq<Step>,
    n: int,
) -> (calls: Seq<SinkCall<F>>)
    requires
        spec_ran(measured, steps),
        spec_ran(assigned, steps),
        measured[0] is Measure,
        assigned[0] is Assign,
        0 <= n <= steps.len(),
    ensures
        spec_agree(measured, assigned, steps, n, calls),
    decreases n,
{
    let first = assigned[0]->Assign_0;
    let start = first.plan.regions@[first.region_index.0 as int].0;
    if n == 0 {
        let none = Seq::<SinkCall<F>>::empty();
        assert(first.plan.cs.calls() + none =~= first.plan.cs.calls());
        none
    } else {
        let before = lemma_agree_upto(measured, assigned, steps, n - 1);
        let step = steps[n - 1];
        assert(spec_stepped(measured[n - 1], steps[n - 1], measured[n - 1 + 1]));
        assert(spec_stepped(assigned[n - 1], steps[n - 1], assigned[n - 1 + 1]));
        let shape0 = measured[n - 1]->Measure_0;
        let shape = measured[n]->Measure_0;
        let region0 = assigned[n - 1]->Assign_0;
        let region = assigned[n]->Assign_0;
        match step {
            Step::Write { column, offset, done } => {
                let row = region0.spec_row(offset);
                let more = choose|more: Seq<SinkCall<F>>|
                    {
                        &&& region.plan.cs.calls() == region0.plan.cs.calls() + more
                        &&& #[trigger] super::pass::spec_writes_only(more, column, row)
                        &&& done ==> spec_writes_to(more, column, row)
                    };
                let calls = before + more;
                assert(first.plan.cs.calls() + before + more =~= first.plan.cs.calls() + calls);
                assert(row == start + offset);
                assert(shape.columns@.contains(column)) by {
                    if !shape0.columns@.contains(column) {
                        assert(shape.columns@.last() == column);
                    }
                }
                assert forall|c: RegionColumn| shape0.columns@.contains(c) implies (
                #[trigger] shape.columns@.contains(c)) by {
                    let j = choose|j: int| 0 <= j < shape0.columns@.len() && shape0.columns@[j] == c;
                    assert(shape.columns@[j] == c);
                }
                assert(spec_within(calls, shape, start)) by {
                    assert forall|k: int| 0 <= k < calls.len() implies (spec_target(
                        #[trigger] calls[k],
                    ) matches Some(cell) ==> shape.columns@.contains(cell.0) && start <= cell.1
                        < start + shape.row_count) by {
                        if k < before.len() {
                            assert(calls[k] == before[k]);
                        } else {
                            assert(calls[k] == more[k - before.len()]);
                        }
                    }
                }
                assert(spec_all_written(calls, steps, n, start)) by {
                    assert forall|i: int| 0 <= i < n implies ((
                    #[trigger] steps[i]) matches Step::Write { column, offset, done } ==> done
                        ==> spec_writes_to(calls, column, (start + offset) as usize)) by {
                        if let Step::Write { column, offset, done } = steps[i] {
                            if done {
                                if i < n - 1 {
                                    lemma_still_written(before, more, column, start + offset);
                                } else {
                                    lemma_newly_written(before, more, column, row);
                                }
                            }
                        }
                    }
                }
                calls
            },
            Step::Other => {
                let more = choose|more: Seq<SinkCall<F>>|
                    {
                        &&& region.plan.cs.calls() == region0.plan.cs.calls() + more
                        &&& #[trigger] super::pass::spec_writes_none(more)
                    };
                let calls = before + more;
                assert(first.plan.cs.calls() + before + more =~= first.plan.cs.calls() + calls);
                assert(spec_within(calls, shape, start)) by {
                    assert forall|k: int| 0 <= k < calls.len() implies (spec_target(
                        #[trigger] calls[k],
                    ) matches Some(cell) ==> shape.columns@.contains(cell.0) && start <= cell.1
                        < start + shape.row_count) by {
                        if k < before.len() {
                            assert(calls[k] == before[k]);
                        } else {
                            assert(calls[k] == more[k - before.len()]);
                        }
                    }
                }
                assert(spec_all_written(calls, steps, n, start)) by {
                    assert forall|i: int| 0 <= i < n implies ((
                    #[trigger] steps[i]) matches Step::Write { column, offset, done } ==> done
                        ==> spec_writes_to(calls, column, (start + offset) as usize)) by {
                        if let Step::Write { column, offset, done } = steps[i] {
                            if done {
                                lemma_still_written(before, more, column, start + offset);
                            }
                        }
                    }
                }
                calls
            },
        }
    }
}

/// A cell that some calls write is written by these calls and more.
proof fn lemma_still_written<F>(
    calls: Seq<SinkCall<F>>,
    more: Seq<SinkCall<F>>,
    column: RegionColumn,
    row: int,
)
    requires
        spec_writes_at(calls, column, row),
    ensures
        spec_writes_at(calls + more, column, row),
{
    let k = choose|k: int|
        0 <= k < calls.len() && (spec_target(#[trigger] calls[k]) matches Some(cell) && cell.0
            == column && cell.1 == row);
    assert((calls + more)[k] == calls[k]);
}

/// A cell that some calls write is written by these calls after others.
proof fn lemma_newly_written<F>(
    calls: Seq<SinkCall<F>>,
    more: Seq<SinkCall<F>>,
    column: RegionColumn,
    row: usize,
)
    requires
        spec_writes_to(more, column, row),
    ensures
        spec_writes_at(calls + more, column, row as int),
{
    let k = choose|k: int|
        0 <= k < more.len() && spec_target(#[trigger] more[k]) == Some((column, row));
    assert((calls + more)[calls.len() + k] == more[k]);
}

/// One more than the largest offset that the first `n` of `steps` wrote
/// at, zero if they wrote nothing.
pub open spec fn spec_rows(steps: Seq<Step>, n: int) -> int
    decreases n,
{
    if n <= 0 {
        0
    } else {
        let before = spec_rows(steps, n - 1);
        match steps[n - 1] {
            Step::Write { column, offset, done } => if offset + 1 > before {
                offset + 1
            } else {
                before
            },
            Step::Other => before,
        }
    }
}

/// Whether `step` wrote to `column`.
pub open spec fn spec_writes_column(step: Step, column: RegionColumn) -> bool {
    step matches Step::Write { column: c, .. } && c == column
}

/// Whether one of the first `n` of `steps` wrote to `column`.
pub open spec fn spec_touches(steps: Seq<Step>, n: int, column: RegionColumn) -> bool {
    exists|i: int| 0 <= i < n && #[trigger] spec_writes_column(steps[i], column)
}

/// Whether `shape` is the shape that the first `n` of `steps` measure
/// from nothing: it lists the columns that were written to, each once,
/// and has one row more than the largest offset that was written at.
pub open spec fn spec_measures(shape: RegionShape, steps: Seq<Step>, n: int) -> bool {
    &&& shape.row_count == spec_rows(steps, n)
    &&& shape.columns@.no_duplicates()
    &&& forall|column: RegionColumn| #[trigger]
        shape.columns@.contains(column) <==> spec_touches(steps, n, column)
}

/// The shape of a region is measured from its writes alone: after the
/// steps of a region, a handle that began with an empty shape holds the
/// columns that were written to, each once, and one row more than the
/// largest offset that was written at.
pub proof fn lemma_shape_measured<F: Copy, CS: Assignment<F>>(
    measured: Seq<Region<F, CS>>,
    steps: Seq<Step>,
    n: int,
)
    requires
        spec_ran(measured, steps),
        measured[0] matches Region::Measure(shape) && shape.columns@.len() == 0 && shape.row_count
            == 0,
        0 <= n <= steps.len(),
    ensures
        measured[n] matches Region::Measure(shape) && spec_measures(shape, steps, n) && shape.region_index
            == measured[0]->Measure_0.region_index,
    decreases n,
{
    if n == 0 {
        let shape = measured[0]->Measure_0;
        assert forall|column: RegionColumn| #[trigger]
            shape.columns@.contains(column) <==> spec_touches(steps, 0, column) by {}
    } else {
        lemma_shape_measured(measured, steps, n - 1);
        assert(spec_stepped(measured[n - 1], steps[n - 1], measured[n - 1 + 1]));
        let before = measured[n - 1]->Measure_0;
        let shape = measured[n]->Measure_0;
        match steps[n - 1] {
            Step::Write { column, offset, done } => {
                assert(before.spec_written(&shape, column, offset));
                let had = before.columns@.contains(column);
                assert(shape.columns@ == if had {
                    before.columns@
                } else {
                    before.columns@.push(column)
                });
                assert(spec_writes_column(steps[n - 1], column));
                assert(shape.columns@.contains(column)) by {
                    if !had {
                        assert(shape.columns@.last() == column);
                    }
                }
                assert forall|c: RegionColumn| #[trigger]
                    shape.columns@.contains(c) <==> spec_touches(steps, n, c) by {
                    if shape.columns@.contains(c) && c != column {
                        let j = choose|j: int|
                            0 <= j < shape.columns@.len() && shape.columns@[j] == c;
                        assert(before.columns@[j] == c);
                        assert(before.columns@.contains(c));
                        let i = choose|i: int|
                            0 <= i < n - 1 && #[trigger] spec_writes_column(steps[i], c);
                        assert(spec_touches(steps, n, c));
                    }
                    if c == column {
                        assert(spec_touches(steps, n, c));
                    }
                    if spec_touches(steps, n, c) && c != column {
                        let i = choose|i: int|
                            0 <= i < n && #[trigger] spec_writes_column(steps[i], c);
                        assert(!spec_writes_column(steps[n - 1], c));
                        assert(i < n - 1);
                        assert(spec_touches(steps, n - 1, c));
                        assert(before.columns@.contains(c));
                        let j = choose|j: int|
                            0 <= j < before.columns@.len() && before.columns@[j] == c;
                        assert(shape.columns@[j] == c);
                    }
                }
            },
            Step::Other => {
                assert forall|c: RegionColumn| #[trigger]
                    shape.columns@.contains(c) <==> spec_touches(steps, n, c) by {
                    if spec_touches(steps, n, c) {
                        let i = choose|i: int|
                            0 <= i < n && #[trigger] spec_writes_column(steps[i], c);
                        assert(spec_touches(steps, n - 1, c));
                    }
                    if spec_touches(steps, n - 1, c) {
                        let i = choose|i: int|
                            0 <= i < n - 1 && #[trigger] spec_writes_column(steps[i], c);
                        assert(spec_touches(steps, n, c));
                    }
                }
            },
        }
    }
}

/// The passes agree on a region: where the handle of a region went
/// through the same steps while the circuit was measured and while it was
/// assigned, the region that is assigned is still the one it was, every
/// cell that was written on the sink lies within the shape that was
/// measured, placed at the first row of the region, and every cell that a
/// step wrote was written on the sink at its offset from that row.
pub proof fn lemma_pass_parity<F: Copy, CS: Assignment<F>>(
    measured: Seq<Region<F, CS>>,
    assigned: Seq<Region<F, CS>>,
    steps: Seq<Step>,
)
    requires
        spec_ran(measured, steps),
        spec_ran(assigned, steps),
        measured[0] is Measure,
        assigned[0] is Assign,
    ensures
        exists|calls: Seq<SinkCall<F>>| #[trigger]
            spec_agree(measured, assigned, steps, steps.len() as int, calls),
{
    let calls = lemma_agree_upto(measured, assigned, steps, steps.len() as int);
}

} // verus!

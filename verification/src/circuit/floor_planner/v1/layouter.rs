//! A single pass of the floor planner, as a circuit sees it.

use super::pass::{spec_entry_columns, spec_fills, AssignmentPass, MeasurementPass, Region};
use super::plan::V1Plan;
use crate::circuit::cell::{Cell, RegionIndex};
use crate::circuit::layouter::RegionShape;
use crate::circuit::table_layouter::{spec_table_checked, SimpleTableLayouter};
use crate::circuit::value::Value;
use crate::middleware::Instance;
use crate::plonk::circuit::{Challenge, Column};
use crate::plonk::{spec_answer, spec_until_failure, Assigned, Assignment, Error, SinkCall};
use vstd::prelude::*;

verus! {

/// The two passes.
pub enum Pass<F, CS: Assignment<F>> {
    /// The pass that measures the regions.
    Measurement(MeasurementPass),
    /// The pass that assigns the regions.
    Assignment(AssignmentPass<F, CS>),
}

/// A single pass of the [`V1`](super::V1) layouter.
pub struct V1Pass<F, CS: Assignment<F>>(pub Pass<F, CS>);

/// Whether `a` is the beginning of `b`.
pub open spec fn spec_begins<A>(a: Seq<A>, b: Seq<A>) -> bool {
    a.len() <= b.len() && b.subrange(0, a.len() as int) == a
}

/// A sequence with more appended begins with the sequence.
pub proof fn lemma_begins_add<A>(a: Seq<A>, more: Seq<A>)
    ensures
        spec_begins(a, a + more),
{
    assert((a + more).subrange(0, a.len() as int) =~= a);
}

/// The beginning of the beginning of a sequence is a beginning of the
/// sequence.
pub proof fn lemma_begins_transitive<A>(a: Seq<A>, b: Seq<A>, c: Seq<A>)
    requires
        spec_begins(a, b),
        spec_begins(b, c),
    ensures
        spec_begins(a, c),
{
    assert(c.subrange(0, a.len() as int) =~= b.subrange(0, a.len() as int));
}

impl<F: Copy, CS: Assignment<F>> V1Plan<F, CS> {
    /// Whether every cell that is to be constrained to a constant lies in
    /// a region of the plan.
    pub open spec fn spec_constants_placed(&self) -> bool {
        forall|k: int|
            0 <= k < self.constants@.len() ==> self.spec_has_cell((#[trigger] self.constants@[k]).1)
    }

    /// Whether `after` is a later state of the plan `self`: the regions
    /// are the same, and the calls on the sink, the constants and the table
    /// columns in use begin with those of `self`.
    pub open spec fn spec_continued(&self, after: &Self) -> bool {
        &&& after.regions == self.regions
        &&& spec_begins(self.cs.calls(), after.cs.calls())
        &&& spec_begins(self.constants@, after.constants@)
        &&& spec_begins(self.table_columns@, after.table_columns@)
    }

    /// A plan with more calls made on its sink, and nothing else changed,
    /// is a later state of the plan.
    pub proof fn lemma_called_continues(&self, after: &Self, calls: Seq<SinkCall<F>>)
        requires
            self.spec_called(after, calls),
        ensures
            self.spec_continued(after),
    {
        lemma_begins_add(self.cs.calls(), calls);
        assert(self.constants@.subrange(0, self.constants@.len() as int) =~= self.constants@);
        assert(self.table_columns@.subrange(0, self.table_columns@.len() as int)
            =~= self.table_columns@);
    }
}

impl<F: Copy, CS: Assignment<F>> V1Pass<F, CS> {
    /// The pass that measures with `pass`.
    pub fn measure(pass: MeasurementPass) -> (r: Self)
        ensures
            r.0 == Pass::<F, CS>::Measurement(pass),
    {
        V1Pass(Pass::Measurement(pass))
    }

    /// The pass that assigns with `pass`.
    pub fn assign(pass: AssignmentPass<F, CS>) -> (r: Self)
        ensures
            r.0 == Pass::Assignment(pass),
    {
        V1Pass(Pass::Assignment(pass))
    }

    /// Whether the pass is in order: no measured region lists a column
    /// twice; a pass that assigns holds its plan, can go on to a next
    /// region, and every cell that is to be constrained to a constant lies
    /// in a region of the plan.
    pub open spec fn spec_wf(&self) -> bool {
        match self.0 {
            Pass::Measurement(pass) => forall|i: int|
                0 <= i < pass.regions@.len() ==> (#[trigger] pass.regions@[i]).columns@.no_duplicates(),
            Pass::Assignment(pass) => pass.spec_wf() && pass.spec_plan().spec_constants_placed(),
        }
    }

    /// Whether `after` is a later state of the pass `self`: the same kind
    /// of pass, whose measured regions begin with those of `self`, or
    /// whose plan is a later state of that of `self`.
    pub open spec fn spec_continued(&self, after: &Self) -> bool {
        match (self.0, after.0) {
            (Pass::Measurement(before), Pass::Measurement(pass)) => spec_begins(
                before.regions@,
                pass.regions@,
            ),
            (Pass::Assignment(before), Pass::Assignment(pass)) => before.spec_plan().spec_continued(
                &pass.spec_plan(),
            ) && before.region_index <= pass.region_index,
            _ => false,
        }
    }

    /// Whether `region` is the handle that the next region is written by.
    pub open spec fn spec_next_region(&self, name: Seq<char>, region: Region<F, CS>) -> bool {
        match self.0 {
            Pass::Measurement(pass) => pass.spec_next_region(region),
            Pass::Assignment(pass) => pass.spec_next_region(name, region),
        }
    }

    /// Whether `after` is what a handle `region` may be left as: the same
    /// kind of handle; the shape of a measured region lists no column
    /// twice; and the plan of an assigned region is a later state of the
    /// plan, in which every cell that is to be constrained to a constant
    /// lies in a region.
    pub open spec fn spec_region_done(region: Region<F, CS>, after: Region<F, CS>) -> bool {
        match (region, after) {
            (Region::Measure(_), Region::Measure(shape)) => shape.columns@.no_duplicates(),
            (Region::Assign(before), Region::Assign(handle)) => before.plan.spec_continued(
                &handle.plan,
            ) && handle.plan.spec_constants_placed(),
            _ => false,
        }
    }

    /// A pass is a later state of itself.
    pub proof fn lemma_continued_itself(&self)
        ensures
            self.spec_continued(self),
    {
        match self.0 {
            Pass::Measurement(pass) => {
                assert(pass.regions@.subrange(0, pass.regions@.len() as int) =~= pass.regions@);
            },
            Pass::Assignment(pass) => {
                let plan = pass.spec_plan();
                assert(plan.cs.calls() + Seq::empty() =~= plan.cs.calls());
                plan.lemma_called_continues(&plan, Seq::empty());
            },
        }
    }

    /// A later state of a later state of a pass is a later state of the
    /// pass.
    pub proof fn lemma_continued_transitive(&self, mid: &Self, after: &Self)
        requires
            self.spec_continued(mid),
            mid.spec_continued(after),
        ensures
            self.spec_continued(after),
    {
        match (self.0, mid.0, after.0) {
            (Pass::Measurement(a), Pass::Measurement(b), Pass::Measurement(c)) => {
                lemma_begins_transitive(a.regions@, b.regions@, c.regions@);
            },
            (Pass::Assignment(a), Pass::Assignment(b), Pass::Assignment(c)) => {
                let (a, b, c) = (a.spec_plan(), b.spec_plan(), c.spec_plan());
                lemma_begins_transitive(a.cs.calls(), b.cs.calls(), c.cs.calls());
                lemma_begins_transitive(a.constants@, b.constants@, c.constants@);
                lemma_begins_transitive(a.table_columns@, b.table_columns@, c.table_columns@);
            },
            _ => {},
        }
    }

    /// A handle that is in order, and a later state of the handle that
    /// a region is written by, is what the handle may be left as.
    pub proof fn lemma_region_done(region: Region<F, CS>, after: Region<F, CS>)
        requires
            region.spec_continued(&after),
            after.spec_in_order(),
        ensures
            Self::spec_region_done(region, after),
    {
    }

    /// The handle that the next region is written by is in order.
    pub proof fn lemma_next_region_in_order(&self, name: Seq<char>, region: Region<F, CS>)
        requires
            self.spec_wf(),
            self.spec_next_region(name, region),
        ensures
            region.spec_in_order(),
    {
        if let Pass::Assignment(pass) = self.0 {
            let before = pass.spec_plan();
            let plan = region->Assign_0.plan;
            assert forall|k: int| 0 <= k < plan.constants@.len() implies plan.spec_has_cell(
                (#[trigger] plan.constants@[k]).1,
            ) by {
                assert(before.spec_has_cell(before.constants@[k].1));
            }
        }
    }

    /// Whether a next region can be written: a pass that assigns has not
    /// come to the last index.
    pub open spec fn spec_can_assign_region(&self) -> bool {
        self.0 matches Pass::Assignment(pass) ==> pass.region_index < usize::MAX
    }

    /// Whether a next region can be written.
    pub fn can_assign_region(&self) -> (r: bool)
        ensures
            r == self.spec_can_assign_region(),
    {
        match &self.0 {
            Pass::Measurement(_) => true,
            Pass::Assignment(pass) => pass.region_index < usize::MAX,
        }
    }

    /// Whether `cell` can be constrained: while the circuit is assigned,
    /// the cell lies in a region of the plan at a row that is a number of
    /// the machine.
    pub open spec fn spec_has_cell(&self, cell: Cell) -> bool {
        self.0 matches Pass::Assignment(pass) ==> pass.spec_plan().spec_has_cell(cell)
    }

    /// Whether `cell` can be constrained.
    pub fn has_cell(&self, cell: Cell) -> (r: bool)
        requires
            self.spec_wf(),
        ensures
            r == self.spec_has_cell(cell),
    {
        match &self.0 {
            Pass::Measurement(_) => true,
            Pass::Assignment(pass) => match &pass.plan {
                Some(plan) => plan.has_cell(&cell),
                None => true,
            },
        }
    }

    /// Assigns a region as [`assign_region`](Self::assign_region) does, if
    /// a next region can be written; else nothing is done.
    pub fn checked_assign_region<A, AR>(&mut self, name: &str, assignment: A) -> (r: Option<
        Result<AR, Error>,
    >) where A: FnOnce(&mut Region<F, CS>) -> Result<AR, Error>

        requires
            old(self).spec_wf(),
            forall|region: &mut Region<F, CS>|
                old(self).spec_next_region(name@, *region) ==> #[trigger] call_requires(
                    assignment,
                    (region,),
                ),
            forall|region: &mut Region<F, CS>, out: Result<AR, Error>|
                old(self).spec_next_region(name@, *region) && #[trigger] call_ensures(
                    assignment,
                    (region,),
                    out,
                ) ==> Self::spec_region_done(*region, *final(region)),
        ensures
            r is Some <==> old(self).spec_can_assign_region(),
            r is None ==> *final(self) == *old(self),
            final(self).spec_wf(),
            old(self).spec_continued(final(self)),
            r matches Some(given) ==> (exists|region: &mut Region<F, CS>|
                {
                    &&& #[trigger] call_ensures(assignment, (region,), given)
                    &&& old(self).spec_next_region(name@, *region)
                    &&& match (old(self).0, final(self).0, *final(region)) {
                        (
                            Pass::Measurement(before),
                            Pass::Measurement(pass),
                            Region::Measure(shape),
                        ) => if given is Ok {
                            pass.regions@ == before.regions@.push(shape)
                        } else {
                            pass.regions == before.regions
                        },
                        (Pass::Assignment(before), Pass::Assignment(pass), Region::Assign(done)) => {
                            &&& pass.region_index == before.region_index + 1
                            &&& done.plan.spec_called(
                                &pass.spec_plan(),
                                if given is Ok {
                                    seq![SinkCall::ExitRegion]
                                } else {
                                    Seq::empty()
                                },
                            )
                            &&& done.plan.spec_answered(
                                &pass.spec_plan(),
                                if given is Ok {
                                    seq![Ok(())]
                                } else {
                                    Seq::empty()
                                },
                            )
                        },
                        _ => false,
                    }
                }),
    {
        if self.can_assign_region() {
            Some(self.assign_region(name, assignment))
        } else {
            proof {
                self.lemma_continued_itself();
            }
            None
        }
    }

    /// Constrains a cell as [`constrain_instance`](Self::constrain_instance)
    /// does, if the cell can be constrained; else nothing is done.
    pub fn checked_constrain_instance(
        &mut self,
        cell: Cell,
        instance: Column<Instance>,
        row: usize,
    ) -> (r: Option<Result<(), Error>>)
        requires
            old(self).spec_wf(),
        ensures
            r is Some <==> old(self).spec_has_cell(cell),
            r is None ==> *final(self) == *old(self),
            final(self).spec_wf(),
            old(self).spec_continued(final(self)),
            r matches Some(given) ==> (old(self).0 is Measurement ==> given is Ok && *final(self) == *old(self)),
            r matches Some(given) ==> ((old(self).0 matches Pass::Assignment(before) ==> (final(self).0 matches Pass::Assignment(
                pass,
            ) && (pass.region_index == before.region_index && before.spec_plan().spec_called(
                &pass.spec_plan(),
                seq![
                    SinkCall::Copy(
                        cell.column,
                        before.spec_plan().spec_row(cell),
                        instance.spec_any(),
                        row,
                    ),
                ],
            ) && before.spec_plan().spec_answered(&pass.spec_plan(), seq![given]))))),
    {
        if self.has_cell(cell) {
            Some(self.constrain_instance(cell, instance, row))
        } else {
            proof {
                self.lemma_continued_itself();
            }
            None
        }
    }

    /// Assign a region of gates to an absolute row number.
    ///
    /// `assignment` writes the region through a handle. While the circuit
    /// is measured, the handle records the shape of the region, which is
    /// kept if `assignment` succeeds. While the circuit is assigned, the
    /// handle writes to the sink, between the calls that tell the sink
    /// that the region `name` is entered and, if `assignment` succeeds,
    /// left.
    pub fn assign_region<A, AR>(&mut self, name: &str, assignment: A) -> (r: Result<AR, Error>) where
        A: FnOnce(&mut Region<F, CS>) -> Result<AR, Error>,

        requires
            old(self).spec_wf(),
            old(self).spec_can_assign_region(),
            forall|region: &mut Region<F, CS>|
                old(self).spec_next_region(name@, *region) ==> #[trigger] call_requires(
                    assignment,
                    (region,),
                ),
            forall|region: &mut Region<F, CS>, out: Result<AR, Error>|
                old(self).spec_next_region(name@, *region) && #[trigger] call_ensures(
                    assignment,
                    (region,),
                    out,
                ) ==> Self::spec_region_done(*region, *final(region)),
        ensures
            final(self).spec_wf(),
            old(self).spec_continued(final(self)),
            exists|region: &mut Region<F, CS>|
                {
                    &&& #[trigger] call_ensures(assignment, (region,), r)
                    &&& old(self).spec_next_region(name@, *region)
                    &&& match (old(self).0, final(self).0, *final(region)) {
                        (
                            Pass::Measurement(before),
                            Pass::Measurement(pass),
                            Region::Measure(shape),
                        ) => if r is Ok {
                            pass.regions@ == before.regions@.push(shape)
                        } else {
                            pass.regions == before.regions
                        },
                        (Pass::Assignment(before), Pass::Assignment(pass), Region::Assign(done)) => {
                            &&& pass.region_index == before.region_index + 1
                            &&& done.plan.spec_called(
                                &pass.spec_plan(),
                                if r is Ok {
                                    seq![SinkCall::ExitRegion]
                                } else {
                                    Seq::empty()
                                },
                            )
                            &&& done.plan.spec_answered(
                                &pass.spec_plan(),
                                if r is Ok {
                                    seq![Ok(())]
                                } else {
                                    Seq::empty()
                                },
                            )
                        },
                        _ => false,
                    }
                },
    {
        match &mut self.0 {
            Pass::Measurement(pass) => {
                let ghost before = pass.regions@;
                let r = pass.assign_region(assignment);
                proof {
                    if r is Ok {
                        let shape = pass.regions@.last();
                        assert(pass.regions@.drop_last() =~= before);
                        assert(pass.regions@.subrange(0, before.len() as int) =~= before);
                        assert forall|i: int| 0 <= i < pass.regions@.len() implies (
                        #[trigger] pass.regions@[i]).columns@.no_duplicates() by {
                            if i < before.len() {
                                assert(pass.regions@[i] == before[i]);
                            }
                        }
                    } else {
                        assert(pass.regions@.subrange(0, before.len() as int) =~= before);
                    }
                }
                r
            },
            Pass::Assignment(pass) => {
                let ghost before = pass.spec_plan();
                let r = pass.assign_region(name, assignment);
                proof {
                    let region = choose|region: &mut Region<F, CS>|
                        {
                            &&& #[trigger] call_ensures(assignment, (region,), r)
                            &&& old(self).spec_next_region(name@, *region)
                            &&& *final(region) matches Region::Assign(done)
                            &&& done.plan.spec_called(
                                &pass.spec_plan(),
                                if r is Ok {
                                    seq![SinkCall::ExitRegion]
                                } else {
                                    Seq::empty()
                                },
                            )
                            &&& done.plan.spec_answered(
                                &pass.spec_plan(),
                                if r is Ok {
                                    seq![Ok(())]
                                } else {
                                    Seq::empty()
                                },
                            )
                        };
                    assert(Self::spec_region_done(*region, *final(region)));
                    let entered = region->Assign_0;
                    let done = final(region)->Assign_0;
                    lemma_begins_add(before.cs.calls(), seq![SinkCall::EnterRegion(name@)]);
                    lemma_begins_add(
                        done.plan.cs.calls(),
                        if r is Ok {
                            seq![SinkCall::<F>::ExitRegion]
                        } else {
                            Seq::empty()
                        },
                    );
                    lemma_begins_transitive(
                        before.cs.calls(),
                        entered.plan.cs.calls(),
                        done.plan.cs.calls(),
                    );
                    lemma_begins_transitive(
                        before.cs.calls(),
                        done.plan.cs.calls(),
                        pass.spec_plan().cs.calls(),
                    );
                }
                r
            },
        }
    }

    /// Assign a table region to an absolute row number.
    ///
    /// While the circuit is measured, nothing is done. While the circuit
    /// is assigned, `assignment` writes the table through a table
    /// layouter.
    pub fn assign_table<A>(&mut self, name: &str, assignment: A) -> (r: Result<(), Error>) where
        A: FnOnce(&mut SimpleTableLayouter<F, CS>) -> Result<(), Error>,

        requires
            old(self).spec_wf(),
            old(self).0 matches Pass::Assignment(pass) ==> forall|
                table: &mut SimpleTableLayouter<F, CS>,
            |
                pass.spec_next_table(name@, *table) ==> #[trigger] call_requires(
                    assignment,
                    (table,),
                ),
        ensures
            final(self).spec_wf(),
            old(self).0 is Measurement ==> r is Ok && *final(self) == *old(self),
            (old(self).0 matches Pass::Assignment(before) ==> (final(self).0 matches Pass::Assignment(
                pass,
            ) && (pass.region_index == before.region_index && exists|
                table: &mut SimpleTableLayouter<F, CS>,
                out: Result<(), Error>,
            |
                {
                    &&& #[trigger] call_ensures(assignment, (table,), out)
                    &&& before.spec_next_table(name@, *table)
                    &&& AssignmentPass::spec_table_assigned(
                        before.spec_plan(),
                        *final(table),
                        out,
                        pass.spec_plan(),
                        r,
                    )
                    &&& Self::spec_table_done(*table, *final(table))
                        ==> before.spec_plan().spec_continued(&pass.spec_plan())
                }))),
    {
        match &mut self.0 {
            Pass::Measurement(_) => Ok(()),
            Pass::Assignment(pass) => {
                let ghost before = *pass;
                let r = pass.assign_table(name, assignment);
                proof {
                    let (table, out) = choose|
                        table: &mut SimpleTableLayouter<F, CS>,
                        out: Result<(), Error>,
                    |
                        {
                            &&& #[trigger] call_ensures(assignment, (table,), out)
                            &&& before.spec_next_table(name@, *table)
                            &&& AssignmentPass::spec_table_assigned(
                                before.spec_plan(),
                                *final(table),
                                out,
                                pass.spec_plan(),
                                r,
                            )
                        };
                    Self::lemma_table_continues(
                        before.spec_plan(),
                        name@,
                        *table,
                        *final(table),
                        out,
                        pass.spec_plan(),
                        r,
                    );
                }
                r
            },
        }
    }

    /// Whether `after` is what a table layouter `table` may be left as:
    /// the calls on the sink and the table columns in use begin with those
    /// of `table`.
    pub open spec fn spec_table_done(
        table: SimpleTableLayouter<F, CS>,
        after: SimpleTableLayouter<F, CS>,
    ) -> bool {
        &&& spec_begins(table.cs.calls(), after.cs.calls())
        &&& spec_begins(table.used_columns@, after.used_columns@)
    }

    /// The plan after a table was assigned is a later state of the plan,
    /// if the table layouter was left as it may be.
    proof fn lemma_table_continues(
        before: V1Plan<F, CS>,
        name: Seq<char>,
        table: SimpleTableLayouter<F, CS>,
        done: SimpleTableLayouter<F, CS>,
        out: Result<(), Error>,
        after: V1Plan<F, CS>,
        r: Result<(), Error>,
    )
        requires
            table.cs.calls() == before.cs.calls() + seq![SinkCall::EnterRegion(name)],
            table.used_columns == before.table_columns,
            AssignmentPass::spec_table_assigned(before, done, out, after, r),
        ensures
            Self::spec_table_done(table, done) ==> before.spec_continued(&after),
    {
        if Self::spec_table_done(table, done) {
            Self::lemma_table_done_continues(before, name, table, done, out, after, r);
        }
    }

    /// The plan after a table was assigned is a later state of the plan,
    /// where the table layouter was left as it may be.
    proof fn lemma_table_done_continues(
        before: V1Plan<F, CS>,
        name: Seq<char>,
        table: SimpleTableLayouter<F, CS>,
        done: SimpleTableLayouter<F, CS>,
        out: Result<(), Error>,
        after: V1Plan<F, CS>,
        r: Result<(), Error>,
    )
        requires
            table.cs.calls() == before.cs.calls() + seq![SinkCall::EnterRegion(name)],
            table.used_columns == before.table_columns,
            Self::spec_table_done(table, done),
            AssignmentPass::spec_table_assigned(before, done, out, after, r),
        ensures
            before.spec_continued(&after),
    {
        lemma_begins_add(before.cs.calls(), seq![SinkCall::EnterRegion(name)]);
        lemma_begins_transitive(before.cs.calls(), table.cs.calls(), done.cs.calls());
        assert(before.constants@.subrange(0, before.constants@.len() as int) =~= before.constants@);
        let entries = done.default_and_assigned@;
        match out {
            Err(_) => {},
            Ok(_) => {
                let checked = choose|checked: Result<usize, Error>| #[trigger]
                    spec_table_checked(entries, checked) && match checked {
                        Err(_) => after.cs.calls() == done.cs.calls() + seq![SinkCall::ExitRegion]
                            && after.table_columns == done.used_columns,
                        Ok(first_unused) => exists|answers: Seq<Result<(), Error>>|
                            {
                                &&& after.cs.calls() == done.cs.calls().push(SinkCall::ExitRegion)
                                    + spec_fills(entries, first_unused).take(answers.len() as int)
                                &&& #[trigger] spec_until_failure(answers, spec_answer(r))
                                &&& after.table_columns@ == done.used_columns@
                                    + spec_entry_columns(entries)
                            },
                    };
                match checked {
                    Err(_) => {
                        lemma_begins_add(done.cs.calls(), seq![SinkCall::ExitRegion]);
                        lemma_begins_add(done.used_columns@, Seq::empty());
                        assert(done.used_columns@ + Seq::empty() =~= done.used_columns@);
                    },
                    Ok(first_unused) => {
                        let answers = choose|answers: Seq<Result<(), Error>>|
                            {
                                &&& after.cs.calls() == done.cs.calls().push(SinkCall::ExitRegion)
                                    + spec_fills(entries, first_unused).take(answers.len() as int)
                                &&& #[trigger] spec_until_failure(answers, spec_answer(r))
                                &&& after.table_columns@ == done.used_columns@
                                    + spec_entry_columns(entries)
                            };
                        let fills = spec_fills(entries, first_unused).take(answers.len() as int);
                        assert(done.cs.calls().push(SinkCall::ExitRegion) + fills
                            =~= done.cs.calls() + (seq![SinkCall::ExitRegion] + fills));
                        lemma_begins_add(done.cs.calls(), seq![SinkCall::ExitRegion] + fills);
                        lemma_begins_add(done.used_columns@, spec_entry_columns(entries));
                    },
                }
                lemma_begins_transitive(before.cs.calls(), done.cs.calls(), after.cs.calls());
                lemma_begins_transitive(
                    before.table_columns@,
                    done.used_columns@,
                    after.table_columns@,
                );
            },
        }
    }

    /// Constrains a cell to equal an instance column's row value at an
    /// absolute position. While the circuit is measured, nothing is done.
    pub fn constrain_instance(&mut self, cell: Cell, instance: Column<Instance>, row: usize) -> (r:
        Result<(), Error>)
        requires
            old(self).spec_wf(),
            old(self).0 matches Pass::Assignment(pass) ==> pass.spec_plan().spec_has_cell(cell),
        ensures
            final(self).spec_wf(),
            old(self).spec_continued(final(self)),
            old(self).0 is Measurement ==> r is Ok && *final(self) == *old(self),
            (old(self).0 matches Pass::Assignment(before) ==> (final(self).0 matches Pass::Assignment(
                pass,
            ) && (pass.region_index == before.region_index && before.spec_plan().spec_called(
                &pass.spec_plan(),
                seq![
                    SinkCall::Copy(
                        cell.column,
                        before.spec_plan().spec_row(cell),
                        instance.spec_any(),
                        row,
                    ),
                ],
            ) && before.spec_plan().spec_answered(&pass.spec_plan(), seq![r])))),
    {
        match &mut self.0 {
            Pass::Measurement(pass) => {
                proof {
                    assert(pass.regions@.subrange(0, pass.regions@.len() as int) =~= pass.regions@);
                }
                Ok(())
            },
            Pass::Assignment(pass) => {
                let ghost before = pass.spec_plan();
                let r = pass.constrain_instance(cell, instance, row);
                proof {
                    lemma_begins_add(
                        before.cs.calls(),
                        seq![
                            SinkCall::Copy(cell.column, before.spec_row(cell), instance.spec_any(), row),
                        ],
                    );
                    assert(before.constants@.subrange(0, before.constants@.len() as int)
                        =~= before.constants@);
                    assert(before.table_columns@.subrange(0, before.table_columns@.len() as int)
                        =~= before.table_columns@);
                }
                r
            },
        }
    }

    /// Queries the value of the given challenge: unknown while the circuit
    /// is measured, and as the sink gives it while the circuit is
    /// assigned.
    pub fn get_challenge(&self, challenge: Challenge) -> (r: Value<F>)
        requires
            self.spec_wf(),
        ensures
            self.0 is Measurement ==> r.inner.is_none(),
            self.0 matches Pass::Assignment(pass) ==> r == pass.spec_plan().cs.spec_challenge(
                challenge,
            ),
    {
        match &self.0 {
            Pass::Measurement(_) => Value::unknown(),
            Pass::Assignment(pass) => match &pass.plan {
                Some(plan) => plan.cs.get_challenge(challenge),
                None => Value::unknown(),
            },
        }
    }

    /// The layouter at the root of the namespaces, which is this one.
    pub fn get_root(&mut self) -> (r: &mut Self)
        ensures
            *r == *old(self),
            *final(self) == *final(r),
    {
        self
    }

    /// Creates a new (sub)namespace and enters into it. While the circuit
    /// is measured, nothing is done.
    pub fn push_namespace(&mut self, name: &str)
        requires
            old(self).spec_wf(),
        ensures
            final(self).spec_wf(),
            old(self).0 is Measurement ==> *final(self) == *old(self),
            (old(self).0 matches Pass::Assignment(before) ==> (final(self).0 matches Pass::Assignment(
                pass,
            ) && (pass.region_index == before.region_index && before.spec_plan().spec_called(
                &pass.spec_plan(),
                seq![SinkCall::PushNamespace(name@)],
            ) && before.spec_plan().spec_answered(&pass.spec_plan(), seq![Ok(())])))),
            old(self).spec_continued(final(self)),
    {
        match &mut self.0 {
            Pass::Measurement(pass) => {
                proof {
                    assert(pass.regions@.subrange(0, pass.regions@.len() as int) =~= pass.regions@);
                }
            },
            Pass::Assignment(pass) => {
                let mut plan = pass.plan.take().unwrap();
                let ghost before = plan;
                plan.cs.push_namespace(name);
                proof {
                    assert(plan.cs.calls() =~= before.cs.calls() + seq![
                        SinkCall::PushNamespace(name@),
                    ]);
                    assert(plan.cs.answers() =~= before.cs.answers() + seq![Ok(())]);
                    before.lemma_called_continues(&plan, seq![SinkCall::PushNamespace(name@)]);
                }
                pass.plan = Some(plan);
            },
        }
    }

    /// Exits out of the existing namespace. While the circuit is measured,
    /// nothing is done.
    pub fn pop_namespace(&mut self, gadget_name: Option<String>)
        requires
            old(self).spec_wf(),
        ensures
            final(self).spec_wf(),
            old(self).0 is Measurement ==> *final(self) == *old(self),
            (old(self).0 matches Pass::Assignment(before) ==> (final(self).0 matches Pass::Assignment(
                pass,
            ) && (pass.region_index == before.region_index && before.spec_plan().spec_called(
                &pass.spec_plan(),
                seq![
                    SinkCall::PopNamespace(
                        match gadget_name {
                            Some(name) => Some(name@),
                            None => None,
                        },
                    ),
                ],
            ) && before.spec_plan().spec_answered(&pass.spec_plan(), seq![Ok(())])))),
            old(self).spec_continued(final(self)),
    {
        match &mut self.0 {
            Pass::Measurement(pass) => {
                proof {
                    assert(pass.regions@.subrange(0, pass.regions@.len() as int) =~= pass.regions@);
                }
            },
            Pass::Assignment(pass) => {
                let mut plan = pass.plan.take().unwrap();
                let ghost before = plan;
                plan.cs.pop_namespace(gadget_name);
                proof {
                    let call = plan.cs.calls().last();
                    assert(plan.cs.calls() =~= before.cs.calls() + seq![call]);
                    assert(plan.cs.answers() =~= before.cs.answers() + seq![Ok(())]);
                    before.lemma_called_continues(&plan, seq![call]);
                }
                pass.plan = Some(plan);
            },
        }
    }
}

} // verus!

//! The two-pass floor planner.

pub mod constants;
pub mod layouter;
pub mod parity;
pub mod pass;
pub mod plan;
pub mod strategy;

pub use pass::{AssignmentPass, MeasurementPass, Region};
pub use layouter::{Pass, V1Pass};
pub use plan::{V1Plan, V1Region};
pub use strategy::CircuitAllocations;

use crate::circuit::layouter::RegionShape;
use crate::middleware::Fixed;
use crate::plonk::circuit::{Circuit, Column, FloorPlanner};
use crate::plonk::{spec_until_failure, Assignment, Error};
use layouter::{lemma_begins_add, lemma_begins_transitive};
use constants::lemma_wiring_positions;
use strategy::{
    lemma_layout_unique, slot_in_biggest_advice_first, spec_all, spec_placed, spec_total_rows,
};
use vstd::prelude::*;

verus! {

/// The version 1 floor planner.
///
/// - No column optimizations are performed. Circuit configuration is left
///   entirely to the circuit designer.
/// - A dual-pass layouter is used to measure regions prior to assignment.
/// - Regions are measured as rectangles, bounded on the cells they assign.
/// - Regions are laid out using a greedy first-fit strategy, after sorting
///   regions by their "advice area" (number of advice columns * rows).
#[derive(Debug)]
pub struct V1;

/// The number of rows of all of `shapes` together, if it is a number of
/// the machine.
pub fn total_rows(shapes: &Vec<RegionShape>) -> (r: Option<usize>)
    ensures
        r.is_some() <==> spec_total_rows(shapes@) <= usize::MAX,
        r matches Some(total) ==> total == spec_total_rows(shapes@),
{
    let mut total: usize = 0;
    let mut i: usize = 0;
    while i < shapes.len()
        invariant
            i <= shapes.len(),
            total == spec_total_rows(shapes@.subrange(0, i as int)),
        decreases shapes.len() - i,
    {
        proof {
            assert(shapes@.subrange(0, i + 1).drop_last() =~= shapes@.subrange(0, i as int));
            assert(shapes@.subrange(0, i + 1).last() == shapes@[i as int]);
            lemma_total_rows_grows(shapes@, i + 1);
        }
        let rows = shapes[i].row_count;
        if rows > usize::MAX - total {
            return None;
        }
        total += rows;
        i += 1;
    }
    proof {
        assert(shapes@.subrange(0, shapes@.len() as int) =~= shapes@);
    }
    Some(total)
}

/// The first regions have at most as many rows as all regions together.
pub proof fn lemma_total_rows_grows(shapes: Seq<RegionShape>, upto: int)
    requires
        0 <= upto <= shapes.len(),
    ensures
        spec_total_rows(shapes.subrange(0, upto)) <= spec_total_rows(shapes),
    decreases shapes.len() - upto,
{
    if upto < shapes.len() {
        lemma_total_rows_grows(shapes, upto + 1);
        assert(shapes.subrange(0, upto + 1).drop_last() =~= shapes.subrange(0, upto));
    } else {
        assert(shapes.subrange(0, upto) =~= shapes);
    }
}

/// Whether `pass` is a pass that has measured nothing yet.
pub open spec fn spec_measuring<F, CS: Assignment<F>>(pass: V1Pass<F, CS>) -> bool {
    pass.0 matches Pass::Measurement(measure) && measure.regions@.len() == 0
}

/// Whether `pass` is a pass that has assigned nothing yet, through a plan
/// of the sink `cs` that has no constants and no table columns, and in
/// which each of `shapes` is placed at the first row at which it fits.
pub open spec fn spec_assigning<F: Copy, CS: Assignment<F>>(
    pass: V1Pass<F, CS>,
    cs: CS,
    shapes: Seq<RegionShape>,
) -> bool {
    &&& pass.0 matches Pass::Assignment(assign)
    &&& assign.region_index == 0
    &&& assign.plan matches Some(plan)
    &&& plan.cs == cs
    &&& spec_placed(shapes, plan.regions@)
    &&& plan.constants@.len() == 0
    &&& plan.table_columns@.len() == 0
}

/// The places of the regions depend on the shapes alone: two passes that
/// assign a circuit whose regions were measured with the same shapes hold
/// the same starting rows.
pub proof fn lemma_plans_agree<F: Copy, CS: Assignment<F>>(
    first: V1Pass<F, CS>,
    first_sink: CS,
    second: V1Pass<F, CS>,
    second_sink: CS,
    shapes: Seq<RegionShape>,
)
    requires
        spec_assigning(first, first_sink, shapes),
        spec_assigning(second, second_sink, shapes),
    ensures
        first.0->Assignment_0.spec_plan().regions@ == second.0->Assignment_0.spec_plan().regions@,
{
    lemma_layout_unique(
        shapes,
        first.0->Assignment_0.spec_plan().regions@,
        second.0->Assignment_0.spec_plan().regions@,
    );
}

/// Whether `r` is what the planner returns once the circuit was assigned
/// with the result `assigned`, which left the plan `plan`. The error of
/// the circuit is handed on, with the sink as the circuit left it. Else
/// the constants that the plan recorded are wired, in order, to the free
/// cells of `constants` below the first row that no region uses. Where
/// these cells are fewer than the constants, the sink stays as the
/// circuit left it, and the error says that there are not enough columns
/// for constants.
pub open spec fn spec_finished<F: Copy, CS: Assignment<F>>(
    shapes: Seq<RegionShape>,
    plan: V1Plan<F, CS>,
    constants: Seq<Column<Fixed>>,
    assigned: Result<(), Error>,
    r: (CS, Result<(), Error>),
) -> bool {
    match assigned {
        Err(e) => r.0 == plan.cs && r.1 == Err::<(), Error>(e),
        Ok(_) => exists|allocations: CircuitAllocations|
            {
                let positions = allocations.spec_positions(
                    constants,
                    allocations.spec_first_unassigned_row(),
                );
                &&& allocations.spec_wf()
                &&& #[trigger] allocations.spec_reflects(shapes, plan.regions@, spec_all(shapes))
                &&& if positions.len() < plan.constants@.len() {
                    r.0 == plan.cs && r.1 == Err::<(), Error>(Error::NotEnoughColumnsForConstants)
                } else {
                    plan.spec_wired(positions, r.0, r.1)
                }
            },
    }
}

/// The error that ends the synthesis before the circuit is assigned, if
/// there is one: the error with which the circuit was `measured`, or
/// a synthesis error if the rows of `shapes` together are no number of the
/// machine.
pub open spec fn spec_stopped(shapes: Seq<RegionShape>, measured: Result<(), Error>) -> Option<
    Error,
> {
    match measured {
        Err(e) => Some(e),
        Ok(_) => if spec_total_rows(shapes) > usize::MAX {
            Some(Error::Synthesis)
        } else {
            None
        },
    }
}

impl FloorPlanner for V1 {
    /// Synthesizes `circuit` in two passes. The first pass measures the
    /// regions of the circuit, which is synthesized without its witnesses
    /// on a pass that has measured nothing. The regions are then placed,
    /// first fit, by falling advice area. The second pass assigns the
    /// regions at their places: the circuit is synthesized on a pass that
    /// assigns to the sink `cs`. At last the constants that were recorded
    /// are assigned to the free cells of `constants` below the first row
    /// that no region uses, and constrained to equal the cells that use
    /// them.
    ///
    /// The first error ends the synthesis. An error of the first pass
    /// leaves the sink untouched. Regions whose rows together are no
    /// number of the machine are a synthesis error, and the sink is
    /// untouched. An error of the second pass leaves the sink as that pass
    /// left it. Where the free cells are fewer than the constants, the
    /// error says that there are not enough columns for constants, and no
    /// constant is assigned.
    fn synthesize<F: Copy, CS: Assignment<F>, C: Circuit<F>>(
        cs: CS,
        circuit: &C,
        config: C::Config,
        constants: Vec<Column<Fixed>>,
    ) -> (r: (CS, Result<(), Error>))
        ensures
            exists|
                blank: C,
                copy: C::Config,
                measuring: &mut V1Pass<F, CS>,
                measured: Result<(), Error>,
            |
                {
                    &&& call_ensures(C::without_witnesses, (circuit,), blank)
                    &&& call_ensures(<C::Config as Clone>::clone, (&config,), copy)
                    &&& #[trigger] call_ensures(
                        C::synthesize::<CS>,
                        (&blank, copy, measuring),
                        measured,
                    )
                    &&& spec_measuring(*measuring)
                    &&& (*final(measuring)).0 matches Pass::Measurement(measure)
                    &&& match spec_stopped(measure.regions@, measured) {
                        Some(e) => r.0 == cs && r.1 == Err::<(), Error>(e),
                        None => exists|assigning: &mut V1Pass<F, CS>, assigned: Result<(), Error>|
                            {
                                &&& #[trigger] call_ensures(
                                    C::synthesize::<CS>,
                                    (circuit, config, assigning),
                                    assigned,
                                )
                                &&& spec_assigning(*assigning, cs, measure.regions@)
                                &&& (*final(assigning)).0 matches Pass::Assignment(done)
                                &&& done.plan is Some
                                &&& spec_finished(
                                    measure.regions@,
                                    done.spec_plan(),
                                    constants@,
                                    assigned,
                                    r,
                                )
                            },
                    }
                },
    {
        let mut plan = match V1Plan::new(cs) {
            Ok(plan) => plan,
            Err(e) => {
                proof {
                    assert(false);
                }
                vstd::pervasive::unreached()
            },
        };
        proof {
            lemma_begins_add(cs.calls(), Seq::empty());
            assert(cs.calls() + Seq::empty() =~= cs.calls());
        }

        // First pass: measure the regions within the circuit.
        let mut measuring: V1Pass<F, CS> = V1Pass::measure(MeasurementPass::new());
        let measured = circuit.without_witnesses().synthesize(config.clone(), &mut measuring);
        match measured {
            Ok(()) => {},
            Err(e) => {
                return (plan.cs, Err(e));
            },
        }
        let measure = match measuring.0 {
            Pass::Measurement(measure) => measure,
            Pass::Assignment(_) => {
                proof {
                    assert(false);
                }
                vstd::pervasive::unreached()
            },
        };

        // Planning:
        // - Position the regions.
        if total_rows(&measure.regions).is_none() {
            return (plan.cs, Err(Error::Synthesis));
        }
        let ghost shapes = measure.regions@;
        let (regions, column_allocations) = slot_in_biggest_advice_first(measure.regions);
        plan.regions = regions;

        // - Determine how many rows our planned circuit will require.
        let first_unassigned_row = column_allocations.first_unassigned_row();

        // Second pass:
        // - Assign the regions.
        let mut assigning = V1Pass::assign(AssignmentPass::new(plan));
        let assigned = circuit.synthesize(config, &mut assigning);
        let pass = match assigning.0 {
            Pass::Assignment(pass) => pass,
            Pass::Measurement(_) => {
                proof {
                    assert(false);
                }
                vstd::pervasive::unreached()
            },
        };
        let mut plan = pass.plan.unwrap();
        match assigned {
            Ok(()) => {},
            Err(e) => {
                return (plan.cs, Err(e));
            },
        }

        // - Assign the constants, to the free cells of the columns for
        //   constants within the rows of the plan.
        let positions = column_allocations.constant_positions(
            &constants,
            first_unassigned_row,
            plan.constants.len(),
        );
        let ghost before = plan.cs.calls();
        let ghost plan0 = plan;
        let wired = plan.assign_constants(&positions);
        proof {
            let all = column_allocations.spec_positions(
                constants@,
                column_allocations.spec_first_unassigned_row(),
            );
            let n = plan0.constants@.len() as int;
            if positions@.len() >= n {
                let wiring = plan0.spec_wiring(positions@, n);
                let answers = choose|answers: Seq<Result<(), Error>>|
                    {
                        &&& answers.len() <= wiring.len()
                        &&& plan.cs.calls() == before + wiring.take(answers.len() as int)
                        &&& plan.cs.answers() == plan0.cs.answers() + answers
                        &&& #[trigger] spec_until_failure(answers, wired)
                        &&& wired is Ok ==> answers.len() == wiring.len()
                    };
                lemma_begins_add(before, wiring.take(answers.len() as int));
                lemma_wiring_positions(plan0, positions@, all, n);
                assert(plan0.spec_wired(all, plan.cs, wired));
            } else {
                lemma_begins_add(before, Seq::empty());
                assert(before + Seq::empty() =~= before);
            }
            lemma_begins_transitive(cs.calls(), before, plan.cs.calls());
            assert(column_allocations.spec_reflects(shapes, plan0.regions@, spec_all(shapes)));
            assert(spec_finished(shapes, plan0, constants@, assigned, (plan.cs, wired)));
        }
        (plan.cs, wired)
    }
}

} // verus!

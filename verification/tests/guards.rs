use halo2_common::circuit::floor_planner::v1::{
    AssignmentPass, MeasurementPass, Pass, Region, V1Pass, V1Plan, V1Region,
};
use halo2_common::circuit::layouter::RegionShape;
use halo2_common::circuit::{Cell, RegionIndex, RegionStart, Value};
use halo2_common::middleware::{Advice, Any, Fixed, Instance, Rotation};
use halo2_common::plonk::circuit::guards::{all_selectors_below, simple_free, single_selector};
use halo2_common::plonk::circuit::sealed::Phase;
use halo2_common::plonk::circuit::{
    AdviceQuery, Challenge, Column, Constraint, ConstraintSystem, Expression, Selector,
    VirtualCells,
};
use halo2_common::plonk::{Assigned, Assignment, Error};

#[derive(Debug, Default)]
struct Counter {
    calls: usize,
}

impl Assignment<u64> for Counter {
    fn enter_region(&mut self, _: &str) {
        self.calls += 1;
    }

    fn annotate_column(&mut self, _: &str, _: Column<Any>) {
        self.calls += 1;
    }

    fn exit_region(&mut self) {
        self.calls += 1;
    }

    fn enable_selector(&mut self, _: &str, _: &Selector, _: usize) -> Result<(), Error> {
        self.calls += 1;
        Ok(())
    }

    fn query_instance(&self, _: Column<Instance>, _: usize) -> Result<Value<u64>, Error> {
        Ok(Value::known(5))
    }

    fn assign_advice(
        &mut self,
        _: &str,
        _: Column<Advice>,
        _: usize,
        _: Value<Assigned<u64>>,
    ) -> Result<(), Error> {
        self.calls += 1;
        Ok(())
    }

    fn assign_fixed(
        &mut self,
        _: &str,
        _: Column<Fixed>,
        _: usize,
        _: Value<Assigned<u64>>,
    ) -> Result<(), Error> {
        self.calls += 1;
        Ok(())
    }

    fn copy(&mut self, _: Column<Any>, _: usize, _: Column<Any>, _: usize) -> Result<(), Error> {
        self.calls += 1;
        Ok(())
    }

    fn fill_from_row(
        &mut self,
        _: Column<Fixed>,
        _: usize,
        _: Value<Assigned<u64>>,
    ) -> Result<(), Error> {
        self.calls += 1;
        Ok(())
    }

    fn get_challenge(&self, _: Challenge) -> Value<u64> {
        Value::unknown()
    }

    fn push_namespace(&mut self, _: &str) {
        self.calls += 1;
    }

    fn pop_namespace(&mut self, _: Option<String>) {
        self.calls += 1;
    }
}

fn simple(index: usize) -> Expression<u64> {
    Expression::Selector(Selector(index, true))
}

fn complex(index: usize) -> Expression<u64> {
    Expression::Selector(Selector(index, false))
}

fn advice_query(column_index: usize, index: Option<usize>) -> Expression<u64> {
    Expression::Advice(AdviceQuery {
        index,
        column_index,
        rotation: Rotation(0),
        phase: Phase(0),
    })
}

fn product(a: Expression<u64>, b: Expression<u64>) -> Expression<u64> {
    Expression::Product(Box::new(a), Box::new(b))
}

#[test]
fn selectors_are_tested_against_a_bound() {
    let expr = product(simple(1), Expression::Negated(Box::new(complex(4))));
    assert!(expr.selectors_below(5));
    assert!(!expr.selectors_below(4));
    assert!(!expr.selectors_below(0));
    assert!(advice_query(9, None).selectors_below(0));
    assert!(all_selectors_below(&vec![simple(0), complex(2)], 3));
    assert!(!all_selectors_below(&vec![simple(0), complex(2)], 2));
    assert!(all_selectors_below::<u64>(&vec![], 0));
}

#[test]
fn advice_queries_are_tested_against_the_columns() {
    let open = advice_query(3, None);
    let indexed = advice_query(3, Some(0));
    assert!(open.advice_below(4));
    assert!(!open.advice_below(3));
    assert!(indexed.advice_below(0));
    assert!(!product(indexed, open).advice_below(3));
}

#[test]
fn simple_selectors_are_counted() {
    let none = product(complex(0), advice_query(0, None));
    let one = product(simple(2), advice_query(0, None));
    let twice = product(simple(2), Expression::Scaled(Box::new(simple(2)), 7));
    let two = product(simple(2), product(complex(1), simple(3)));
    assert_eq!(none.first_simple_selector(), None);
    assert_eq!(one.first_simple_selector(), Some(Selector(2, true)));
    assert_eq!(two.first_simple_selector(), Some(Selector(2, true)));
    assert!(none.at_most_one_simple_selector());
    assert!(one.at_most_one_simple_selector());
    assert!(twice.at_most_one_simple_selector());
    assert!(!two.at_most_one_simple_selector());
    assert!(two.only_simple_selector(Selector(2, true)) == false);
    assert!(one.only_simple_selector(Selector(2, true)));
    assert!(!one.only_simple_selector(Selector(2, false)));
    assert!(none.only_simple_selector(Selector(9, true)));
    assert!(simple_free(&vec![none.clone(), complex(3)]));
    assert!(!simple_free(&vec![none.clone(), one.clone()]));
    assert!(single_selector(&vec![none, one, twice.clone()]));
    assert!(!single_selector(&vec![twice, two]));
}

#[test]
fn selectors_of_a_system_are_tested() {
    let mut cs = ConstraintSystem::<u64>::default();
    let a = cs.advice_column();
    let s = cs.selector();
    let t = cs.selector();
    cs.create_gate("gate", |meta: &mut VirtualCells<u64>| {
        let a = meta.query_advice(a, Rotation::cur());
        let s = meta.query_selector(s);
        vec![Constraint::from(s * a)]
    });
    assert!(cs.selectors_sound());

    // A selector that was not allocated.
    let mut unallocated = ConstraintSystem::<u64>::default();
    unallocated.create_gate("gate", |_: &mut VirtualCells<u64>| {
        vec![Constraint::from(simple(0))]
    });
    assert!(!unallocated.selectors_sound());

    // Two simple selectors in one polynomial.
    cs.create_gate("two", |meta: &mut VirtualCells<u64>| {
        let s = meta.query_selector(s);
        let t = meta.query_selector(t);
        vec![Constraint::from(product(s, t))]
    });
    assert!(!cs.selectors_sound());
}

#[test]
fn gates_and_pairs_are_tested() {
    let mut cs = ConstraintSystem::<u64>::default();
    cs.advice_column();
    let table = cs.lookup_table_column();
    let cells = VirtualCells::new(cs);
    assert!(!cells.gate_ready(&vec![]));
    assert!(cells.gate_ready(&vec![Constraint::from(advice_query(0, None))]));
    assert!(!cells.gate_ready(&vec![Constraint::from(advice_query(1, None))]));
    assert!(cells.pairs_ready(&vec![(advice_query(0, None), complex(0))]));
    assert!(!cells.pairs_ready(&vec![(advice_query(0, None), simple(0))]));
    assert!(!cells.pairs_ready(&vec![(advice_query(2, None), complex(0))]));
    assert!(cells.table_pairs_ready(&vec![(advice_query(0, None), table)]));
    assert!(!cells.table_pairs_ready(&vec![(simple(0), table)]));
    assert!(!cells.table_pairs_ready(&vec![(advice_query(1, None), table)]));
}

fn plan(regions: Vec<usize>) -> V1Plan<u64, Counter> {
    let mut plan = V1Plan::new(Counter::default()).unwrap();
    plan.regions = regions.into_iter().map(RegionStart).collect();
    plan
}

fn cell(region: usize, row_offset: usize) -> Cell {
    Cell {
        region_index: RegionIndex(region),
        row_offset,
        column: Column::new(0, Any::Advice(Advice { phase: 0 })),
    }
}

#[test]
fn rows_and_cells_of_a_region_are_tested() {
    let measured: Region<u64, Counter> = Region::Measure(RegionShape::new(RegionIndex(0)));
    assert!(measured.has_row(0));
    assert!(measured.has_row(usize::MAX - 1));
    assert!(!measured.has_row(usize::MAX));
    assert!(measured.has_cell(cell(7, usize::MAX)));

    let assigned = Region::Assign(V1Region::new(plan(vec![10, usize::MAX - 1]), RegionIndex(1)));
    assert!(assigned.has_row(0));
    assert!(assigned.has_row(1));
    assert!(!assigned.has_row(2));
    assert!(assigned.has_cell(cell(0, usize::MAX - 10)));
    assert!(!assigned.has_cell(cell(0, usize::MAX - 9)));
    assert!(!assigned.has_cell(cell(2, 0)));

    let beyond = Region::Assign(V1Region::new(plan(vec![10]), RegionIndex(1)));
    assert!(!beyond.has_row(0));
}

#[test]
fn checked_writes_do_nothing_without_a_row() {
    let column = Column::new(0, Advice { phase: 0 });
    let fixed = Column::new(0, Fixed);
    let value = Value::known(Assigned::Trivial(1u64));
    let mut region = Region::Assign(V1Region::new(plan(vec![usize::MAX - 1]), RegionIndex(0)));
    assert!(matches!(region.checked_assign_advice("a", column, 1, value), Some(Ok(_))));
    assert!(region.checked_assign_advice("a", column, 2, value).is_none());
    assert!(region.checked_assign_fixed("f", fixed, 2, value).is_none());
    assert!(region.checked_enable_selector("s", &Selector(0, true), 2).is_none());
    assert!(Selector(0, true).checked_enable(&mut region, 2).is_none());
    assert!(matches!(Selector(0, true).checked_enable(&mut region, 0), Some(Ok(()))));
    assert!(region
        .checked_assign_advice_from_constant("c", column, 2, Assigned::Trivial(3))
        .is_none());
    assert!(region
        .checked_assign_advice_from_instance("i", Column::new(0, Instance), 0, column, 2)
        .is_none());
    assert!(region.checked_constrain_equal(cell(0, 0), cell(1, 0)).is_none());
    assert!(matches!(region.checked_constrain_equal(cell(0, 0), cell(0, 1)), Some(Ok(()))));
    assert!(region.checked_constrain_constant(cell(3, 0), Assigned::Zero).is_none());
    assert!(matches!(
        region.checked_constrain_constant(cell(0, 1), Assigned::Zero),
        Some(Ok(()))
    ));
    match region {
        Region::Assign(region) => {
            // One advice cell, one selector and one copy went to the sink.
            assert_eq!(region.plan.cs.calls, 3);
            assert_eq!(region.plan.constants, vec![(Assigned::Zero, cell(0, 1))]);
        }
        Region::Measure(_) => unreachable!(),
    }
}

#[test]
fn checked_calls_on_a_pass() {
    let mut measuring: V1Pass<u64, Counter> = V1Pass::measure(MeasurementPass::new());
    assert!(measuring.can_assign_region());
    assert!(measuring.has_cell(cell(5, 0)));
    let measured = measuring.checked_assign_region("r", |region: &mut Region<u64, Counter>| {
        region.name_column("n", Column::new(0, Any::Fixed));
        Ok::<(), Error>(())
    });
    assert!(matches!(measured, Some(Ok(()))));
    match measuring.0 {
        Pass::Measurement(pass) => assert_eq!(pass.regions.len(), 1),
        Pass::Assignment(_) => unreachable!(),
    }

    let mut pass = AssignmentPass::new(plan(vec![4]));
    pass.region_index = usize::MAX;
    let mut assigning = V1Pass::assign(pass);
    assert!(!assigning.can_assign_region());
    let refused = assigning
        .checked_assign_region("r", |_: &mut Region<u64, Counter>| Ok::<(), Error>(()));
    assert!(refused.is_none());
    assert!(assigning.has_cell(cell(0, 3)));
    assert!(!assigning.has_cell(cell(1, 0)));
    assert!(assigning.checked_constrain_instance(cell(1, 0), Column::new(0, Instance), 0).is_none());
    assert!(matches!(
        assigning.checked_constrain_instance(cell(0, 3), Column::new(0, Instance), 0),
        Some(Ok(()))
    ));
}

use halo2_common::circuit::floor_planner::v1::strategy::{
    slot_in_biggest_advice_first, Allocations, CircuitAllocations,
};
use halo2_common::circuit::floor_planner::v1::{
    total_rows, AssignmentPass, MeasurementPass, Pass, Region, V1Pass, V1Plan, V1Region, V1,
};
use halo2_common::circuit::layouter::{RegionColumn, RegionShape};
use halo2_common::circuit::table_layouter::{
    compute_table_lengths, SimpleTableLayouter, TableEntry,
};
use halo2_common::circuit::{Cell, RegionIndex, RegionStart, Value};
use halo2_common::middleware::{Advice, Any, Fixed, Instance, Rotation};
use halo2_common::plonk::circuit::{
    Challenge, Circuit, Column, Constraint, ConstraintSystem, Expression, FloorPlanner, Selector,
    TableColumn, VirtualCells,
};
use halo2_common::plonk::{Assigned, Assignment, Error, TableError};

#[derive(Debug, Default)]
struct Recorder {
    log: Vec<String>,
    fail_fixed_at: Option<usize>,
    instance: Option<u64>,
}

fn show(value: &Value<Assigned<u64>>) -> String {
    match value.inner {
        None => "?".to_string(),
        Some(Assigned::Zero) => "0".to_string(),
        Some(Assigned::Trivial(v)) => format!("{v}"),
        Some(Assigned::Rational(n, d)) => format!("{n}/{d}"),
    }
}

fn kind(column: &Column<Any>) -> String {
    match column.column_type {
        Any::Advice(_) => format!("a{}", column.index),
        Any::Fixed => format!("f{}", column.index),
        Any::Instance => format!("i{}", column.index),
    }
}

impl Assignment<u64> for Recorder {
    fn enter_region(&mut self, name: &str) {
        self.log.push(format!("enter {name}"));
    }

    fn annotate_column(&mut self, annotation: &str, column: Column<Any>) {
        self.log.push(format!("annotate {annotation} {}", kind(&column)));
    }

    fn exit_region(&mut self) {
        self.log.push("exit".to_string());
    }

    fn enable_selector(&mut self, _: &str, selector: &Selector, row: usize) -> Result<(), Error> {
        self.log.push(format!("selector s{} @{row}", selector.0));
        Ok(())
    }

    fn query_instance(&self, _: Column<Instance>, _: usize) -> Result<Value<u64>, Error> {
        Ok(Value { inner: self.instance })
    }

    fn assign_advice(
        &mut self,
        _: &str,
        column: Column<Advice>,
        row: usize,
        to: Value<Assigned<u64>>,
    ) -> Result<(), Error> {
        self.log.push(format!("advice a{} @{row} = {}", column.index, show(&to)));
        Ok(())
    }

    fn assign_fixed(
        &mut self,
        _: &str,
        column: Column<Fixed>,
        row: usize,
        to: Value<Assigned<u64>>,
    ) -> Result<(), Error> {
        self.log.push(format!("fixed f{} @{row} = {}", column.index, show(&to)));
        let fixed = self.log.iter().filter(|line| line.starts_with("fixed")).count();
        if self.fail_fixed_at == Some(fixed) {
            return Err(Error::BoundsFailure);
        }
        Ok(())
    }

    fn copy(
        &mut self,
        left_column: Column<Any>,
        left_row: usize,
        right_column: Column<Any>,
        right_row: usize,
    ) -> Result<(), Error> {
        self.log.push(format!(
            "copy {} @{left_row} = {} @{right_row}",
            kind(&left_column),
            kind(&right_column)
        ));
        Ok(())
    }

    fn fill_from_row(
        &mut self,
        column: Column<Fixed>,
        row: usize,
        to: Value<Assigned<u64>>,
    ) -> Result<(), Error> {
        self.log.push(format!("fill f{} @{row} = {}", column.index, show(&to)));
        Ok(())
    }

    fn get_challenge(&self, challenge: Challenge) -> Value<u64> {
        Value::known(challenge.index as u64)
    }

    fn push_namespace(&mut self, name: &str) {
        self.log.push(format!("push {name}"));
    }

    fn pop_namespace(&mut self, name: Option<String>) {
        self.log.push(format!("pop {name:?}"));
    }
}

fn advice(index: usize) -> Column<Advice> {
    Column { index, column_type: Advice { phase: 0 } }
}

fn fixed(index: usize) -> Column<Fixed> {
    Column { index, column_type: Fixed }
}

fn known(v: u64) -> Value<Assigned<u64>> {
    Value::known(Assigned::Trivial(v))
}

fn shape(index: usize, columns: Vec<RegionColumn>, row_count: usize) -> RegionShape {
    RegionShape { region_index: RegionIndex(index), columns, row_count }
}

fn a(index: usize) -> RegionColumn {
    RegionColumn::Column(advice(index).into())
}

fn f(index: usize) -> RegionColumn {
    RegionColumn::Column(fixed(index).into())
}

#[test]
fn region_shape_spans_the_cells_written() {
    let mut shape = RegionShape::new(RegionIndex(4));
    assert_eq!(shape.row_count(), 0);
    let cell = shape.assign_advice::<u64>("a", advice(1), 3, Value::unknown()).unwrap();
    assert_eq!(
        cell,
        Cell { region_index: RegionIndex(4), row_offset: 3, column: advice(1).into() }
    );
    shape.assign_fixed::<u64>("f", fixed(0), 0, known(1)).unwrap();
    shape.assign_advice::<u64>("a", advice(1), 1, Value::unknown()).unwrap();
    shape.enable_selector("s", &Selector(2, true), 6).unwrap();
    shape.assign_advice_from_constant::<u64>("c", advice(2), 2, Assigned::Zero).unwrap();
    let (cell, value) = shape
        .assign_advice_from_instance::<u64>("i", Column::new(0, Instance), 9, advice(3), 0)
        .unwrap();
    assert_eq!(cell.column, advice(3).into());
    assert!(value.is_none());
    shape.constrain_equal(cell, cell).unwrap();
    shape.constrain_constant::<u64>(cell, Assigned::Zero).unwrap();
    shape.name_column("n", advice(9).into());
    assert!(shape.instance_value::<u64>(Column::new(0, Instance), 0).unwrap().is_none());
    assert_eq!(shape.region_index(), RegionIndex(4));
    assert_eq!(shape.row_count(), 7);
    assert_eq!(
        shape.columns(),
        &vec![a(1), f(0), RegionColumn::Selector(Selector(2, true)), a(2), a(3)]
    );
}

#[test]
fn regions_are_placed_first_fit_by_advice_area() {
    // Region 1 has the largest advice area and is placed first. Region 0
    // shares a column with it and goes below it; region 2 shares none and
    // starts at the top.
    let shapes = vec![
        shape(0, vec![a(0)], 2),
        shape(1, vec![a(0), a(1)], 3),
        shape(2, vec![a(2), f(0)], 4),
    ];
    let (starts, allocations) = slot_in_biggest_advice_first(shapes);
    assert_eq!(starts, vec![RegionStart(3), RegionStart(0), RegionStart(0)]);
    assert_eq!(allocations.first_unassigned_row(), 5);
    assert_eq!(allocations.columns, vec![a(0), a(1), a(2), f(0)]);
    assert_eq!(allocations.get(&a(0)).unwrap().unbounded_interval_start(), 5);
    assert_eq!(allocations.get(&a(1)).unwrap().unbounded_interval_start(), 3);
    assert_eq!(allocations.get(&f(0)).unwrap().unbounded_interval_start(), 4);
    assert!(allocations.get(&f(1)).is_none());
}

#[test]
fn regions_of_the_same_area_keep_their_order() {
    let shapes = vec![
        shape(0, vec![a(0)], 2),
        shape(1, vec![a(0)], 2),
        shape(2, vec![f(0), a(0)], 2),
        shape(3, vec![f(0)], 5),
    ];
    let (starts, allocations) = slot_in_biggest_advice_first(shapes);
    assert_eq!(starts, vec![RegionStart(0), RegionStart(2), RegionStart(4), RegionStart(6)]);
    assert_eq!(allocations.first_unassigned_row(), 11);
}

#[test]
fn a_region_fills_the_first_gap_that_holds_it() {
    // Regions of area 6, 5 and 4 take the rows 0..3 and 3..8 of the first
    // column and 3..7 of the second; the last region fits in the gap that
    // stays free on top of the second column.
    let shapes = vec![
        shape(0, vec![a(1)], 3),
        shape(1, vec![a(0), a(1)], 3),
        shape(2, vec![a(0)], 5),
        shape(3, vec![a(1)], 4),
    ];
    let (starts, _) = slot_in_biggest_advice_first(shapes);
    assert_eq!(starts, vec![RegionStart(7), RegionStart(0), RegionStart(3), RegionStart(3)]);
}

#[test]
fn layout_is_the_same_on_every_run() {
    let shapes = || {
        vec![
            shape(0, vec![a(0), f(0)], 4),
            shape(1, vec![a(1)], 4),
            shape(2, vec![a(0), a(1)], 2),
            shape(3, vec![], 0),
            shape(4, vec![f(0)], 1),
        ]
    };
    let (first, _) = slot_in_biggest_advice_first(shapes());
    let (second, _) = slot_in_biggest_advice_first(shapes());
    assert_eq!(first, second);
    assert_eq!(
        first,
        vec![RegionStart(0), RegionStart(0), RegionStart(4), RegionStart(0), RegionStart(4)]
    );
    assert_eq!(total_rows(&shapes()), Some(11));
    assert_eq!(total_rows(&vec![shape(0, vec![], usize::MAX), shape(1, vec![], 1)]), None);
}

#[test]
fn allocations_find_conflicts_and_free_cells() {
    let mut column = Allocations::new();
    assert_eq!(column.unbounded_interval_start(), 0);
    column.insert(2, 3);
    column.insert(8, 1);
    assert_eq!(column.unbounded_interval_start(), 9);
    assert_eq!(column.conflict(0, 2), None);
    assert_eq!(column.conflict(0, 3), Some(5));
    assert_eq!(column.conflict(4, 1), Some(5));
    assert_eq!(column.conflict(5, 3), None);
    assert_eq!(column.conflict(5, 4), Some(9));
    assert_eq!(column.conflict(3, 0), None);

    let mut allocations = CircuitAllocations::new();
    allocations.reserve(&vec![f(0), f(1)], 1, 2);
    allocations.reserve(&vec![f(1)], 4, 1);
    assert_eq!(allocations.first_fit(&vec![f(0), f(1)], 2, 5), 5);
    assert_eq!(allocations.first_fit(&vec![f(0)], 2, 5), 3);
    assert_eq!(allocations.first_fit(&vec![f(1)], 1, 5), 0);
    assert_eq!(allocations.first_fit(&vec![f(2)], 9, 5), 0);
    assert!(allocations.occupied(&f(1), 4));
    assert!(!allocations.occupied(&f(0), 4));
    assert_eq!(
        allocations.constant_positions(&vec![fixed(1), fixed(2), fixed(0)], 6, 100),
        vec![
            (fixed(1), 0),
            (fixed(1), 3),
            (fixed(1), 5),
            (fixed(2), 0),
            (fixed(2), 1),
            (fixed(2), 2),
            (fixed(2), 3),
            (fixed(2), 4),
            (fixed(2), 5),
            (fixed(0), 0),
            (fixed(0), 3),
            (fixed(0), 4),
            (fixed(0), 5),
        ]
    );
    assert_eq!(
        allocations.constant_positions(&vec![fixed(1), fixed(2)], 6, 4),
        vec![(fixed(1), 0), (fixed(1), 3), (fixed(1), 5), (fixed(2), 0)]
    );
    assert_eq!(allocations.constant_positions(&vec![fixed(1)], 0, 4), vec![]);
}

fn table_columns(count: usize) -> Vec<TableColumn> {
    let mut cs = ConstraintSystem::<u64>::default();
    (0..count).map(|_| cs.lookup_table_column()).collect()
}

fn entry(column: TableColumn, default: Option<u64>, assigned: Vec<bool>) -> TableEntry<u64> {
    TableEntry { column, default: default.map(known), assigned }
}

#[test]
fn table_lengths_must_agree() {
    let t = table_columns(3);
    assert!(matches!(compute_table_lengths::<u64>(&vec![]), Ok(0)));
    let uniform = vec![entry(t[0], Some(1), vec![true; 4]), entry(t[1], Some(2), vec![true; 4])];
    assert!(matches!(compute_table_lengths(&uniform), Ok(4)));

    let hole = vec![
        entry(t[0], Some(1), vec![true; 4]),
        entry(t[1], Some(2), vec![true, false, true, true]),
    ];
    match compute_table_lengths(&hole) {
        Err(Error::TableError(TableError::ColumnNotAssigned(c))) => assert_eq!(c, t[1]),
        other => panic!("{other:?}"),
    }
    let no_default = vec![entry(t[2], None, vec![true]), entry(t[1], None, vec![])];
    match compute_table_lengths(&no_default) {
        Err(Error::TableError(TableError::ColumnNotAssigned(c))) => assert_eq!(c, t[2]),
        other => panic!("{other:?}"),
    }
    let empty = vec![entry(t[0], Some(1), vec![])];
    assert!(matches!(
        compute_table_lengths(&empty),
        Err(Error::TableError(TableError::ColumnNotAssigned(_)))
    ));
    let uneven = vec![
        entry(t[2], Some(1), vec![true; 4]),
        entry(t[1], Some(2), vec![true; 4]),
        entry(t[0], Some(2), vec![true; 3]),
    ];
    match compute_table_lengths(&uneven) {
        Err(Error::TableError(TableError::UnevenColumnLengths(first, second))) => {
            assert_eq!(first, (t[0], 3));
            assert_eq!(second, (t[1], 4));
        }
        other => panic!("{other:?}"),
    }
}

#[test]
fn table_cells_are_assigned_once() {
    let t = table_columns(2);
    let mut table = SimpleTableLayouter::new(Recorder::default(), vec![t[1]]);
    assert!(matches!(
        table.assign_cell("used", t[1], 0, known(1)),
        Err(Error::TableError(TableError::UsedColumn(_)))
    ));
    assert!(table.cs.log.is_empty());
    table.assign_cell("cell", t[0], 2, known(7)).unwrap();
    table.assign_cell("cell", t[0], 0, known(5)).unwrap();
    assert_eq!(table.default_and_assigned.len(), 1);
    assert_eq!(table.default_and_assigned[0].assigned, vec![true, false, true]);
    assert_eq!(table.default_and_assigned[0].default, Some(known(5)));
    assert!(matches!(
        table.assign_cell("again", t[0], 0, known(6)),
        Err(Error::TableError(TableError::OverwriteDefault(_)))
    ));
    assert_eq!(table.default_and_assigned[0].default, Some(known(5)));
    assert_eq!(
        table.cs.log,
        vec!["fixed f0 @2 = 7", "fixed f0 @0 = 5", "fixed f0 @0 = 6"]
    );
}

fn plan(regions: Vec<usize>) -> V1Plan<u64, Recorder> {
    let mut plan = V1Plan::new(Recorder::default()).unwrap();
    plan.regions = regions.into_iter().map(RegionStart).collect();
    plan
}

#[test]
fn region_writes_go_to_absolute_rows() {
    let mut region = V1Region::new(plan(vec![10, 20]), RegionIndex(1));
    let cell = region.assign_advice("a", advice(0), 3, known(9)).unwrap();
    assert_eq!(
        cell,
        Cell { region_index: RegionIndex(1), row_offset: 3, column: advice(0).into() }
    );
    let fixed_cell = region.assign_fixed("f", fixed(1), 0, Value::unknown()).unwrap();
    region.enable_selector("s", &Selector(4, true), 2).unwrap();
    let other = Cell { region_index: RegionIndex(0), row_offset: 1, column: fixed(2).into() };
    region.constrain_equal(cell, other).unwrap();
    region.name_column("name", fixed(1).into());
    let constant = region
        .assign_advice_from_constant("c", advice(1), 5, Assigned::Trivial(42))
        .unwrap();
    region.constrain_constant(fixed_cell, Assigned::Zero).unwrap();
    region.plan.cs.instance = Some(77);
    let (copied, value) = region
        .assign_advice_from_instance("i", Column::new(3, Instance), 6, advice(2), 1)
        .unwrap();
    assert_eq!(copied.row_offset, 1);
    assert_eq!(value, Value::known(77));
    assert_eq!(region.instance_value(Column::new(3, Instance), 0).unwrap(), Value::known(77));
    assert_eq!(
        region.plan.cs.log,
        vec![
            "advice a0 @23 = 9",
            "fixed f1 @20 = ?",
            "selector s4 @22",
            "copy a0 @23 = f2 @11",
            "annotate name f1",
            "advice a1 @25 = 42",
            "advice a2 @21 = 77",
            "copy a2 @21 = i3 @6",
        ]
    );
    assert_eq!(
        region.plan.constants,
        vec![(Assigned::Trivial(42), constant), (Assigned::Zero, fixed_cell)]
    );
}

fn write_region(region: &mut Region<u64, Recorder>) -> Vec<Cell> {
    let first = region.assign_advice("a", advice(0), 3, known(9)).unwrap();
    let second = region.assign_fixed("f", fixed(1), 0, known(1)).unwrap();
    region.enable_selector("s", &Selector(4, true), 2).unwrap();
    region.name_column("name", fixed(1).into());
    let third = region
        .assign_advice_from_constant("c", advice(1), 5, Assigned::Trivial(42))
        .unwrap();
    region.constrain_equal(first, second).unwrap();
    vec![first, second, third]
}

#[test]
fn both_passes_write_the_same_cells() {
    let mut measured = Region::Measure(RegionShape::new(RegionIndex(1)));
    let mut assigned = Region::Assign(V1Region::new(plan(vec![10, 20]), RegionIndex(1)));
    let cells = write_region(&mut measured);
    assert_eq!(write_region(&mut assigned), cells);
    let shape = match measured {
        Region::Measure(shape) => shape,
        Region::Assign(_) => unreachable!(),
    };
    let region = match assigned {
        Region::Assign(region) => region,
        Region::Measure(_) => unreachable!(),
    };
    // Six rows from the row 20 on, in the four columns of the shape.
    assert_eq!(shape.row_count(), 6);
    assert_eq!(
        shape.columns(),
        &vec![a(0), f(1), RegionColumn::Selector(Selector(4, true)), a(1)]
    );
    assert_eq!(
        region.plan.cs.log,
        vec![
            "advice a0 @23 = 9",
            "fixed f1 @20 = 1",
            "selector s4 @22",
            "annotate name f1",
            "advice a1 @25 = 42",
            "copy a0 @23 = f1 @20",
        ]
    );
}

#[test]
fn constants_are_wired_in_order() {
    let mut plan = plan(vec![4, 0]);
    let first = Cell { region_index: RegionIndex(0), row_offset: 1, column: advice(0).into() };
    let second = Cell { region_index: RegionIndex(1), row_offset: 2, column: advice(1).into() };
    plan.constants = vec![(Assigned::Trivial(7), first), (Assigned::Zero, second)];
    let positions = vec![(fixed(0), 0), (fixed(0), 3), (fixed(1), 0)];
    plan.assign_constants(&positions).unwrap();
    assert_eq!(
        plan.cs.log,
        vec![
            "fixed f0 @0 = 7",
            "copy f0 @0 = a0 @5",
            "fixed f0 @3 = 0",
            "copy f0 @3 = a1 @2",
        ]
    );
}

#[test]
fn too_few_positions_wire_nothing() {
    let mut plan = plan(vec![0]);
    let cell = Cell { region_index: RegionIndex(0), row_offset: 0, column: advice(0).into() };
    plan.constants = vec![(Assigned::Trivial(1), cell), (Assigned::Trivial(2), cell)];
    let r = plan.assign_constants(&vec![(fixed(0), 0)]);
    assert!(matches!(r, Err(Error::NotEnoughColumnsForConstants)));
    assert!(plan.cs.log.is_empty());
}

#[test]
fn wiring_stops_at_the_first_failure() {
    let mut plan = plan(vec![0]);
    plan.cs.fail_fixed_at = Some(2);
    let cell = Cell { region_index: RegionIndex(0), row_offset: 0, column: advice(0).into() };
    plan.constants = vec![(Assigned::Trivial(1), cell); 3];
    let positions = vec![(fixed(0), 0), (fixed(0), 1), (fixed(0), 2)];
    let r = plan.assign_constants(&positions);
    assert!(matches!(r, Err(Error::BoundsFailure)));
    assert_eq!(
        plan.cs.log,
        vec!["fixed f0 @0 = 1", "copy f0 @0 = a0 @0", "fixed f0 @1 = 1"]
    );
}

#[test]
fn measurement_pass_keeps_the_shapes() {
    let mut pass = MeasurementPass::new();
    let first: Result<u8, Error> = pass.assign_region(|region: &mut Region<u64, Recorder>| {
        region.assign_advice("a", advice(0), 1, Value::unknown())?;
        Ok(5)
    });
    assert!(matches!(first, Ok(5)));
    let failed: Result<(), Error> =
        pass.assign_region(|_: &mut Region<u64, Recorder>| Err(Error::Synthesis));
    assert!(matches!(failed, Err(Error::Synthesis)));
    let second: Result<(), Error> = pass.assign_region(|region: &mut Region<u64, Recorder>| {
        Selector(0, true).enable(region, 0)
    });
    assert!(second.is_ok());
    assert_eq!(pass.regions.len(), 2);
    assert_eq!(pass.regions[0].region_index(), RegionIndex(0));
    assert_eq!(pass.regions[0].row_count(), 2);
    assert_eq!(pass.regions[1].region_index(), RegionIndex(1));
    assert_eq!(pass.regions[1].columns(), &vec![RegionColumn::Selector(Selector(0, true))]);
}

#[test]
fn assignment_pass_numbers_the_regions() {
    let mut pass = AssignmentPass::new(plan(vec![3, 0]));
    let r: Result<(), Error> = pass.assign_region("first", |region: &mut Region<u64, Recorder>| {
        region.assign_advice("a", advice(0), 1, known(1)).map(|_| ())
    });
    assert!(r.is_ok());
    let r: Result<(), Error> = pass.assign_region("second", |region: &mut Region<u64, Recorder>| {
        region.assign_advice("a", advice(0), 1, known(2))?;
        Err(Error::Synthesis)
    });
    assert!(r.is_err());
    assert_eq!(pass.region_index, 2);
    let cell = Cell { region_index: RegionIndex(0), row_offset: 2, column: advice(0).into() };
    pass.constrain_instance(cell, Column::new(1, Instance), 9).unwrap();
    assert_eq!(
        pass.plan.unwrap().cs.log,
        vec![
            "enter first",
            "advice a0 @4 = 1",
            "exit",
            "enter second",
            "advice a0 @1 = 2",
            "copy a0 @5 = i1 @9",
        ]
    );
}

#[test]
fn table_is_filled_with_its_default_values() {
    let t = table_columns(3);
    let mut pass = AssignmentPass::new(plan(vec![]));
    let r: Result<(), Error> =
        pass.assign_table("table", |table: &mut SimpleTableLayouter<u64, Recorder>| {
            for row in 0..4 {
                table.assign_cell("x", t[0], row, known(row as u64))?;
                table.assign_cell("y", t[2], row, known(10 + row as u64))?;
            }
            Ok(())
        });
    assert!(r.is_ok());
    let plan = pass.plan.take().unwrap();
    assert_eq!(plan.table_columns, vec![t[0], t[2]]);
    let fixed = plan.cs.log.iter().filter(|line| line.starts_with("fixed")).count();
    assert_eq!(fixed, 8);
    assert_eq!(plan.cs.log[0], "enter table");
    assert_eq!(
        plan.cs.log[9..],
        ["exit".to_string(), "fill f0 @4 = 0".to_string(), "fill f2 @4 = 10".to_string()]
    );

    // A column of an earlier table cannot be used again.
    let mut pass = AssignmentPass::new(plan);
    let r: Result<(), Error> =
        pass.assign_table("again", |table: &mut SimpleTableLayouter<u64, Recorder>| {
            table.assign_cell("x", t[2], 0, known(1))
        });
    assert!(matches!(r, Err(Error::TableError(TableError::UsedColumn(_)))));

    // Columns of different lengths are refused, and nothing is filled.
    let r: Result<(), Error> =
        pass.assign_table("uneven", |table: &mut SimpleTableLayouter<u64, Recorder>| {
            table.assign_cell("x", t[1], 0, known(1))?;
            table.assign_cell("x", t[1], 1, known(1))?;
            Ok(())
        });
    assert!(r.is_ok());
    let mut cs = ConstraintSystem::<u64>::default();
    for _ in 0..3 {
        cs.lookup_table_column();
    }
    let u = cs.lookup_table_column();
    let v = cs.lookup_table_column();
    let r: Result<(), Error> =
        pass.assign_table("uneven", |table: &mut SimpleTableLayouter<u64, Recorder>| {
            table.assign_cell("x", u, 0, known(1))?;
            table.assign_cell("x", v, 0, known(1))?;
            table.assign_cell("x", v, 1, known(1))?;
            Ok(())
        });
    assert!(matches!(r, Err(Error::TableError(TableError::UnevenColumnLengths(_, _)))));
    let plan = pass.plan.take().unwrap();
    assert_eq!(plan.table_columns, vec![t[0], t[2], t[1]]);
    assert_eq!(plan.cs.log.last().unwrap(), "exit");
}

#[test]
fn measuring_pass_ignores_everything_but_regions() {
    let mut layouter: V1Pass<u64, Recorder> = V1Pass::measure(MeasurementPass::new());
    let t = table_columns(1);
    layouter
        .assign_table("table", |table: &mut SimpleTableLayouter<u64, Recorder>| {
            table.assign_cell("x", t[0], 0, known(1))
        })
        .unwrap();
    let cell = Cell { region_index: RegionIndex(0), row_offset: 0, column: advice(0).into() };
    layouter.constrain_instance(cell, Column::new(0, Instance), 0).unwrap();
    layouter.push_namespace("ns");
    layouter.pop_namespace(None);
    assert!(layouter.get_challenge(Challenge { index: 3, phase: 0 }).is_none());
    layouter
        .get_root()
        .assign_region("r", |region: &mut Region<u64, Recorder>| {
            region.assign_fixed("f", fixed(0), 0, known(1)).map(|_| ())
        })
        .unwrap();
    match layouter.0 {
        Pass::Measurement(pass) => assert_eq!(pass.regions.len(), 1),
        Pass::Assignment(_) => panic!(),
    }
}

#[test]
fn assigning_pass_forwards_to_the_sink() {
    let mut layouter = V1Pass::assign(AssignmentPass::new(plan(vec![2])));
    layouter.push_namespace("ns");
    assert_eq!(layouter.get_challenge(Challenge { index: 3, phase: 0 }), Value::known(3));
    layouter
        .assign_region("r", |region: &mut Region<u64, Recorder>| {
            region.assign_fixed("f", fixed(0), 1, known(1)).map(|_| ())
        })
        .unwrap();
    layouter.pop_namespace(Some("gadget".to_string()));
    match layouter.0 {
        Pass::Assignment(pass) => assert_eq!(
            pass.plan.unwrap().cs.log,
            vec!["push ns", "enter r", "fixed f0 @3 = 1", "exit", "pop Some(\"gadget\")"]
        ),
        Pass::Measurement(_) => panic!(),
    }
}

#[derive(Clone)]
struct BoolConfig {
    a: Column<Advice>,
    s: Selector,
}

struct BoolCircuit {
    a: Option<u64>,
}

impl Circuit<u64> for BoolCircuit {
    type Config = BoolConfig;

    fn without_witnesses(&self) -> Self {
        BoolCircuit { a: None }
    }

    fn configure(meta: &mut ConstraintSystem<u64>) -> BoolConfig {
        let a = meta.advice_column();
        let s = meta.selector();
        meta.create_gate("bool", |meta: &mut VirtualCells<u64>| {
            let a = meta.query_advice(a, Rotation::cur());
            let s = meta.query_selector(s);
            vec![Constraint::from(s * (a.clone() * (Expression::<u64>::Constant(1) - a)))]
        });
        BoolConfig { a, s }
    }

    fn synthesize<CS: Assignment<u64>>(
        &self,
        config: BoolConfig,
        layouter: &mut V1Pass<u64, CS>,
    ) -> Result<(), Error> {
        layouter.assign_region("bool", |region: &mut Region<u64, CS>| {
            let value = Value { inner: self.a.map(Assigned::Trivial) };
            region.assign_advice("a", config.a, 0, value)?;
            config.s.enable(region, 0)
        })
    }
}

#[test]
fn single_gate_boolean_is_assigned_at_row_zero() {
    let mut cs = ConstraintSystem::<u64>::default();
    let config = BoolCircuit::configure(&mut cs);
    assert!(cs.blinding_factors() >= 4);
    assert!(cs.degree() >= 3);
    let circuit = BoolCircuit { a: Some(1) };
    let (sink, r) = V1::synthesize(Recorder::default(), &circuit, config, vec![]);
    assert!(r.is_ok());
    assert_eq!(sink.log, vec!["enter bool", "advice a0 @0 = 1", "selector s0 @0", "exit"]);
}

#[derive(Clone)]
struct ConstantsConfig {
    a: Column<Advice>,
    constants: Vec<Column<Fixed>>,
}

struct ConstantsCircuit {
    values: Vec<u64>,
    fixed_rows: usize,
}

impl Circuit<u64> for ConstantsCircuit {
    type Config = ConstantsConfig;

    fn without_witnesses(&self) -> Self {
        ConstantsCircuit { values: self.values.clone(), fixed_rows: self.fixed_rows }
    }

    fn configure(meta: &mut ConstraintSystem<u64>) -> ConstantsConfig {
        let a = meta.advice_column();
        let f = meta.fixed_column();
        let g = meta.fixed_column();
        meta.enable_constant(f);
        meta.enable_constant(g);
        meta.enable_equality(a.into());
        ConstantsConfig { a, constants: meta.constants().clone() }
    }

    fn synthesize<CS: Assignment<u64>>(
        &self,
        config: ConstantsConfig,
        layouter: &mut V1Pass<u64, CS>,
    ) -> Result<(), Error> {
        layouter.assign_region("constants", |region: &mut Region<u64, CS>| {
            for (offset, value) in self.values.iter().enumerate() {
                region.assign_advice_from_constant(
                    "constant",
                    config.a,
                    offset,
                    Assigned::Trivial(*value),
                )?;
            }
            Ok(())
        })?;
        if self.fixed_rows > 0 {
            layouter.assign_region("fixed", |region: &mut Region<u64, CS>| {
                region
                    .assign_fixed("one", config.constants[0], self.fixed_rows - 1, known(1))
                    .map(|_| ())
            })?;
        }
        Ok(())
    }
}

#[test]
fn constants_take_the_first_free_fixed_cells() {
    let mut cs = ConstraintSystem::<u64>::default();
    let config = ConstantsCircuit::configure(&mut cs);
    let constants = config.constants.clone();
    assert_eq!(constants, vec![fixed(0), fixed(1)]);
    let circuit = ConstantsCircuit { values: vec![0, 1, 42], fixed_rows: 0 };
    let (sink, r) = V1::synthesize(Recorder::default(), &circuit, config, constants);
    assert!(r.is_ok());
    assert_eq!(
        sink.log,
        vec![
            "enter constants",
            "advice a0 @0 = 0",
            "advice a0 @1 = 1",
            "advice a0 @2 = 42",
            "exit",
            "fixed f0 @0 = 0",
            "copy f0 @0 = a0 @0",
            "fixed f0 @1 = 1",
            "copy f0 @1 = a0 @1",
            "fixed f0 @2 = 42",
            "copy f0 @2 = a0 @2",
        ]
    );
}

#[test]
fn constants_avoid_the_cells_of_regions() {
    let mut cs = ConstraintSystem::<u64>::default();
    let config = ConstantsCircuit::configure(&mut cs);
    let constants = config.constants.clone();
    // The second region takes the rows 0 and 1 of the first fixed column,
    // of the three rows that are planned.
    let circuit = ConstantsCircuit { values: vec![5, 6, 7], fixed_rows: 2 };
    let (sink, r) = V1::synthesize(Recorder::default(), &circuit, config, constants);
    assert!(r.is_ok());
    assert_eq!(
        sink.log[7..],
        [
            "exit".to_string(),
            "fixed f0 @2 = 5".to_string(),
            "copy f0 @2 = a0 @0".to_string(),
            "fixed f1 @0 = 6".to_string(),
            "copy f1 @0 = a0 @1".to_string(),
            "fixed f1 @1 = 7".to_string(),
            "copy f1 @1 = a0 @2".to_string(),
        ]
    );
}

#[test]
fn not_enough_columns_for_constants() {
    let mut cs = ConstraintSystem::<u64>::default();
    let config = ConstantsCircuit::configure(&mut cs);
    // Five constants are recorded in a plan of five rows, of which the one
    // column for constants has three rows free.
    let circuit = ConstantsCircuit { values: vec![1, 2, 3, 4, 5], fixed_rows: 2 };
    let (sink, r) = V1::synthesize(Recorder::default(), &circuit, config, vec![fixed(0)]);
    assert!(matches!(r, Err(Error::NotEnoughColumnsForConstants)));
    let written: Vec<&String> = sink
        .log
        .iter()
        .filter(|line| line.starts_with("copy") || line.starts_with("fixed f0 @2"))
        .collect();
    assert!(written.is_empty());
    assert_eq!(sink.log.iter().filter(|line| line.starts_with("fixed")).count(), 1);
}

#[derive(Clone)]
struct TableConfig {
    x: TableColumn,
    y: TableColumn,
}

struct TableCircuit;

impl Circuit<u64> for TableCircuit {
    type Config = TableConfig;

    fn without_witnesses(&self) -> Self {
        TableCircuit
    }

    fn configure(meta: &mut ConstraintSystem<u64>) -> TableConfig {
        let a = meta.advice_column();
        let x = meta.lookup_table_column();
        let y = meta.lookup_table_column();
        meta.lookup("table", |meta: &mut VirtualCells<u64>| {
            let a = meta.query_advice(a, Rotation::cur());
            vec![(a.clone(), x), (a, y)]
        });
        TableConfig { x, y }
    }

    fn synthesize<CS: Assignment<u64>>(
        &self,
        config: TableConfig,
        layouter: &mut V1Pass<u64, CS>,
    ) -> Result<(), Error> {
        layouter.assign_table("table", |table: &mut SimpleTableLayouter<u64, CS>| {
            for row in 0..4 {
                table.assign_cell("x", config.x, row, known(100 + row as u64))?;
                table.assign_cell("y", config.y, row, known(200 + row as u64))?;
            }
            Ok(())
        })
    }
}

#[test]
fn table_rows_beyond_the_data_hold_the_default_values() {
    let mut cs = ConstraintSystem::<u64>::default();
    let config = TableCircuit::configure(&mut cs);
    let (sink, r) = V1::synthesize(Recorder::default(), &TableCircuit, config, vec![]);
    assert!(r.is_ok());
    // A sink of eight rows sees two columns of eight cells: four are
    // assigned, and four are filled with the value of the first row.
    let assigned = sink.log.iter().filter(|line| line.starts_with("fixed")).count();
    assert_eq!(assigned, 2 * 4);
    assert_eq!(
        sink.log[9..],
        ["exit".to_string(), "fill f0 @4 = 100".to_string(), "fill f1 @4 = 200".to_string()]
    );
    let rows = 8;
    let filled: usize = sink
        .log
        .iter()
        .filter(|line| line.starts_with("fill"))
        .map(|_| rows - 4)
        .sum();
    assert_eq!(assigned + filled, 2 * 8);
}

struct FailingCircuit;

impl Circuit<u64> for FailingCircuit {
    type Config = ();

    fn without_witnesses(&self) -> Self {
        FailingCircuit
    }

    fn configure(_: &mut ConstraintSystem<u64>) {}

    fn synthesize<CS: Assignment<u64>>(
        &self,
        _: (),
        layouter: &mut V1Pass<u64, CS>,
    ) -> Result<(), Error> {
        layouter.assign_region("huge", |region: &mut Region<u64, CS>| {
            region.assign_advice("a", advice(0), usize::MAX - 1, Value::unknown()).map(|_| ())
        })?;
        layouter.assign_region("more", |region: &mut Region<u64, CS>| {
            region.assign_advice("a", advice(0), 0, Value::unknown()).map(|_| ())
        })
    }
}

#[test]
fn regions_beyond_the_machine_are_a_synthesis_error() {
    let (sink, r) = V1::synthesize(Recorder::default(), &FailingCircuit, (), vec![]);
    assert!(matches!(r, Err(Error::Synthesis)));
    assert!(sink.log.is_empty());
}

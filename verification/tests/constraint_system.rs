use halo2_common::middleware::{
    Advice, Any, ColumnMid, ConstraintSystemV2Backend, ExpressionMid, Fixed, FixedQueryMid,
    GateV2Backend, Instance, LookupArgumentV2, MetadataColumn, PermutationArgumentV2, Rotation,
    ShuffleArgumentV2,
};
use halo2_common::plonk::circuit::sealed::Phase;
use halo2_common::plonk::circuit::{
    collect_queries, AdviceQuery, Challenge, Column, Constraint, Constraints, ConstraintSystem,
    Expression, FirstPhase, FixedQuery, InstanceQuery, SecondPhase, Selector, ThirdPhase,
    VirtualCell, VirtualCells,
};
use halo2_common::plonk::{lookup, permutation, shuffle};

fn bool_system() -> (ConstraintSystem<u64>, Column<Advice>, Selector) {
    let mut cs = ConstraintSystem::<u64>::default();
    let a = cs.advice_column();
    let s = cs.selector();
    cs.create_gate("bool", |meta: &mut VirtualCells<u64>| {
        let a = meta.query_advice(a, Rotation::cur());
        let s = meta.query_selector(s);
        vec![Constraint::from(s * (a.clone() * (Expression::Constant(1) - a)))]
    });
    (cs, a, s)
}

#[test]
fn default_system_is_empty() {
    let cs = ConstraintSystem::<u64>::default();
    assert_eq!(cs.num_fixed_columns(), 0);
    assert_eq!(cs.num_advice_columns(), 0);
    assert_eq!(cs.num_instance_columns(), 0);
    assert_eq!(cs.num_selectors(), 0);
    assert_eq!(cs.num_challenges(), 0);
    assert!(cs.gates().is_empty());
    assert!(cs.lookups().is_empty());
    assert!(cs.shuffles().is_empty());
    assert!(cs.constants().is_empty());
    assert!(cs.advice_queries().is_empty());
    assert!(cs.fixed_queries().is_empty());
    assert!(cs.instance_queries().is_empty());
    assert!(cs.permutation().columns.is_empty());
    assert!(cs.general_column_annotations().is_empty());
    assert_eq!(cs.minimum_degree, None);
    assert_eq!(cs.degree(), 3);
    assert_eq!(cs.blinding_factors(), 5);
    assert_eq!(cs.minimum_rows(), 8);
    assert_eq!(cs.phases(), vec![Phase(0)]);
}

#[test]
fn columns_are_allocated_in_order() {
    let mut cs = ConstraintSystem::<u64>::default();
    assert_eq!(cs.fixed_column(), Column { index: 0, column_type: Fixed });
    assert_eq!(cs.fixed_column(), Column { index: 1, column_type: Fixed });
    assert_eq!(cs.lookup_table_column().inner(), Column { index: 2, column_type: Fixed });
    assert_eq!(cs.instance_column(), Column { index: 0, column_type: Instance });
    assert_eq!(cs.advice_column(), Column { index: 0, column_type: Advice { phase: 0 } });
    assert_eq!(
        cs.unblinded_advice_column(),
        Column { index: 1, column_type: Advice { phase: 0 } }
    );
    assert_eq!(cs.selector(), Selector(0, true));
    assert_eq!(cs.complex_selector(), Selector(1, false));
    assert_eq!(cs.num_fixed_columns(), 3);
    assert_eq!(cs.num_instance_columns(), 1);
    assert_eq!(cs.num_advice_columns(), 2);
    assert_eq!(cs.num_selectors(), 2);
    assert_eq!(cs.unblinded_advice_columns, vec![1]);
    assert_eq!(cs.num_advice_queries, vec![0, 0]);
    assert_eq!(cs.advice_column_phase(), vec![0, 0]);
}

#[test]
fn phases_are_not_skipped() {
    let mut cs = ConstraintSystem::<u64>::default();
    // Without an advice column in the first phase, nothing can be allocated
    // in the second.
    assert!(!cs.phase_exists(Phase(0)));
    assert_eq!(Phase(1).prev(), Some(Phase(0)));
    assert_eq!(Phase(0).prev(), None);

    cs.advice_column();
    assert!(cs.phase_exists(Phase(0)));
    assert!(!cs.phase_exists(Phase(1)));
    let second = cs.advice_column_in(SecondPhase);
    assert_eq!(second, Column { index: 1, column_type: Advice { phase: 1 } });
    assert!(cs.phase_exists(Phase(1)));
    let third = cs.unblinded_advice_column_in(ThirdPhase);
    assert_eq!(third, Column { index: 2, column_type: Advice { phase: 2 } });
    let first = cs.advice_column_in(FirstPhase);
    assert_eq!(first, Column { index: 3, column_type: Advice { phase: 0 } });

    assert_eq!(cs.advice_column_phase(), vec![0, 1, 2, 0]);
    assert_eq!(cs.phases(), vec![Phase(0), Phase(1), Phase(2)]);
    assert_eq!(cs.unblinded_advice_columns, vec![2]);

    let challenge = cs.challenge_usable_after(SecondPhase);
    assert_eq!(challenge, Challenge { index: 0, phase: 1 });
    let challenge = cs.challenge_usable_after(FirstPhase);
    assert_eq!(challenge, Challenge { index: 1, phase: 0 });
    assert_eq!(cs.num_challenges(), 2);
    assert_eq!(cs.challenge_phase(), vec![1, 0]);
}

#[test]
fn queries_are_interned_once() {
    let mut cs = ConstraintSystem::<u64>::default();
    let a = cs.advice_column();
    let b = cs.advice_column();
    let f = cs.fixed_column();
    let i = cs.instance_column();

    assert_eq!(cs.query_advice_index(a, Rotation::cur()), 0);
    assert_eq!(cs.query_advice_index(a, Rotation::next()), 1);
    assert_eq!(cs.query_advice_index(b, Rotation::cur()), 2);
    assert_eq!(cs.query_advice_index(a, Rotation::cur()), 0);
    assert_eq!(cs.query_advice_index(a, Rotation::next()), 1);
    assert_eq!(cs.query_advice_index(a, Rotation::prev()), 3);
    assert_eq!(cs.advice_queries().len(), 4);
    // The counters are the numbers of distinct queries into each column.
    assert_eq!(cs.num_advice_queries, vec![3, 1]);

    assert_eq!(cs.query_fixed_index(f, Rotation(5)), 0);
    assert_eq!(cs.query_fixed_index(f, Rotation(5)), 0);
    assert_eq!(cs.query_fixed_index(f, Rotation(6)), 1);
    assert_eq!(cs.fixed_queries().len(), 2);

    assert_eq!(cs.query_instance_index(i, Rotation::cur()), 0);
    assert_eq!(cs.query_instance_index(i, Rotation::cur()), 0);
    assert_eq!(cs.instance_queries().len(), 1);

    assert_eq!(cs.query_any_index(a.into(), Rotation::prev()), 3);
    assert_eq!(cs.query_any_index(f.into(), Rotation(7)), 2);
    assert_eq!(cs.query_any_index(i.into(), Rotation(1)), 1);

    assert_eq!(cs.get_advice_query_index(b, Rotation::cur()), 2);
    assert_eq!(cs.get_fixed_query_index(f, Rotation(6)), 1);
    assert_eq!(cs.get_instance_query_index(i, Rotation(1)), 1);
    assert_eq!(cs.get_any_query_index(a.into(), Rotation::next()), 1);
    assert_eq!(cs.get_any_query_index(f.into(), Rotation(5)), 0);
    assert_eq!(cs.get_any_query_index(i.into(), Rotation::cur()), 0);

    assert_eq!(cs.blinding_factors(), 5);
    cs.query_advice_index(a, Rotation(2));
    assert_eq!(cs.num_advice_queries, vec![4, 1]);
    assert_eq!(cs.blinding_factors(), 6);
    assert_eq!(cs.minimum_rows(), 9);
}

#[test]
fn equality_and_constants() {
    let mut cs = ConstraintSystem::<u64>::default();
    let a = cs.advice_column();
    let f = cs.fixed_column();
    let g = cs.fixed_column();
    cs.enable_equality(a.into());
    cs.enable_equality(a.into());
    assert_eq!(cs.permutation().get_columns(), vec![Column::<Any>::from(a)]);
    assert_eq!(cs.advice_queries(), &vec![(a, Rotation::cur())]);
    assert_eq!(cs.num_advice_queries, vec![1]);

    cs.enable_constant(g);
    cs.enable_constant(f);
    cs.enable_constant(g);
    assert_eq!(cs.constants(), &vec![g, f]);
    assert!(cs.is_constant_column(&f));
    assert_eq!(
        cs.permutation().get_columns(),
        vec![Column::<Any>::from(a), Column::<Any>::from(g), Column::<Any>::from(f)]
    );
    assert_eq!(cs.fixed_queries(), &vec![(g, Rotation::cur()), (f, Rotation::cur())]);
    assert_eq!(cs.permutation().required_degree(), 3);
}

#[test]
fn single_gate_boolean() {
    let (cs, a, s) = bool_system();
    assert_eq!(cs.gates().len(), 1);
    let gate = &cs.gates()[0];
    assert_eq!(gate.name(), "bool");
    assert_eq!(gate.constraint_name(0), "");
    assert_eq!(gate.queried_selectors(), &[s]);
    assert_eq!(
        gate.queried_cells(),
        &[VirtualCell { column: a.into(), rotation: Rotation::cur() }]
    );
    let query = Expression::<u64>::Advice(AdviceQuery {
        index: Some(0),
        column_index: 0,
        rotation: Rotation::cur(),
        phase: Phase(0),
    });
    assert_eq!(
        gate.polynomials(),
        &[Expression::<u64>::Selector(s) * (query.clone() * (Expression::<u64>::Constant(1) - query))]
    );
    assert_eq!(gate.polynomials()[0].degree(), 3);
    assert!(cs.degree() >= 3);
    assert_eq!(cs.degree(), 3);
    assert!(cs.blinding_factors() >= 4);
    assert_eq!(cs.blinding_factors(), 5);
    assert_eq!(cs.minimum_rows(), 8);
    assert_eq!(cs.num_advice_queries, vec![1]);
}

#[test]
fn create_gate_interns_queries_without_an_index() {
    let mut cs = ConstraintSystem::<u64>::default();
    let a = cs.advice_column();
    let f = cs.fixed_column();
    let i = cs.instance_column();
    let s = cs.selector();
    cs.create_gate("mixed", |_meta: &mut VirtualCells<u64>| {
        vec![
            Constraint::from(("first", a.cur::<u64>() - f.next::<u64>())),
            Constraint::from((
                "second",
                Expression::<u64>::Selector(s) * (i.prev::<u64>() * a.rot::<u64>(0)),
            )),
        ]
    });
    let gate = &cs.gates()[0];
    assert_eq!(gate.constraint_name(0), "first");
    assert_eq!(gate.constraint_name(1), "second");
    assert_eq!(cs.advice_queries(), &vec![(a, Rotation(0))]);
    assert_eq!(cs.fixed_queries(), &vec![(f, Rotation(1))]);
    assert_eq!(cs.instance_queries(), &vec![(i, Rotation(-1))]);
    assert_eq!(gate.queried_selectors(), &[s]);
    assert_eq!(
        gate.queried_cells(),
        &[
            VirtualCell { column: a.into(), rotation: Rotation(0) },
            VirtualCell { column: f.into(), rotation: Rotation(1) },
            VirtualCell { column: i.into(), rotation: Rotation(-1) },
            VirtualCell { column: a.into(), rotation: Rotation(0) },
        ]
    );
    let indexed_a = Expression::<u64>::Advice(AdviceQuery {
        index: Some(0),
        column_index: 0,
        rotation: Rotation(0),
        phase: Phase(0),
    });
    let indexed_f = Expression::<u64>::Fixed(FixedQuery {
        index: Some(0),
        column_index: 0,
        rotation: Rotation(1),
    });
    assert_eq!(gate.polynomials()[0], indexed_a - indexed_f);
}

#[test]
fn constraints_with_selector() {
    let s = Expression::<u64>::Selector(Selector(0, true));
    let a = Expression::<u64>::Constant(3);
    let b = Expression::<u64>::Constant(4);
    let constraints = Constraints::with_selector(
        s.clone(),
        vec![Constraint::from(("a", a.clone())), Constraint::from(b.clone())],
    );
    let out = constraints.into_vec();
    assert_eq!(out.len(), 2);
    assert_eq!(out[0].name, "a");
    assert_eq!(out[0].poly, s.clone() * a.clone());
    assert_eq!(out[1].name, "");
    assert_eq!(out[1].poly, s * b);
    let single: Vec<Constraint<u64>> = Vec::from(a.clone());
    assert_eq!(single.len(), 1);
    assert_eq!(single[0].poly, a);
}

#[test]
fn lookups_and_shuffles() {
    let mut cs = ConstraintSystem::<u64>::default();
    let a = cs.advice_column();
    let b = cs.advice_column();
    let table = cs.lookup_table_column();
    let index = cs.lookup("range", |meta: &mut VirtualCells<u64>| {
        let a = meta.query_advice(a, Rotation::cur());
        vec![(a, table)]
    });
    assert_eq!(index, 0);
    let index = cs.lookup_any("any", |meta: &mut VirtualCells<u64>| {
        let a = meta.query_advice(a, Rotation::cur());
        let b = meta.query_advice(b, Rotation::next());
        vec![(a.clone() * a, b)]
    });
    assert_eq!(index, 1);
    let index = cs.shuffle("shuffle", |meta: &mut VirtualCells<u64>| {
        let a = meta.query_advice(a, Rotation::cur());
        let b = meta.query_advice(b, Rotation::cur());
        vec![(a, b)]
    });
    assert_eq!(index, 0);

    assert_eq!(cs.lookups().len(), 2);
    assert_eq!(cs.shuffles().len(), 1);
    let range = &cs.lookups()[0];
    assert_eq!(range.name(), "range");
    assert_eq!(range.input_expressions().len(), 1);
    assert_eq!(
        range.table_expressions(),
        &vec![Expression::Fixed(FixedQuery {
            index: Some(0),
            column_index: 0,
            rotation: Rotation::cur()
        })]
    );
    assert_eq!(range.required_degree(), 4);
    assert_eq!(cs.lookups()[1].required_degree(), 2 + 2 + 1);
    assert_eq!(cs.shuffles()[0].name(), "shuffle");
    assert_eq!(cs.shuffles()[0].required_degree(), 3);
    assert_eq!(cs.degree(), 5);
    assert_eq!(cs.fixed_queries(), &vec![(table.inner(), Rotation::cur())]);
    assert_eq!(
        cs.advice_queries(),
        &vec![(a, Rotation::cur()), (b, Rotation::next()), (b, Rotation::cur())]
    );
    assert_eq!(cs.num_advice_queries, vec![1, 2]);
}

#[test]
fn argument_degrees() {
    let a = Expression::<u64>::Advice(AdviceQuery {
        index: None,
        column_index: 0,
        rotation: Rotation(0),
        phase: Phase(0),
    });
    let cubic = a.clone() * a.clone() * a.clone();
    let l = lookup::Argument::new("l", vec![(cubic.clone(), a.clone()), (a.clone(), a.clone())]);
    assert_eq!(l.required_degree(), 2 + 3 + 1);
    let constant = lookup::Argument::<u64>::new(
        "c",
        vec![(Expression::Constant(1), Expression::Constant(2))],
    );
    assert_eq!(constant.required_degree(), 4);
    let s = shuffle::Argument::new("s", vec![(a.clone(), cubic)]);
    assert_eq!(s.required_degree(), 5);
    assert_eq!(s.input_expressions(), &vec![a]);
    let mut p = permutation::Argument::new();
    p.add_column(Column { index: 1, column_type: Any::Fixed });
    p.add_column(Column { index: 1, column_type: Any::Fixed });
    p.add_column(Column { index: 1, column_type: Any::Instance });
    assert_eq!(p.get_columns().len(), 2);
}

#[test]
fn minimum_degree_raises_the_degree() {
    let (mut cs, _, _) = bool_system();
    assert_eq!(cs.degree(), 3);
    cs.set_minimum_degree(2);
    assert_eq!(cs.degree(), 3);
    cs.set_minimum_degree(9);
    assert_eq!(cs.degree(), 9);
}

#[test]
fn annotations_replace_each_other() {
    let mut cs = ConstraintSystem::<u64>::default();
    let table = cs.lookup_table_column();
    let a = cs.advice_column();
    cs.annotate_lookup_column(table, || "table".to_string());
    cs.annotate_lookup_any_column(a.into(), || "advice".to_string());
    cs.annotate_lookup_column(table, || "renamed".to_string());
    assert_eq!(
        cs.general_column_annotations(),
        &vec![
            (MetadataColumn { column_type: Any::Fixed, index: 0 }, "renamed".to_string()),
            (
                MetadataColumn { column_type: Any::Advice(Advice { phase: 0 }), index: 0 },
                "advice".to_string()
            ),
        ]
    );
}

#[test]
fn directly_convert_selectors() {
    let (cs, _, s) = bool_system();
    let activations = vec![vec![true, false, true, true]];
    let (cs, polys) = cs.directly_convert_selectors_to_fixed(activations, 0, 1);
    assert_eq!(polys, vec![vec![1, 0, 1, 1]]);
    assert_eq!(cs.num_selectors(), 0);
    assert_eq!(cs.num_fixed_columns(), 1);
    let q = Expression::<u64>::Fixed(FixedQuery {
        index: Some(0),
        column_index: 0,
        rotation: Rotation::cur(),
    });
    let a = Expression::<u64>::Advice(AdviceQuery {
        index: Some(0),
        column_index: 0,
        rotation: Rotation::cur(),
        phase: Phase(0),
    });
    assert_eq!(
        cs.gates()[0].polynomials(),
        &[q * (a.clone() * (Expression::Constant(1) - a))]
    );
    assert_eq!(cs.gates()[0].queried_selectors(), &[s]);
    assert_eq!(cs.degree(), 3);
}

fn two_selector_system() -> ConstraintSystem<u64> {
    let mut cs = ConstraintSystem::<u64>::default();
    let a = cs.advice_column();
    let b = cs.advice_column();
    let s0 = cs.selector();
    let s1 = cs.selector();
    cs.create_gate("first", |meta: &mut VirtualCells<u64>| {
        let a = meta.query_advice(a, Rotation::cur());
        let s0 = meta.query_selector(s0);
        vec![Constraint::from(s0 * a)]
    });
    cs.create_gate("second", |meta: &mut VirtualCells<u64>| {
        let b = meta.query_advice(b, Rotation::cur());
        let s1 = meta.query_selector(s1);
        vec![Constraint::from(s1 * b)]
    });
    cs
}

#[test]
fn selector_compression() {
    let cs = two_selector_system();
    assert_eq!(cs.degree(), 3);
    assert_eq!(cs.selector_degrees(2), vec![2, 2]);
    let activations = vec![
        vec![true, false, true, false, false, false, false, false],
        vec![false, true, false, false, false, false, true, false],
    ];
    let (cs, polys) = cs.compress_selectors(activations, vec![0, 1, 2, 3]);

    // Both selectors share one fixed column, which holds one where the
    // first is active, two where the second is, and zero elsewhere.
    assert_eq!(polys, vec![vec![1, 2, 1, 0, 0, 0, 2, 0]]);
    assert_eq!(cs.num_fixed_columns(), 1);
    let column = Column { index: 0, column_type: Fixed };
    assert_eq!(cs.selector_map, vec![column, column]);
    assert_eq!(cs.fixed_queries(), &vec![(column, Rotation::cur())]);

    let q = Expression::<u64>::Fixed(FixedQuery {
        index: Some(0),
        column_index: 0,
        rotation: Rotation::cur(),
    });
    let a = |column_index: usize, index: usize| {
        Expression::<u64>::Advice(AdviceQuery {
            index: Some(index),
            column_index,
            rotation: Rotation::cur(),
            phase: Phase(0),
        })
    };
    let first = q.clone() * (Expression::Constant(2) - q.clone());
    let second = q.clone() * (Expression::Constant(1) - q);
    assert_eq!(cs.gates()[0].polynomials(), &[first * a(0, 0)]);
    assert_eq!(cs.gates()[1].polynomials(), &[second * a(1, 1)]);
    assert_eq!(cs.degree(), 3);
    assert_eq!(cs.num_selectors(), 2);
}

#[test]
fn selectors_that_meet_are_not_combined() {
    let cs = two_selector_system();
    let activations = vec![vec![true, true, false], vec![false, true, true]];
    let (cs, polys) = cs.compress_selectors(activations, vec![0, 1, 2, 3]);
    assert_eq!(polys, vec![vec![1, 1, 0], vec![0, 1, 1]]);
    assert_eq!(cs.num_fixed_columns(), 2);
    assert_eq!(
        cs.selector_map,
        vec![Column { index: 0, column_type: Fixed }, Column { index: 1, column_type: Fixed }]
    );
    assert_eq!(cs.degree(), 3);
}

fn three_selector_system() -> ConstraintSystem<u64> {
    let mut cs = two_selector_system();
    let c = cs.advice_column();
    let s2 = cs.selector();
    cs.create_gate("third", |meta: &mut VirtualCells<u64>| {
        let c = meta.query_advice(c, Rotation::cur());
        let s2 = meta.query_selector(s2);
        vec![Constraint::from(s2 * c)]
    });
    cs
}

#[test]
fn a_combination_stops_at_the_degree_of_the_system() {
    // Three selectors that never meet, each on a gate of degree two, in a
    // system of degree three: two of them fill a combination, and the
    // third one starts the next.
    let cs = three_selector_system();
    assert_eq!(cs.degree(), 3);
    let activations = vec![
        vec![true, false, false, false],
        vec![false, true, false, false],
        vec![false, false, true, false],
    ];
    let (cs, polys) = cs.compress_selectors(activations, vec![0, 1, 2, 3]);
    assert_eq!(polys, vec![vec![1, 2, 0, 0], vec![0, 0, 1, 0]]);
    let first = Column { index: 0, column_type: Fixed };
    let second = Column { index: 1, column_type: Fixed };
    assert_eq!(cs.selector_map, vec![first, first, second]);
    assert_eq!(cs.num_fixed_columns(), 2);
    let q = Expression::<u64>::Fixed(FixedQuery {
        index: Some(1),
        column_index: 1,
        rotation: Rotation::cur(),
    });
    let c = Expression::<u64>::Advice(AdviceQuery {
        index: Some(2),
        column_index: 2,
        rotation: Rotation::cur(),
        phase: Phase(0),
    });
    assert_eq!(cs.gates()[2].polynomials(), &[q * c]);
    assert_eq!(cs.degree(), 3);
}

#[test]
fn a_selector_joins_the_earliest_combination_it_fits() {
    // The second selector meets the first, the third meets neither: the
    // third joins the first, and the second stays alone.
    let cs = three_selector_system();
    let activations = vec![
        vec![true, true, false, false],
        vec![false, true, true, false],
        vec![false, false, false, true],
    ];
    let (cs, polys) = cs.compress_selectors(activations, vec![0, 1, 2, 3]);
    assert_eq!(polys, vec![vec![1, 1, 0, 2], vec![0, 1, 1, 0]]);
    let first = Column { index: 0, column_type: Fixed };
    let second = Column { index: 1, column_type: Fixed };
    assert_eq!(cs.selector_map, vec![first, second, first]);
}

#[test]
fn unused_and_complex_selectors_get_their_own_columns() {
    let mut cs = ConstraintSystem::<u64>::default();
    let a = cs.advice_column();
    let unused = cs.selector();
    let complex = cs.complex_selector();
    let simple = cs.selector();
    cs.create_gate("gate", |meta: &mut VirtualCells<u64>| {
        let a = meta.query_advice(a, Rotation::cur());
        let complex = meta.query_selector(complex);
        let simple = meta.query_selector(simple);
        vec![Constraint::from(simple * (complex + a))]
    });
    assert_eq!(unused, Selector(0, true));
    assert_eq!(cs.selector_degrees(3), vec![0, 0, 2]);
    let activations = vec![vec![true, false], vec![false, true], vec![false, false]];
    let (cs, polys) = cs.compress_selectors(activations, vec![0, 1, 2, 3]);
    assert_eq!(polys, vec![vec![1, 0], vec![0, 1], vec![0, 0]]);
    assert_eq!(cs.num_fixed_columns(), 3);
    let q = |column_index: usize| {
        Expression::<u64>::Fixed(FixedQuery {
            index: Some(column_index),
            column_index,
            rotation: Rotation::cur(),
        })
    };
    let a = Expression::<u64>::Advice(AdviceQuery {
        index: Some(0),
        column_index: 0,
        rotation: Rotation::cur(),
        phase: Phase(0),
    });
    assert_eq!(cs.gates()[0].polynomials(), &[q(2) * (q(1) + a)]);
}

#[test]
fn backend_form_flattens_gates() {
    let mut cs = ConstraintSystem::<u64>::default();
    let a = cs.advice_column_in(FirstPhase);
    let f = cs.fixed_column();
    cs.enable_equality(f.into());
    cs.create_gate("gate", |meta: &mut VirtualCells<u64>| {
        let a = meta.query_advice(a, Rotation::cur());
        let f = meta.query_fixed(f, Rotation::next());
        vec![
            Constraint::from(("named", a.clone() * f.clone())),
            Constraint::from(a + f),
        ]
    });
    let table = cs.lookup_table_column();
    cs.lookup("lookup", |meta: &mut VirtualCells<u64>| {
        vec![(meta.query_advice(a, Rotation::cur()), table)]
    });
    cs.annotate_lookup_column(table, || "t".to_string());

    let backend = ConstraintSystemV2Backend::from(cs);
    assert_eq!(backend.num_advice_columns, 1);
    assert_eq!(backend.num_fixed_columns, 2);
    assert_eq!(backend.advice_column_phase, vec![0]);
    assert_eq!(backend.gates.len(), 2);
    assert_eq!(backend.gates[0].name(), "gate:named");
    assert_eq!(backend.gates[1].name(), "gate");
    let a_mid = ExpressionMid::Advice(halo2_common::middleware::AdviceQueryMid {
        column_index: 0,
        rotation: Rotation(0),
        phase: 0,
    });
    let f_mid = ExpressionMid::<u64>::Fixed(FixedQueryMid { column_index: 0, rotation: Rotation(1) });
    assert_eq!(
        backend.gates[1].polynomial(),
        &ExpressionMid::Sum(Box::new(a_mid.clone()), Box::new(f_mid))
    );
    assert_eq!(
        backend.permutation.columns,
        vec![ColumnMid { index: 0, column_type: Any::Fixed }]
    );
    assert_eq!(backend.lookups.len(), 1);
    assert_eq!(backend.lookups[0].name, "lookup");
    assert_eq!(backend.lookups[0].input_expressions, vec![a_mid]);
    assert_eq!(
        backend.lookups[0].table_expressions,
        vec![ExpressionMid::Fixed(FixedQueryMid { column_index: 1, rotation: Rotation(0) })]
    );
    assert_eq!(backend.general_column_annotations.len(), 1);
}

fn sample_backend() -> ConstraintSystemV2Backend<u64> {
    let a = |rotation: i32| {
        ExpressionMid::<u64>::Advice(halo2_common::middleware::AdviceQueryMid {
            column_index: 1,
            rotation: Rotation(rotation),
            phase: 0,
        })
    };
    let f = ExpressionMid::<u64>::Fixed(FixedQueryMid { column_index: 0, rotation: Rotation(0) });
    ConstraintSystemV2Backend {
        num_fixed_columns: 1,
        num_advice_columns: 2,
        num_instance_columns: 1,
        num_challenges: 0,
        unblinded_advice_columns: vec![],
        advice_column_phase: vec![0, 0],
        challenge_phase: vec![],
        gates: vec![
            GateV2Backend {
                name: "g0".to_string(),
                poly: ExpressionMid::Product(Box::new(a(0)), Box::new(a(1))),
            },
            GateV2Backend {
                name: "g1".to_string(),
                poly: ExpressionMid::Sum(Box::new(a(0)), Box::new(f.clone())),
            },
        ],
        permutation: PermutationArgumentV2 {
            columns: vec![
                ColumnMid { index: 0, column_type: Any::Advice(Advice { phase: 0 }) },
                ColumnMid { index: 0, column_type: Any::Instance },
            ],
        },
        lookups: vec![LookupArgumentV2 {
            name: "l".to_string(),
            input_expressions: vec![a(1)],
            table_expressions: vec![f],
        }],
        shuffles: vec![ShuffleArgumentV2 {
            name: "s".to_string(),
            input_expressions: vec![a(2)],
            shuffle_expressions: vec![a(0)],
        }],
        general_column_annotations: vec![],
    }
}

#[test]
fn collect_queries_indexes_every_query() {
    let backend = sample_backend();
    let (queries, gates, lookups, shuffles) = collect_queries(&backend);
    let a1 = Column { index: 1, column_type: Advice { phase: 0 } };
    let a0 = Column { index: 0, column_type: Advice { phase: 0 } };
    assert_eq!(
        queries.advice,
        vec![(a1, Rotation(0)), (a1, Rotation(1)), (a1, Rotation(2)), (a0, Rotation(0))]
    );
    assert_eq!(queries.fixed, vec![(Column { index: 0, column_type: Fixed }, Rotation(0))]);
    assert_eq!(queries.instance, vec![(Column { index: 0, column_type: Instance }, Rotation(0))]);
    assert_eq!(queries.num_advice_queries, vec![1, 3]);
    assert_eq!(gates.len(), 2);
    assert_eq!(gates[0].name(), "g0");
    let query = |index: usize, rotation: i32| {
        Expression::<u64>::Advice(AdviceQuery {
            index: Some(index),
            column_index: 1,
            rotation: Rotation(rotation),
            phase: Phase(0),
        })
    };
    assert_eq!(gates[0].polynomials(), &[query(0, 0) * query(1, 1)]);
    assert_eq!(lookups[0].input_expressions(), &vec![query(1, 1)]);
    assert_eq!(shuffles[0].input_expressions(), &vec![query(2, 2)]);
    assert_eq!(shuffles[0].shuffle_expressions(), &vec![query(0, 0)]);
}

#[test]
fn system_from_backend_form() {
    let cs = ConstraintSystem::from(sample_backend());
    assert_eq!(cs.num_advice_columns(), 2);
    assert_eq!(cs.num_fixed_columns(), 1);
    assert_eq!(cs.num_instance_columns(), 1);
    assert_eq!(cs.num_selectors(), 0);
    assert_eq!(cs.gates().len(), 2);
    assert_eq!(cs.lookups().len(), 1);
    assert_eq!(cs.shuffles().len(), 1);
    assert_eq!(cs.num_advice_queries, vec![1, 3]);
    assert_eq!(cs.permutation().columns.len(), 2);
    assert_eq!(cs.degree(), 4);
    assert_eq!(cs.blinding_factors(), 5);
    let pinned = cs.pinned();
    assert_eq!(*pinned.num_advice_columns, 2);
    assert_eq!(pinned.gates.0.len(), 2);
}

#[test]
fn expression_to_backend_form_drops_indices() {
    let expr = Expression::<u64>::Scaled(
        Box::new(Expression::Negated(Box::new(Expression::Instance(InstanceQuery {
            index: Some(3),
            column_index: 2,
            rotation: Rotation(-1),
        })))),
        5,
    );
    let mid = ExpressionMid::from(expr);
    assert_eq!(
        mid,
        ExpressionMid::Scaled(
            Box::new(ExpressionMid::Negated(Box::new(ExpressionMid::Instance(
                halo2_common::middleware::InstanceQueryMid {
                    column_index: 2,
                    rotation: Rotation(-1)
                }
            )))),
            5
        )
    );
}

#[test]
fn column_order_and_queries() {
    let instance = Column { index: 9, column_type: Any::Instance };
    let advice0 = Column { index: 5, column_type: Any::Advice(Advice { phase: 0 }) };
    let advice1 = Column { index: 0, column_type: Any::Advice(Advice { phase: 1 }) };
    let fixed = Column { index: 0, column_type: Any::Fixed };
    assert!(instance.lt(&advice0));
    assert!(advice0.lt(&advice1));
    assert!(advice1.lt(&fixed));
    assert!(instance.lt(&fixed));
    assert!(!fixed.lt(&instance));
    assert!(!fixed.lt(&fixed));
    assert!(Column { index: 1, column_type: Any::Fixed }.lt(&Column { index: 2, column_type: Any::Fixed }));
    assert_eq!(Column::new(3, Fixed).index(), 3);
    assert_eq!(*Column::new(3, Instance).column_type(), Instance);
    assert_eq!(Column::<Advice>::try_from(advice1), Ok(Column::new(0, Advice { phase: 1 })));
    assert_eq!(Column::<Fixed>::try_from(advice1), Err("Cannot convert into Column<Fixed>"));
    assert_eq!(Column::<Instance>::try_from(instance), Ok(Column::new(9, Instance)));
    assert_eq!(
        Column::new(1, Advice { phase: 2 }).query_cell::<u64>(Rotation(3)),
        Expression::Advice(AdviceQuery {
            index: None,
            column_index: 1,
            rotation: Rotation(3),
            phase: Phase(2)
        })
    );
    assert_eq!(
        fixed.prev::<u64>(),
        Expression::Fixed(FixedQuery { index: None, column_index: 0, rotation: Rotation(-1) })
    );
}

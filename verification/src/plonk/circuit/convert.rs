//! Building a constraint system from its selector-free form, and back.

use super::backend::{spec_as_expressions, Queries, QueriesMap, QueryLists};
use super::column::Column;
use super::expression::Expression;
use super::gate::Gate;
use super::sealed;
use super::system::{
    lemma_count_queries_bounded, lemma_query_dedup, spec_count_queries, ConstraintSystem,
};
use crate::middleware::{
    Advice, Any, ColumnMid, ConstraintSystemV2Backend, ExpressionMid, Fixed, GateV2Backend,
    Instance, LookupArgumentV2, PermutationArgumentV2, Rotation, ShuffleArgumentV2,
};
use crate::plonk::{lookup, permutation, shuffle};
use vstd::prelude::*;
use vstd::string::StringExecFns;

verus! {

/// The polynomials of `gates`.
pub open spec fn spec_gate_polys<F>(gates: Seq<GateV2Backend<F>>) -> Seq<ExpressionMid<F>> {
    Seq::new(gates.len(), |i: int| gates[i].poly)
}

/// The lists after the queries of the first `count` lookups of `lookups`
/// were interned, each lookup's inputs before its table.
pub open spec fn spec_lookups_lists<F>(
    lookups: Seq<LookupArgumentV2<F>>,
    count: nat,
    lists: QueryLists,
) -> QueryLists
    decreases count,
{
    if count == 0 {
        lists
    } else {
        let mid = spec_lookups_lists(lookups, (count - 1) as nat, lists);
        let between = spec_as_expressions(lookups[count - 1].input_expressions@, mid).1;
        spec_as_expressions(lookups[count - 1].table_expressions@, between).1
    }
}

/// The lists after the queries of the first `count` shuffles of `shuffles`
/// were interned, each shuffle's inputs before its shuffle expressions.
pub open spec fn spec_shuffles_lists<F>(
    shuffles: Seq<ShuffleArgumentV2<F>>,
    count: nat,
    lists: QueryLists,
) -> QueryLists
    decreases count,
{
    if count == 0 {
        lists
    } else {
        let mid = spec_shuffles_lists(shuffles, (count - 1) as nat, lists);
        let between = spec_as_expressions(shuffles[count - 1].input_expressions@, mid).1;
        spec_as_expressions(shuffles[count - 1].shuffle_expressions@, between).1
    }
}

/// Whether `lookup` is the lookup `source` with its queries interned and
/// indexed, on from the lists `lists`.
pub open spec fn spec_lookup_collected<F>(
    source: LookupArgumentV2<F>,
    lookup: lookup::Argument<F>,
    lists: QueryLists,
) -> bool {
    let (inputs, between) = spec_as_expressions(source.input_expressions@, lists);
    &&& lookup.name@ == source.name@
    &&& lookup.input_expressions@ == inputs
    &&& lookup.table_expressions@ == spec_as_expressions(source.table_expressions@, between).0
}

/// Whether `shuffle` is the shuffle `source` with its queries interned and
/// indexed, on from the lists `lists`.
pub open spec fn spec_shuffle_collected<F>(
    source: ShuffleArgumentV2<F>,
    shuffle: shuffle::Argument<F>,
    lists: QueryLists,
) -> bool {
    let (inputs, between) = spec_as_expressions(source.input_expressions@, lists);
    &&& shuffle.name@ == source.name@
    &&& shuffle.input_expressions@ == inputs
    &&& shuffle.shuffle_expressions@ == spec_as_expressions(
        source.shuffle_expressions@,
        between,
    ).0
}

/// Collect queries used in gates while mapping those gates to equivalent
/// ones with indexed query references in the expressions.
pub fn cs2_collect_queries_gates<F: Copy>(
    cs2: &ConstraintSystemV2Backend<F>,
    queries: &mut QueriesMap,
) -> (r: Vec<Gate<F>>)
    ensures
        final(queries).spec_lists() == spec_as_expressions(
            spec_gate_polys(cs2.gates@),
            old(queries).spec_lists(),
        ).1,
        r@.len() == cs2.gates@.len(),
        forall|k: int|
            0 <= k < r@.len() ==> {
                &&& (#[trigger] r@[k]).name@ == cs2.gates@[k].name@
                &&& r@[k].constraint_names@.len() == 0
                &&& r@[k].polys@ == seq![
                    spec_as_expressions(spec_gate_polys(cs2.gates@), old(queries).spec_lists()).0[k],
                ]
                &&& r@[k].queried_selectors@.len() == 0
                &&& r@[k].queried_cells@.len() == 0
            },
{
    let ghost polys = spec_gate_polys(cs2.gates@);
    let ghost start = queries.spec_lists();
    let ghost mut converted: Seq<Expression<F>> = Seq::empty();
    let mut out: Vec<Gate<F>> = Vec::new();
    let mut k: usize = 0;
    while k < cs2.gates.len()
        invariant
            k <= cs2.gates.len(),
            polys == spec_gate_polys(cs2.gates@),
            out@.len() == k,
            converted.len() == k,
            (converted, queries.spec_lists()) == spec_as_expressions(
                polys.subrange(0, k as int),
                start,
            ),
            forall|j: int|
                0 <= j < k ==> {
                    &&& (#[trigger] out@[j]).name@ == cs2.gates@[j].name@
                    &&& out@[j].constraint_names@.len() == 0
                    &&& out@[j].polys@ == seq![converted[j]]
                    &&& out@[j].queried_selectors@.len() == 0
                    &&& out@[j].queried_cells@.len() == 0
                },
        decreases cs2.gates.len() - k,
    {
        let gate = &cs2.gates[k];
        proof {
            assert(polys.subrange(0, k + 1).drop_last() =~= polys.subrange(0, k as int));
            assert(polys.subrange(0, k + 1).last() == gate.poly);
        }
        let poly = queries.as_expression(gate.polynomial());
        let mut gate_polys: Vec<Expression<F>> = Vec::new();
        gate_polys.push(poly);
        proof {
            assert(gate_polys@ =~= seq![poly]);
            converted = converted.push(poly);
        }
        out.push(
            Gate {
                name: gate.name.clone(),
                constraint_names: Vec::new(),
                polys: gate_polys,
                queried_selectors: Vec::new(),
                queried_cells: Vec::new(),
            },
        );
        k += 1;
    }
    proof {
        assert(polys.subrange(0, polys.len() as int) =~= polys);
    }
    out
}

/// Collect queries used in lookups while mapping those lookups to
/// equivalent ones with indexed query references in the expressions.
pub fn cs2_collect_queries_lookups<F: Copy>(
    cs2: &ConstraintSystemV2Backend<F>,
    queries: &mut QueriesMap,
) -> (r: Vec<lookup::Argument<F>>)
    ensures
        final(queries).spec_lists() == spec_lookups_lists(
            cs2.lookups@,
            cs2.lookups@.len(),
            old(queries).spec_lists(),
        ),
        r@.len() == cs2.lookups@.len(),
        forall|k: int|
            0 <= k < r@.len() ==> spec_lookup_collected(
                cs2.lookups@[k],
                #[trigger] r@[k],
                spec_lookups_lists(cs2.lookups@, k as nat, old(queries).spec_lists()),
            ),
{
    let ghost start = queries.spec_lists();
    let mut out: Vec<lookup::Argument<F>> = Vec::new();
    let mut k: usize = 0;
    while k < cs2.lookups.len()
        invariant
            k <= cs2.lookups.len(),
            out@.len() == k,
            queries.spec_lists() == spec_lookups_lists(cs2.lookups@, k as nat, start),
            forall|j: int|
                0 <= j < k ==> spec_lookup_collected(
                    cs2.lookups@[j],
                    #[trigger] out@[j],
                    spec_lookups_lists(cs2.lookups@, j as nat, start),
                ),
        decreases cs2.lookups.len() - k,
    {
        let lookup = &cs2.lookups[k];
        let input_expressions = queries.as_expressions(&lookup.input_expressions);
        let table_expressions = queries.as_expressions(&lookup.table_expressions);
        out.push(
            lookup::Argument { name: lookup.name.clone(), input_expressions, table_expressions },
        );
        k += 1;
    }
    out
}

/// Collect queries used in shuffles while mapping those shuffles to
/// equivalent ones with indexed query references in the expressions.
pub fn cs2_collect_queries_shuffles<F: Copy>(
    cs2: &ConstraintSystemV2Backend<F>,
    queries: &mut QueriesMap,
) -> (r: Vec<shuffle::Argument<F>>)
    ensures
        final(queries).spec_lists() == spec_shuffles_lists(
            cs2.shuffles@,
            cs2.shuffles@.len(),
            old(queries).spec_lists(),
        ),
        r@.len() == cs2.shuffles@.len(),
        forall|k: int|
            0 <= k < r@.len() ==> spec_shuffle_collected(
                cs2.shuffles@[k],
                #[trigger] r@[k],
                spec_shuffles_lists(cs2.shuffles@, k as nat, old(queries).spec_lists()),
            ),
{
    let ghost start = queries.spec_lists();
    let mut out: Vec<shuffle::Argument<F>> = Vec::new();
    let mut k: usize = 0;
    while k < cs2.shuffles.len()
        invariant
            k <= cs2.shuffles.len(),
            out@.len() == k,
            queries.spec_lists() == spec_shuffles_lists(cs2.shuffles@, k as nat, start),
            forall|j: int|
                0 <= j < k ==> spec_shuffle_collected(
                    cs2.shuffles@[j],
                    #[trigger] out@[j],
                    spec_shuffles_lists(cs2.shuffles@, j as nat, start),
                ),
        decreases cs2.shuffles.len() - k,
    {
        let shuffle = &cs2.shuffles[k];
        let input_expressions = queries.as_expressions(&shuffle.input_expressions);
        let shuffle_expressions = queries.as_expressions(&shuffle.shuffle_expressions);
        out.push(
            shuffle::Argument { name: shuffle.name.clone(), input_expressions, shuffle_expressions },
        );
        k += 1;
    }
    out
}

/// Interns a query at the current row of each column of `columns`.
pub fn add_columns(queries: &mut QueriesMap, columns: &Vec<ColumnMid>)
    ensures
        final(queries).spec_lists() == old(queries).spec_lists().spec_add_columns(columns@),
{
    let ghost start = queries.spec_lists();
    let mut i: usize = 0;
    while i < columns.len()
        invariant
            i <= columns.len(),
            queries.spec_lists() == start.spec_add_columns(columns@.subrange(0, i as int)),
        decreases columns.len() - i,
    {
        let column = &columns[i];
        proof {
            assert(columns@.subrange(0, i + 1).drop_last() =~= columns@.subrange(0, i as int));
            assert(columns@.subrange(0, i + 1).last() == *column);
        }
        match column.column_type {
            Any::Instance => {
                queries.add_instance(Column::new(column.index, Instance), Rotation::cur());
            },
            Any::Fixed => {
                queries.add_fixed(Column::new(column.index, Fixed), Rotation::cur());
            },
            Any::Advice(advice) => {
                queries.add_advice(Column::new(column.index, advice), Rotation::cur());
            },
        };
        i += 1;
    }
    proof {
        assert(columns@.subrange(0, columns@.len() as int) =~= columns@);
    }
}

/// For each of `columns` advice columns, the number of queries of `advice`
/// into it. Every query must go into one of the columns.
pub fn count_advice_queries(advice: &Vec<(Column<Advice>, Rotation)>, columns: usize) -> (r: Vec<
    usize,
>)
    requires
        forall|i: int| 0 <= i < advice@.len() ==> (#[trigger] advice@[i]).0.index < columns,
    ensures
        r@.len() == columns,
        forall|c: int| 0 <= c < columns ==> (#[trigger] r@[c]) == spec_count_queries(advice@, c),
{
    let mut num_advice_queries: Vec<usize> = Vec::new();
    let mut c: usize = 0;
    while c < columns
        invariant
            c <= columns,
            num_advice_queries@.len() == c,
            forall|t: int| 0 <= t < c ==> #[trigger] num_advice_queries@[t] == 0,
        decreases columns - c,
    {
        num_advice_queries.push(0);
        c += 1;
    }
    let mut q: usize = 0;
    while q < advice.len()
        invariant
            q <= advice.len(),
            forall|i: int| 0 <= i < advice@.len() ==> (#[trigger] advice@[i]).0.index < columns,
            num_advice_queries@.len() == columns,
            forall|t: int|
                0 <= t < columns ==> (#[trigger] num_advice_queries@[t]) == spec_count_queries(
                    advice@.subrange(0, q as int),
                    t,
                ),
        decreases advice.len() - q,
    {
        let column = advice[q].0;
        proof {
            assert(advice@.subrange(0, q + 1).drop_last() =~= advice@.subrange(0, q as int));
            assert(advice@.subrange(0, q + 1).last() == advice@[q as int]);
            lemma_count_queries_bounded(advice@.subrange(0, q as int), column.index as int);
        }
        let count = num_advice_queries[column.index()];
        num_advice_queries[column.index()] = count + 1;
        q += 1;
    }
    proof {
        assert(advice@.subrange(0, advice@.len() as int) =~= advice@);
    }
    num_advice_queries
}

/// The lists of all queries of `cs2`: those of its gates, then of its
/// lookups, then of its shuffles, then a query at the current row of each
/// column of its permutation argument.
pub open spec fn spec_collected_lists<F>(cs2: ConstraintSystemV2Backend<F>) -> QueryLists {
    let gates = spec_as_expressions(spec_gate_polys(cs2.gates@), QueryLists::spec_empty()).1;
    let lookups = spec_lookups_lists(cs2.lookups@, cs2.lookups@.len(), gates);
    let shuffles = spec_shuffles_lists(cs2.shuffles@, cs2.shuffles@.len(), lookups);
    shuffles.spec_add_columns(cs2.permutation.columns@)
}

/// Whether `gates`, `lookups` and `shuffles` are those of `cs2` with their
/// queries interned and indexed.
pub open spec fn spec_collected<F>(
    cs2: ConstraintSystemV2Backend<F>,
    gates: Seq<Gate<F>>,
    lookups: Seq<lookup::Argument<F>>,
    shuffles: Seq<shuffle::Argument<F>>,
) -> bool {
    let start = QueryLists::spec_empty();
    let converted = spec_as_expressions(spec_gate_polys(cs2.gates@), start);
    let after_lookups = spec_lookups_lists(cs2.lookups@, cs2.lookups@.len(), converted.1);
    &&& gates.len() == cs2.gates@.len()
    &&& forall|k: int|
        0 <= k < gates.len() ==> {
            &&& (#[trigger] gates[k]).name@ == cs2.gates@[k].name@
            &&& gates[k].constraint_names@.len() == 0
            &&& gates[k].polys@ == seq![converted.0[k]]
            &&& gates[k].queried_selectors@.len() == 0
            &&& gates[k].queried_cells@.len() == 0
        }
    &&& lookups.len() == cs2.lookups@.len()
    &&& forall|k: int|
        0 <= k < lookups.len() ==> spec_lookup_collected(
            cs2.lookups@[k],
            #[trigger] lookups[k],
            spec_lookups_lists(cs2.lookups@, k as nat, converted.1),
        )
    &&& shuffles.len() == cs2.shuffles@.len()
    &&& forall|k: int|
        0 <= k < shuffles.len() ==> spec_shuffle_collected(
            cs2.shuffles@[k],
            #[trigger] shuffles[k],
            spec_shuffles_lists(cs2.shuffles@, k as nat, after_lookups),
        )
}

/// Whether every advice query of `cs2` goes into one of its advice
/// columns.
pub open spec fn spec_advice_allocated<F>(cs2: ConstraintSystemV2Backend<F>) -> bool {
    forall|i: int|
        0 <= i < spec_collected_lists(cs2).advice.len() ==> (#[trigger] spec_collected_lists(
            cs2,
        ).advice[i]).0.index < cs2.num_advice_columns
}

/// Whether no list holds a query twice.
pub open spec fn spec_distinct(lists: QueryLists) -> bool {
    &&& lists.advice.no_duplicates()
    &&& lists.instance.no_duplicates()
    &&& lists.fixed.no_duplicates()
}

/// Interning the queries of an expression keeps the queries distinct.
pub proof fn lemma_as_expression_distinct<F>(expr: ExpressionMid<F>, lists: QueryLists)
    requires
        spec_distinct(lists),
    ensures
        spec_distinct(expr.spec_as_expression(lists).1),
    decreases expr,
{
    match expr {
        ExpressionMid::Fixed(query) => {
            lemma_query_dedup(
                lists.fixed,
                (Column { index: query.column_index, column_type: Fixed }, query.rotation),
            );
        },
        ExpressionMid::Advice(query) => {
            lemma_query_dedup(
                lists.advice,
                (
                    Column { index: query.column_index, column_type: Advice { phase: query.phase } },
                    query.rotation,
                ),
            );
        },
        ExpressionMid::Instance(query) => {
            lemma_query_dedup(
                lists.instance,
                (Column { index: query.column_index, column_type: Instance }, query.rotation),
            );
        },
        ExpressionMid::Negated(e) => {
            lemma_as_expression_distinct(*e, lists);
        },
        ExpressionMid::Sum(lhs, rhs) => {
            lemma_as_expression_distinct(*lhs, lists);
            lemma_as_expression_distinct(*rhs, lhs.spec_as_expression(lists).1);
        },
        ExpressionMid::Product(lhs, rhs) => {
            lemma_as_expression_distinct(*lhs, lists);
            lemma_as_expression_distinct(*rhs, lhs.spec_as_expression(lists).1);
        },
        ExpressionMid::Scaled(e, _) => {
            lemma_as_expression_distinct(*e, lists);
        },
        _ => {},
    }
}

/// Interning the queries of some expressions keeps the queries distinct.
pub proof fn lemma_as_expressions_distinct<F>(exprs: Seq<ExpressionMid<F>>, lists: QueryLists)
    requires
        spec_distinct(lists),
    ensures
        spec_distinct(spec_as_expressions(exprs, lists).1),
    decreases exprs.len(),
{
    if exprs.len() > 0 {
        lemma_as_expressions_distinct(exprs.drop_last(), lists);
        lemma_as_expression_distinct(exprs.last(), spec_as_expressions(exprs.drop_last(), lists).1);
    }
}

/// Interning the queries of some lookups keeps the queries distinct.
pub proof fn lemma_lookups_distinct<F>(
    lookups: Seq<LookupArgumentV2<F>>,
    count: nat,
    lists: QueryLists,
)
    requires
        spec_distinct(lists),
    ensures
        spec_distinct(spec_lookups_lists(lookups, count, lists)),
    decreases count,
{
    if count > 0 {
        lemma_lookups_distinct(lookups, (count - 1) as nat, lists);
        let mid = spec_lookups_lists(lookups, (count - 1) as nat, lists);
        lemma_as_expressions_distinct(lookups[count - 1].input_expressions@, mid);
        let between = spec_as_expressions(lookups[count - 1].input_expressions@, mid).1;
        lemma_as_expressions_distinct(lookups[count - 1].table_expressions@, between);
    }
}

/// Interning the queries of some shuffles keeps the queries distinct.
pub proof fn lemma_shuffles_distinct<F>(
    shuffles: Seq<ShuffleArgumentV2<F>>,
    count: nat,
    lists: QueryLists,
)
    requires
        spec_distinct(lists),
    ensures
        spec_distinct(spec_shuffles_lists(shuffles, count, lists)),
    decreases count,
{
    if count > 0 {
        lemma_shuffles_distinct(shuffles, (count - 1) as nat, lists);
        let mid = spec_shuffles_lists(shuffles, (count - 1) as nat, lists);
        lemma_as_expressions_distinct(shuffles[count - 1].input_expressions@, mid);
        let between = spec_as_expressions(shuffles[count - 1].input_expressions@, mid).1;
        lemma_as_expressions_distinct(shuffles[count - 1].shuffle_expressions@, between);
    }
}

/// Interning a query of each of some columns keeps the queries distinct.
pub proof fn lemma_add_columns_distinct(lists: QueryLists, columns: Seq<ColumnMid>)
    requires
        spec_distinct(lists),
    ensures
        spec_distinct(lists.spec_add_columns(columns)),
    decreases columns.len(),
{
    if columns.len() > 0 {
        lemma_add_columns_distinct(lists, columns.drop_last());
        let mid = lists.spec_add_columns(columns.drop_last());
        let column = columns.last();
        match column.column_type {
            Any::Instance => {
                lemma_query_dedup(
                    mid.instance,
                    (Column { index: column.index, column_type: Instance }, Rotation(0)),
                );
            },
            Any::Fixed => {
                lemma_query_dedup(
                    mid.fixed,
                    (Column { index: column.index, column_type: Fixed }, Rotation(0)),
                );
            },
            Any::Advice(advice) => {
                lemma_query_dedup(
                    mid.advice,
                    (Column { index: column.index, column_type: advice }, Rotation(0)),
                );
            },
        }
    }
}

/// No list of the queries of a selector-free form holds a query twice.
pub proof fn lemma_collected_distinct<F>(cs2: ConstraintSystemV2Backend<F>)
    ensures
        spec_distinct(spec_collected_lists(cs2)),
{
    let start = QueryLists::spec_empty();
    lemma_as_expressions_distinct(spec_gate_polys(cs2.gates@), start);
    let gates = spec_as_expressions(spec_gate_polys(cs2.gates@), start).1;
    lemma_lookups_distinct(cs2.lookups@, cs2.lookups@.len(), gates);
    let lookups = spec_lookups_lists(cs2.lookups@, cs2.lookups@.len(), gates);
    lemma_shuffles_distinct(cs2.shuffles@, cs2.shuffles@.len(), lookups);
    let shuffles = spec_shuffles_lists(cs2.shuffles@, cs2.shuffles@.len(), lookups);
    lemma_add_columns_distinct(shuffles, cs2.permutation.columns@);
}

/// Collect all queries used in the expressions of gates, lookups and
/// shuffles. Map the expressions of gates, lookups and shuffles into
/// equivalent ones with indexed query references. Every advice query must
/// go into an advice column of `cs2`.
pub fn collect_queries<F: Copy>(cs2: &ConstraintSystemV2Backend<F>) -> (r: (
    Queries,
    Vec<Gate<F>>,
    Vec<lookup::Argument<F>>,
    Vec<shuffle::Argument<F>>,
))
    requires
        spec_advice_allocated(*cs2),
    ensures
        r.0.advice@ == spec_collected_lists(*cs2).advice,
        r.0.instance@ == spec_collected_lists(*cs2).instance,
        r.0.fixed@ == spec_collected_lists(*cs2).fixed,
        r.0.num_advice_queries@.len() == cs2.num_advice_columns,
        forall|c: int|
            0 <= c < cs2.num_advice_columns ==> (#[trigger] r.0.num_advice_queries@[c])
                == spec_count_queries(r.0.advice@, c),
        spec_collected(*cs2, r.1@, r.2@, r.3@),
{
    let mut queries = QueriesMap { advice: Vec::new(), instance: Vec::new(), fixed: Vec::new() };
    assert(queries.spec_lists() == QueryLists::spec_empty());

    let gates = cs2_collect_queries_gates(cs2, &mut queries);
    let lookups = cs2_collect_queries_lookups(cs2, &mut queries);
    let shuffles = cs2_collect_queries_shuffles(cs2, &mut queries);
    let ghost collected = queries.spec_lists();

    // Each column used in a copy constraint involves a query at rotation
    // current.
    add_columns(&mut queries, &cs2.permutation.columns);
    proof {
        assert(queries.spec_lists() == spec_collected_lists(*cs2));
        assert forall|i: int| 0 <= i < queries.advice@.len() implies (
        #[trigger] queries.advice@[i]).0.index < cs2.num_advice_columns by {
            assert(spec_collected_lists(*cs2).advice[i].0.index < cs2.num_advice_columns);
        }
    }
    let num_advice_queries = count_advice_queries(&queries.advice, cs2.num_advice_columns);

    let queries = Queries {
        advice: queries.advice,
        instance: queries.instance,
        fixed: queries.fixed,
        num_advice_queries,
    };
    (queries, gates, lookups, shuffles)
}

/// The phases with the numbers `numbers`.
pub fn phases_from(numbers: &Vec<u8>) -> (r: Vec<sealed::Phase>)
    ensures
        r@.len() == numbers@.len(),
        forall|i: int| 0 <= i < r@.len() ==> (#[trigger] r@[i]).0 == numbers@[i],
{
    let mut out: Vec<sealed::Phase> = Vec::new();
    let mut i: usize = 0;
    while i < numbers.len()
        invariant
            i <= numbers.len(),
            out@.len() == i,
            forall|j: int| 0 <= j < i ==> (#[trigger] out@[j]).0 == numbers@[j],
        decreases numbers.len() - i,
    {
        out.push(sealed::Phase(numbers[i]));
        i += 1;
    }
    out
}

/// The numbers of the phases `phases`.
pub fn phases_to_numbers(phases: &Vec<sealed::Phase>) -> (r: Vec<u8>)
    ensures
        r@.len() == phases@.len(),
        forall|i: int| 0 <= i < r@.len() ==> #[trigger] r@[i] == phases@[i].0,
{
    let mut out: Vec<u8> = Vec::new();
    let mut i: usize = 0;
    while i < phases.len()
        invariant
            i <= phases.len(),
            out@.len() == i,
            forall|j: int| 0 <= j < i ==> #[trigger] out@[j] == phases@[j].0,
        decreases phases.len() - i,
    {
        out.push(phases[i].0);
        i += 1;
    }
    out
}

impl From<PermutationArgumentV2> for permutation::Argument {
    /// The permutation argument over the same columns.
    fn from(arg: PermutationArgumentV2) -> (r: Self)
        ensures
            r.columns@.len() == arg.columns@.len(),
            forall|i: int|
                0 <= i < r.columns@.len() ==> (#[trigger] r.columns@[i]) == (Column {
                    index: arg.columns@[i].index,
                    column_type: arg.columns@[i].column_type,
                }),
    {
        let mut columns: Vec<Column<Any>> = Vec::new();
        let mut i: usize = 0;
        while i < arg.columns.len()
            invariant
                i <= arg.columns.len(),
                columns@.len() == i,
                forall|j: int|
                    0 <= j < i ==> (#[trigger] columns@[j]) == (Column {
                        index: arg.columns@[j].index,
                        column_type: arg.columns@[j].column_type,
                    }),
            decreases arg.columns.len() - i,
        {
            let column = arg.columns[i];
            columns.push(Column { index: column.index, column_type: column.column_type });
            i += 1;
        }
        permutation::Argument { columns }
    }
}

impl vstd::std_specs::convert::FromSpecImpl<PermutationArgumentV2> for permutation::Argument {
    open spec fn obeys_from_spec() -> bool {
        false
    }

    open spec fn from_spec(arg: PermutationArgumentV2) -> Self {
        arbitrary()
    }
}

impl<F> ConstraintSystem<F> {
    /// The constraint system with the selector-free form `cs2`: its
    /// columns, challenges and annotations, its gates, lookups and shuffles
    /// with their queries interned and indexed, and its permutation
    /// argument. Every advice query of `cs2` must go into one of its advice
    /// columns. Where `cs2` has a phase for each advice column and each
    /// challenge, the tables of the system agree with each other.
    pub fn from(cs2: ConstraintSystemV2Backend<F>) -> (r: Self) where F: Copy
        requires
            spec_advice_allocated(cs2),
        ensures
            r.num_fixed_columns == cs2.num_fixed_columns,
            r.num_advice_columns == cs2.num_advice_columns,
            r.num_instance_columns == cs2.num_instance_columns,
            r.num_selectors == 0,
            r.num_challenges == cs2.num_challenges,
            r.unblinded_advice_columns == cs2.unblinded_advice_columns,
            r.advice_column_phase@.len() == cs2.advice_column_phase@.len(),
            forall|i: int|
                0 <= i < r.advice_column_phase@.len() ==> (#[trigger] r.advice_column_phase@[i]).0
                    == cs2.advice_column_phase@[i],
            r.challenge_phase@.len() == cs2.challenge_phase@.len(),
            forall|i: int|
                0 <= i < r.challenge_phase@.len() ==> (#[trigger] r.challenge_phase@[i]).0
                    == cs2.challenge_phase@[i],
            r.selector_map@.len() == 0,
            spec_collected(cs2, r.gates@, r.lookups@, r.shuffles@),
            r.advice_queries@ == spec_collected_lists(cs2).advice,
            r.instance_queries@ == spec_collected_lists(cs2).instance,
            r.fixed_queries@ == spec_collected_lists(cs2).fixed,
            r.num_advice_queries@.len() == cs2.num_advice_columns,
            forall|c: int|
                0 <= c < cs2.num_advice_columns ==> (#[trigger] r.num_advice_queries@[c])
                    == spec_count_queries(r.advice_queries@, c),
            r.permutation.columns@.len() == cs2.permutation.columns@.len(),
            forall|i: int|
                0 <= i < r.permutation.columns@.len() ==> (#[trigger] r.permutation.columns@[i])
                    == (Column {
                    index: cs2.permutation.columns@[i].index,
                    column_type: cs2.permutation.columns@[i].column_type,
                }),
            r.general_column_annotations == cs2.general_column_annotations,
            r.constants@.len() == 0,
            r.minimum_degree.is_none(),
            cs2.advice_column_phase@.len() == cs2.num_advice_columns && cs2.challenge_phase@.len()
                == cs2.num_challenges ==> r.spec_wf(),
    {
        proof {
            lemma_collected_distinct(cs2);
        }
        let (queries, gates, lookups, shuffles) = collect_queries(&cs2);
        let advice_column_phase = phases_from(&cs2.advice_column_phase);
        let challenge_phase = phases_from(&cs2.challenge_phase);
        ConstraintSystem {
            num_fixed_columns: cs2.num_fixed_columns,
            num_advice_columns: cs2.num_advice_columns,
            num_instance_columns: cs2.num_instance_columns,
            num_selectors: 0,
            num_challenges: cs2.num_challenges,
            unblinded_advice_columns: cs2.unblinded_advice_columns,
            advice_column_phase,
            challenge_phase,
            selector_map: Vec::new(),
            gates,
            advice_queries: queries.advice,
            num_advice_queries: queries.num_advice_queries,
            instance_queries: queries.instance,
            fixed_queries: queries.fixed,
            permutation: permutation::Argument::from(cs2.permutation),
            lookups,
            shuffles,
            general_column_annotations: cs2.general_column_annotations,
            constants: Vec::new(),
            minimum_degree: None,
        }
    }
}

/// The name of a flattened gate: the name of its gate, followed by a colon
/// and the name of the constraint unless that name is empty.
pub open spec fn spec_merged_name(gate: Seq<char>, constraint: Seq<char>) -> Seq<char> {
    if constraint.len() == 0 {
        gate
    } else {
        gate + ":"@ + constraint
    }
}

/// The selector-free forms of `exprs`.
pub open spec fn spec_to_mids<F>(exprs: Seq<Expression<F>>) -> Seq<ExpressionMid<F>> {
    Seq::new(exprs.len(), |i: int| exprs[i].spec_to_mid())
}

/// Whether no expression of `exprs` holds a selector.
pub open spec fn spec_selector_free<F>(exprs: Seq<Expression<F>>) -> bool {
    forall|i: int| 0 <= i < exprs.len() ==> (#[trigger] exprs[i]).spec_selector_free()
}

/// The names and polynomials of the flattened gates of `gates`: one for
/// each polynomial of each gate, in order.
pub open spec fn spec_flatten<F>(gates: Seq<Gate<F>>) -> Seq<(Seq<char>, ExpressionMid<F>)>
    decreases gates.len(),
{
    if gates.len() == 0 {
        Seq::empty()
    } else {
        spec_flatten(gates.drop_last()) + Seq::new(
            gates.last().polys@.len(),
            |i: int|
                (
                    spec_merged_name(gates.last().name@, gates.last().constraint_names@[i]@),
                    gates.last().polys@[i].spec_to_mid(),
                ),
        )
    }
}

/// The selector-free forms of `exprs`, none of which may hold a selector.
pub fn expressions_to_mid<F>(exprs: Vec<Expression<F>>) -> (r: Vec<ExpressionMid<F>>)
    requires
        spec_selector_free(exprs@),
    ensures
        r@ == spec_to_mids(exprs@),
{
    let ghost all = exprs@;
    let mut out: Vec<ExpressionMid<F>> = Vec::new();
    for e in it: exprs
        invariant
            it.seq() == all,
            spec_selector_free(all),
            out@.len() == it.index(),
            forall|j: int| 0 <= j < it.index() ==> #[trigger] out@[j] == all[j].spec_to_mid(),
    {
        assert(e == all[it.index() as int]);
        out.push(ExpressionMid::from(e));
    }
    proof {
        assert(out@ =~= spec_to_mids(all));
    }
    out
}

impl<F> ConstraintSystem<F> {
    /// Whether the system has a selector-free form: no gate, lookup or
    /// shuffle holds a selector, and every gate has a name for each of its
    /// polynomials.
    pub open spec fn spec_selector_free(&self) -> bool {
        &&& forall|k: int|
            0 <= k < self.gates@.len() ==> spec_selector_free((#[trigger] self.gates@[k]).polys@)
                && self.gates@[k].constraint_names@.len() >= self.gates@[k].polys@.len()
        &&& forall|k: int|
            0 <= k < self.lookups@.len() ==> spec_selector_free(
                (#[trigger] self.lookups@[k]).input_expressions@,
            ) && spec_selector_free(self.lookups@[k].table_expressions@)
        &&& forall|k: int|
            0 <= k < self.shuffles@.len() ==> spec_selector_free(
                (#[trigger] self.shuffles@[k]).input_expressions@,
            ) && spec_selector_free(self.shuffles@[k].shuffle_expressions@)
    }
}

impl<F> ConstraintSystemV2Backend<F> {
    /// The selector-free form of `cs`: its columns, challenges and
    /// annotations, one gate for each polynomial of each of its gates, and
    /// its permutation argument, lookups and shuffles. The name of
    /// a flattened gate is the name of its gate, followed by a colon and the
    /// name of the constraint unless that name is empty.
    pub fn from(cs: ConstraintSystem<F>) -> (r: Self)
        requires
            cs.spec_selector_free(),
        ensures
            r.num_fixed_columns == cs.num_fixed_columns,
            r.num_advice_columns == cs.num_advice_columns,
            r.num_instance_columns == cs.num_instance_columns,
            r.num_challenges == cs.num_challenges,
            r.unblinded_advice_columns == cs.unblinded_advice_columns,
            r.advice_column_phase@.len() == cs.advice_column_phase@.len(),
            forall|i: int|
                0 <= i < r.advice_column_phase@.len() ==> #[trigger] r.advice_column_phase@[i]
                    == cs.advice_column_phase@[i].0,
            r.challenge_phase@.len() == cs.challenge_phase@.len(),
            forall|i: int|
                0 <= i < r.challenge_phase@.len() ==> #[trigger] r.challenge_phase@[i]
                    == cs.challenge_phase@[i].0,
            r.gates@.len() == spec_flatten(cs.gates@).len(),
            forall|i: int|
                0 <= i < r.gates@.len() ==> (#[trigger] r.gates@[i]).name@ == spec_flatten(
                    cs.gates@,
                )[i].0 && r.gates@[i].poly == spec_flatten(cs.gates@)[i].1,
            r.permutation.columns@.len() == cs.permutation.columns@.len(),
            forall|i: int|
                0 <= i < r.permutation.columns@.len() ==> (#[trigger] r.permutation.columns@[i])
                    == (ColumnMid {
                    index: cs.permutation.columns@[i].index,
                    column_type: cs.permutation.columns@[i].column_type,
                }),
            r.lookups@.len() == cs.lookups@.len(),
            forall|k: int|
                0 <= k < r.lookups@.len() ==> (#[trigger] r.lookups@[k]).name
                    == cs.lookups@[k].name && r.lookups@[k].input_expressions@ == spec_to_mids(
                    cs.lookups@[k].input_expressions@,
                ) && r.lookups@[k].table_expressions@ == spec_to_mids(
                    cs.lookups@[k].table_expressions@,
                ),
            r.shuffles@.len() == cs.shuffles@.len(),
            forall|k: int|
                0 <= k < r.shuffles@.len() ==> (#[trigger] r.shuffles@[k]).name
                    == cs.shuffles@[k].name && r.shuffles@[k].input_expressions@ == spec_to_mids(
                    cs.shuffles@[k].input_expressions@,
                ) && r.shuffles@[k].shuffle_expressions@ == spec_to_mids(
                    cs.shuffles@[k].shuffle_expressions@,
                ),
            r.general_column_annotations == cs.general_column_annotations,
    {
        let advice_column_phase = phases_to_numbers(&cs.advice_column_phase);
        let challenge_phase = phases_to_numbers(&cs.challenge_phase);

        let ghost all_gates = cs.gates@;
        let mut gates: Vec<GateV2Backend<F>> = Vec::new();
        for gate in it: cs.gates
            invariant
                it.seq() == all_gates,
                forall|k: int|
                    0 <= k < all_gates.len() ==> spec_selector_free((#[trigger] all_gates[k]).polys@)
                        && all_gates[k].constraint_names@.len() >= all_gates[k].polys@.len(),
                gates@.len() == spec_flatten(all_gates.subrange(0, it.index() as int)).len(),
                forall|i: int|
                    0 <= i < gates@.len() ==> (#[trigger] gates@[i]).name@ == spec_flatten(
                        all_gates.subrange(0, it.index() as int),
                    )[i].0 && gates@[i].poly == spec_flatten(
                        all_gates.subrange(0, it.index() as int),
                    )[i].1,
        {
            let ghost k = it.index() as int;
            assert(gate == all_gates[k]);
            proof {
                assert(all_gates.subrange(0, k + 1).drop_last() =~= all_gates.subrange(0, k));
                assert(all_gates.subrange(0, k + 1).last() == all_gates[k]);
            }
            let ghost done = spec_flatten(all_gates.subrange(0, k));
            let Gate { name: gate_name, constraint_names, polys, queried_selectors, queried_cells } =
                gate;
            let ghost all_polys = polys@;
            let total = constraint_names.len();
            let mut i: usize = 0;
            for e in pit: polys
                invariant
                    pit.seq() == all_polys,
                    i == pit.index(),
                    0 <= k < all_gates.len(),
                    total == constraint_names@.len(),
                    all_polys == all_gates[k].polys@,
                    constraint_names == all_gates[k].constraint_names,
                    gate_name == all_gates[k].name,
                    spec_selector_free(all_polys),
                    constraint_names@.len() >= all_polys.len(),
                    gates@.len() == done.len() + i,
                    forall|j: int|
                        0 <= j < done.len() ==> (#[trigger] gates@[j]).name@ == done[j].0
                            && gates@[j].poly == done[j].1,
                    forall|j: int|
                        0 <= j < i ==> (#[trigger] gates@[done.len() + j]).name@
                            == spec_merged_name(gate_name@, constraint_names@[j]@) && gates@[done.len()
                            + j].poly == all_polys[j].spec_to_mid(),
            {
                assert(e == all_polys[i as int]);
                let constraint_name = constraint_names[i].as_str();
                let name = if constraint_name.is_empty() {
                    gate_name.clone()
                } else {
                    let mut merged = gate_name.clone();
                    merged.append(":");
                    merged.append(constraint_name);
                    merged
                };
                gates.push(GateV2Backend { name, poly: ExpressionMid::from(e) });
                i += 1;
            }
            proof {
                let flat = spec_flatten(all_gates.subrange(0, k + 1));
                assert(flat.len() == done.len() + all_polys.len());
                assert forall|j: int| 0 <= j < gates@.len() implies (#[trigger] gates@[j]).name@
                    == flat[j].0 && gates@[j].poly == flat[j].1 by {
                    if j >= done.len() {
                        let t = j - done.len();
                        assert(gates@[done.len() + t].poly == all_polys[t].spec_to_mid());
                    }
                }
            }
        }
        proof {
            assert(all_gates.subrange(0, all_gates.len() as int) =~= all_gates);
        }

        let mut columns: Vec<ColumnMid> = Vec::new();
        let mut i: usize = 0;
        while i < cs.permutation.columns.len()
            invariant
                i <= cs.permutation.columns.len(),
                columns@.len() == i,
                forall|j: int|
                    0 <= j < i ==> (#[trigger] columns@[j]) == (ColumnMid {
                        index: cs.permutation.columns@[j].index,
                        column_type: cs.permutation.columns@[j].column_type,
                    }),
            decreases cs.permutation.columns.len() - i,
        {
            let column = cs.permutation.columns[i];
            columns.push(ColumnMid { index: column.index, column_type: column.column_type });
            i += 1;
        }

        let ghost all_lookups = cs.lookups@;
        let mut lookups: Vec<LookupArgumentV2<F>> = Vec::new();
        for l in it: cs.lookups
            invariant
                it.seq() == all_lookups,
                forall|k: int|
                    0 <= k < all_lookups.len() ==> spec_selector_free(
                        (#[trigger] all_lookups[k]).input_expressions@,
                    ) && spec_selector_free(all_lookups[k].table_expressions@),
                lookups@.len() == it.index(),
                forall|k: int|
                    0 <= k < it.index() ==> (#[trigger] lookups@[k]).name == all_lookups[k].name
                        && lookups@[k].input_expressions@ == spec_to_mids(
                        all_lookups[k].input_expressions@,
                    ) && lookups@[k].table_expressions@ == spec_to_mids(
                        all_lookups[k].table_expressions@,
                    ),
        {
            assert(l == all_lookups[it.index() as int]);
            let lookup::Argument { name, input_expressions, table_expressions } = l;
            lookups.push(
                LookupArgumentV2 {
                    name,
                    input_expressions: expressions_to_mid(input_expressions),
                    table_expressions: expressions_to_mid(table_expressions),
                },
            );
        }

        let ghost all_shuffles = cs.shuffles@;
        let mut shuffles: Vec<ShuffleArgumentV2<F>> = Vec::new();
        for s in it: cs.shuffles
            invariant
                it.seq() == all_shuffles,
                forall|k: int|
                    0 <= k < all_shuffles.len() ==> spec_selector_free(
                        (#[trigger] all_shuffles[k]).input_expressions@,
                    ) && spec_selector_free(all_shuffles[k].shuffle_expressions@),
                shuffles@.len() == it.index(),
                forall|k: int|
                    0 <= k < it.index() ==> (#[trigger] shuffles@[k]).name == all_shuffles[k].name
                        && shuffles@[k].input_expressions@ == spec_to_mids(
                        all_shuffles[k].input_expressions@,
                    ) && shuffles@[k].shuffle_expressions@ == spec_to_mids(
                        all_shuffles[k].shuffle_expressions@,
                    ),
        {
            assert(s == all_shuffles[it.index() as int]);
            let shuffle::Argument { name, input_expressions, shuffle_expressions } = s;
            shuffles.push(
                ShuffleArgumentV2 {
                    name,
                    input_expressions: expressions_to_mid(input_expressions),
                    shuffle_expressions: expressions_to_mid(shuffle_expressions),
                },
            );
        }

        ConstraintSystemV2Backend {
            num_fixed_columns: cs.num_fixed_columns,
            num_advice_columns: cs.num_advice_columns,
            num_instance_columns: cs.num_instance_columns,
            num_challenges: cs.num_challenges,
            unblinded_advice_columns: cs.unblinded_advice_columns,
            advice_column_phase,
            challenge_phase,
            gates,
            permutation: PermutationArgumentV2 { columns },
            lookups,
            shuffles,
            general_column_annotations: cs.general_column_annotations,
        }
    }
}

} // verus!

//! Adding gates, lookups and shuffles to a constraint system.

use super::cells::{QueryState, VirtualCells};
use super::column::TableColumn;
use super::expression::Expression;
use super::gate::{Constraint, Gate};
use super::system::ConstraintSystem;
use crate::middleware::Rotation;
use crate::plonk::lookup::{spec_firsts, spec_seconds};
use crate::plonk::{lookup, shuffle};
use vstd::prelude::*;
use vstd::string::StringExecFns;

verus! {

/// The polynomials of `constraints`.
pub open spec fn spec_polys<F>(constraints: Seq<Constraint<F>>) -> Seq<Expression<F>> {
    Seq::new(constraints.len(), |i: int| constraints[i].poly)
}

/// The names of `constraints`.
pub open spec fn spec_names<F>(constraints: Seq<Constraint<F>>) -> Seq<String> {
    Seq::new(constraints.len(), |i: int| constraints[i].name)
}

/// The polynomials of `polys` with their queries indexed one polynomial
/// after the other, and the state after the last.
pub open spec fn spec_query_all<F>(polys: Seq<Expression<F>>, st: QueryState) -> (
    Seq<Expression<F>>,
    QueryState,
)
    decreases polys.len(),
{
    if polys.len() == 0 {
        (Seq::empty(), st)
    } else {
        let (done, mid) = spec_query_all(polys.drop_last(), st);
        let (poly, after) = polys.last().spec_query_cells(mid);
        (done.push(poly), after)
    }
}

/// The pairs of `pairs` with their queries indexed one pair after the
/// other, in each pair the first expression before the second, and the
/// state after the last.
pub open spec fn spec_query_pairs<F>(pairs: Seq<(Expression<F>, Expression<F>)>, st: QueryState) -> (
    Seq<(Expression<F>, Expression<F>)>,
    QueryState,
)
    decreases pairs.len(),
{
    if pairs.len() == 0 {
        (Seq::empty(), st)
    } else {
        let (done, mid) = spec_query_pairs(pairs.drop_last(), st);
        let (input, between) = pairs.last().0.spec_query_cells(mid);
        let (table, after) = pairs.last().1.spec_query_cells(between);
        (done.push((input, table)), after)
    }
}

/// The pairs of `pairs` with each table column replaced by its query at the
/// current row and the queries of each input indexed, one pair after the
/// other, in each pair the table column before the input, and the state
/// after the last.
pub open spec fn spec_query_table_pairs<F>(
    pairs: Seq<(Expression<F>, TableColumn)>,
    st: QueryState,
) -> (Seq<(Expression<F>, Expression<F>)>, QueryState)
    decreases pairs.len(),
{
    if pairs.len() == 0 {
        (Seq::empty(), st)
    } else {
        let (done, mid) = spec_query_table_pairs(pairs.drop_last(), st);
        let (table, between) = mid.spec_query_fixed(pairs.last().1.inner(), Rotation(0));
        let (input, after) = pairs.last().0.spec_query_cells(between);
        (done.push((input, Expression::Fixed(table))), after)
    }
}

/// Whether no expression of `pairs` holds a simple selector.
pub open spec fn spec_pairs_simple_free<F>(pairs: Seq<(Expression<F>, Expression<F>)>) -> bool {
    forall|i: int|
        0 <= i < pairs.len() ==> !(#[trigger] pairs[i]).0.spec_contains_simple_selector()
            && !pairs[i].1.spec_contains_simple_selector()
}

/// Whether every advice query without an index in `pairs` goes into one of
/// the first `n` advice columns.
pub open spec fn spec_pairs_advice_below<F>(pairs: Seq<(Expression<F>, Expression<F>)>, n: nat) -> bool {
    forall|i: int|
        0 <= i < pairs.len() ==> (#[trigger] pairs[i]).0.spec_advice_below(n)
            && pairs[i].1.spec_advice_below(n)
}

impl<F> VirtualCells<F> {
    /// Whether a walk over `polys` can go on from this handle: the system
    /// is well formed, and every advice query without an index goes into an
    /// allocated column.
    pub open spec fn spec_can_walk(&self, polys: Seq<Expression<F>>) -> bool {
        &&& self.meta.spec_wf()
        &&& forall|i: int|
            0 <= i < polys.len() ==> (#[trigger] polys[i]).spec_advice_below(
                self.meta.num_advice_columns as nat,
            )
    }

    /// Whether a gate can be made of `constraints` from this handle: there
    /// is at least one constraint, and the walk over their polynomials can
    /// go on from here.
    pub open spec fn spec_gate_ready(&self, constraints: Seq<Constraint<F>>) -> bool {
        &&& constraints.len() > 0
        &&& self.spec_can_walk(spec_polys(constraints))
    }

    /// Whether `after` is the system of this handle with the queries of
    /// `constraints` interned and a gate `name` made of them appended.
    pub open spec fn spec_gate_created(
        &self,
        constraints: Seq<Constraint<F>>,
        name: Seq<char>,
        after: ConstraintSystem<F>,
    ) -> bool {
        let (polys, st) = spec_query_all(spec_polys(constraints), self.spec_state());
        &&& after.fixed_queries@ == st.fixed
        &&& after.advice_queries@ == st.advice
        &&& after.num_advice_queries@ == st.counters
        &&& after.instance_queries@ == st.instance
        &&& after.gates@.len() == self.meta.gates@.len() + 1
        &&& after.gates@.drop_last() == self.meta.gates@
        &&& after.gates@.last().name@ == name
        &&& after.gates@.last().constraint_names@ == spec_names(constraints)
        &&& after.gates@.last().polys@ == polys
        &&& after.gates@.last().queried_selectors@ == st.selectors
        &&& after.gates@.last().queried_cells@ == st.cells
        &&& after == (ConstraintSystem {
            gates: after.gates,
            fixed_queries: after.fixed_queries,
            advice_queries: after.advice_queries,
            num_advice_queries: after.num_advice_queries,
            instance_queries: after.instance_queries,
            ..self.meta
        })
    }

    /// Whether `after` is the system of this handle with the queries of
    /// `pairs` interned and the lookup `name` over them appended, and
    /// `index` is the place of that lookup.
    pub open spec fn spec_lookup_added(
        &self,
        pairs: Seq<(Expression<F>, Expression<F>)>,
        st: QueryState,
        name: Seq<char>,
        after: ConstraintSystem<F>,
        index: usize,
    ) -> bool {
        &&& after.fixed_queries@ == st.fixed
        &&& after.advice_queries@ == st.advice
        &&& after.num_advice_queries@ == st.counters
        &&& after.instance_queries@ == st.instance
        &&& index == self.meta.lookups@.len()
        &&& after.lookups@.len() == self.meta.lookups@.len() + 1
        &&& after.lookups@.drop_last() == self.meta.lookups@
        &&& after.lookups@.last().name@ == name
        &&& after.lookups@.last().input_expressions@ == spec_firsts(pairs)
        &&& after.lookups@.last().table_expressions@ == spec_seconds(pairs)
        &&& after == (ConstraintSystem {
            lookups: after.lookups,
            fixed_queries: after.fixed_queries,
            advice_queries: after.advice_queries,
            num_advice_queries: after.num_advice_queries,
            instance_queries: after.instance_queries,
            ..self.meta
        })
    }

    /// Whether `after` is the system of this handle with the queries of
    /// `pairs` interned and the shuffle `name` over them appended, and
    /// `index` is the place of that shuffle.
    pub open spec fn spec_shuffle_added(
        &self,
        pairs: Seq<(Expression<F>, Expression<F>)>,
        st: QueryState,
        name: Seq<char>,
        after: ConstraintSystem<F>,
        index: usize,
    ) -> bool {
        &&& after.fixed_queries@ == st.fixed
        &&& after.advice_queries@ == st.advice
        &&& after.num_advice_queries@ == st.counters
        &&& after.instance_queries@ == st.instance
        &&& index == self.meta.shuffles@.len()
        &&& after.shuffles@.len() == self.meta.shuffles@.len() + 1
        &&& after.shuffles@.drop_last() == self.meta.shuffles@
        &&& after.shuffles@.last().name@ == name
        &&& after.shuffles@.last().input_expressions@ == spec_firsts(pairs)
        &&& after.shuffles@.last().shuffle_expressions@ == spec_seconds(pairs)
        &&& after == (ConstraintSystem {
            shuffles: after.shuffles,
            fixed_queries: after.fixed_queries,
            advice_queries: after.advice_queries,
            num_advice_queries: after.num_advice_queries,
            instance_queries: after.instance_queries,
            ..self.meta
        })
    }

    /// Interns the queries of `pairs`, one pair after the other, in each
    /// pair the first expression before the second.
    pub fn query_pairs(&mut self, pairs: Vec<(Expression<F>, Expression<F>)>) -> (r: Vec<
        (Expression<F>, Expression<F>),
    >)
        requires
            old(self).meta.spec_wf(),
            spec_pairs_advice_below(pairs@, old(self).meta.num_advice_columns as nat),
        ensures
            (r@, final(self).spec_state()) == spec_query_pairs(pairs@, old(self).spec_state()),
            old(self).spec_frame(final(self)),
            final(self).meta.spec_wf(),
    {
        let ghost all = pairs@;
        let ghost n = self.meta.num_advice_columns as nat;
        let mut out: Vec<(Expression<F>, Expression<F>)> = Vec::new();
        for pair in it: pairs
            invariant
                it.seq() == all,
                self.meta.spec_wf(),
                self.meta.num_advice_columns == n,
                spec_pairs_advice_below(all, n),
                old(self).spec_frame(self),
                (out@, self.spec_state()) == spec_query_pairs(
                    all.subrange(0, it.index() as int),
                    old(self).spec_state(),
                ),
        {
            let ghost k = it.index() as int;
            assert(pair == all[k]);
            proof {
                assert(all.subrange(0, k + 1).drop_last() =~= all.subrange(0, k));
                assert(all.subrange(0, k + 1).last() == all[k]);
            }
            let (mut input, mut table) = pair;
            input.query_cells(self);
            table.query_cells(self);
            out.push((input, table));
        }
        proof {
            assert(all.subrange(0, all.len() as int) =~= all);
        }
        out
    }

    /// Queries each table column of `pairs` at the current row and interns
    /// the queries of each input, one pair after the other.
    pub fn query_table_pairs(&mut self, pairs: Vec<(Expression<F>, TableColumn)>) -> (r: Vec<
        (Expression<F>, Expression<F>),
    >)
        requires
            old(self).meta.spec_wf(),
            forall|i: int|
                0 <= i < pairs@.len() ==> (#[trigger] pairs@[i]).0.spec_advice_below(
                    old(self).meta.num_advice_columns as nat,
                ),
        ensures
            (r@, final(self).spec_state()) == spec_query_table_pairs(
                pairs@,
                old(self).spec_state(),
            ),
            old(self).spec_frame(final(self)),
            final(self).meta.spec_wf(),
    {
        let ghost all = pairs@;
        let ghost n = self.meta.num_advice_columns as nat;
        let mut out: Vec<(Expression<F>, Expression<F>)> = Vec::new();
        for pair in it: pairs
            invariant
                it.seq() == all,
                self.meta.spec_wf(),
                self.meta.num_advice_columns == n,
                forall|i: int| 0 <= i < all.len() ==> (#[trigger] all[i]).0.spec_advice_below(n),
                old(self).spec_frame(self),
                (out@, self.spec_state()) == spec_query_table_pairs(
                    all.subrange(0, it.index() as int),
                    old(self).spec_state(),
                ),
        {
            let ghost k = it.index() as int;
            assert(pair == all[k]);
            proof {
                assert(all.subrange(0, k + 1).drop_last() =~= all.subrange(0, k));
                assert(all.subrange(0, k + 1).last() == all[k]);
            }
            let (mut input, table) = pair;
            let mut table = self.query_fixed(table.inner(), Rotation::cur());
            input.query_cells(self);
            let ghost before = self.spec_state();
            table.query_cells(self);
            assert(self.spec_state() == before);
            out.push((input, table));
        }
        proof {
            assert(all.subrange(0, all.len() as int) =~= all);
        }
        out
    }
}

impl<F> ConstraintSystem<F> {
    /// Creates a new gate.
    ///
    /// A gate is required to contain polynomial constraints: `constraints`
    /// must return at least one.
    pub fn create_gate<CL: FnOnce(&mut VirtualCells<F>) -> Vec<Constraint<F>>>(
        &mut self,
        name: &str,
        constraints: CL,
    )
        requires
            forall|cells: &mut VirtualCells<F>|
                cells.spec_is_fresh(*old(self)) ==> #[trigger] call_requires(constraints, (cells,)),
            forall|cells: &mut VirtualCells<F>, out: Vec<Constraint<F>>|
                cells.spec_is_fresh(*old(self)) && #[trigger] call_ensures(constraints, (cells,), out)
                    ==> final(cells).spec_gate_ready(out@),
        ensures
            exists|cells: &mut VirtualCells<F>, out: Vec<Constraint<F>>|
                {
                    &&& #[trigger] call_ensures(constraints, (cells,), out)
                    &&& cells.spec_is_fresh(*old(self))
                    &&& final(cells).spec_gate_created(out@, name@, *final(self))
                },
            final(self).spec_wf(),
    {
        let mut taken = ConstraintSystem::default();
        core::mem::swap(self, &mut taken);
        let mut cells = VirtualCells::new(taken);
        let out = constraints(&mut cells);
        let ghost made = cells;
        let ghost all = out@;
        let ghost n = cells.meta.num_advice_columns as nat;
        let mut constraint_names: Vec<String> = Vec::new();
        let mut polys: Vec<Expression<F>> = Vec::new();
        for c in it: out
            invariant
                it.seq() == all,
                cells.meta.spec_wf(),
                cells.meta.num_advice_columns == n,
                forall|i: int|
                    0 <= i < all.len() ==> (#[trigger] spec_polys(all)[i]).spec_advice_below(n),
                made.spec_frame(&cells),
                constraint_names@ == spec_names(all.subrange(0, it.index() as int)),
                (polys@, cells.spec_state()) == spec_query_all(
                    spec_polys(all.subrange(0, it.index() as int)),
                    made.spec_state(),
                ),
        {
            let ghost k = it.index() as int;
            assert(c == all[k]);
            proof {
                assert(spec_polys(all.subrange(0, k + 1)).drop_last() =~= spec_polys(
                    all.subrange(0, k),
                ));
                assert(spec_polys(all.subrange(0, k + 1)).last() == all[k].poly);
                assert(spec_polys(all)[k] == all[k].poly);
            }
            let Constraint { name: constraint_name, poly } = c;
            let mut poly = poly;
            poly.query_cells(&mut cells);
            constraint_names.push(constraint_name);
            polys.push(poly);
            proof {
                assert(constraint_names@ =~= spec_names(all.subrange(0, k + 1)));
            }
        }
        proof {
            assert(all.subrange(0, all.len() as int) =~= all);
        }
        let VirtualCells { meta, queried_selectors, queried_cells } = cells;
        *self = meta;
        self.gates.push(
            Gate {
                name: String::from_str(name),
                constraint_names,
                polys,
                queried_selectors,
                queried_cells,
            },
        );
        proof {
            assert(self.gates@.drop_last() =~= made.meta.gates@);
            assert(made.spec_gate_created(all, name@, *self));
        }
    }

    /// Add a lookup argument for some input expressions and table columns.
    ///
    /// `table_map` returns a map between input expressions and the table
    /// columns they need to match. No input may hold a simple selector.
    /// Returns the index of the lookup.
    pub fn lookup<CL: FnOnce(&mut VirtualCells<F>) -> Vec<(Expression<F>, TableColumn)>>(
        &mut self,
        name: &str,
        table_map: CL,
    ) -> (index: usize)
        requires
            forall|cells: &mut VirtualCells<F>|
                cells.spec_is_fresh(*old(self)) ==> #[trigger] call_requires(table_map, (cells,)),
            forall|cells: &mut VirtualCells<F>, out: Vec<(Expression<F>, TableColumn)>|
                cells.spec_is_fresh(*old(self)) && #[trigger] call_ensures(table_map, (cells,), out)
                    ==> final(cells).meta.spec_wf() && forall|i: int|
                    0 <= i < out@.len() ==> !(#[trigger] out@[i]).0.spec_contains_simple_selector()
                        && out@[i].0.spec_advice_below(final(cells).meta.num_advice_columns as nat),
        ensures
            exists|cells: &mut VirtualCells<F>, out: Vec<(Expression<F>, TableColumn)>|
                {
                    &&& #[trigger] call_ensures(table_map, (cells,), out)
                    &&& cells.spec_is_fresh(*old(self))
                    &&& final(cells).spec_lookup_added(
                        spec_query_table_pairs(out@, final(cells).spec_state()).0,
                        spec_query_table_pairs(out@, final(cells).spec_state()).1,
                        name@,
                        *final(self),
                        index,
                    )
                },
            final(self).spec_wf(),
    {
        let mut taken = ConstraintSystem::default();
        core::mem::swap(self, &mut taken);
        let mut cells = VirtualCells::new(taken);
        let out = table_map(&mut cells);
        let ghost made = cells;
        let pairs = cells.query_table_pairs(out);
        let VirtualCells { meta, queried_selectors, queried_cells } = cells;
        *self = meta;
        let index = self.lookups.len();
        self.lookups.push(lookup::Argument::new(name, pairs));
        proof {
            assert(self.lookups@.drop_last() =~= made.meta.lookups@);
        }
        index
    }

    /// Add a lookup argument for some input expressions and table
    /// expressions.
    ///
    /// `table_map` returns a map between input expressions and the table
    /// expressions they need to match. No expression may hold a simple
    /// selector. Returns the index of the lookup.
    pub fn lookup_any<CL: FnOnce(&mut VirtualCells<F>) -> Vec<(Expression<F>, Expression<F>)>>(
        &mut self,
        name: &str,
        table_map: CL,
    ) -> (index: usize)
        requires
            forall|cells: &mut VirtualCells<F>|
                cells.spec_is_fresh(*old(self)) ==> #[trigger] call_requires(table_map, (cells,)),
            forall|cells: &mut VirtualCells<F>, out: Vec<(Expression<F>, Expression<F>)>|
                cells.spec_is_fresh(*old(self)) && #[trigger] call_ensures(table_map, (cells,), out)
                    ==> final(cells).meta.spec_wf() && spec_pairs_simple_free(out@)
                    && spec_pairs_advice_below(
                    out@,
                    final(cells).meta.num_advice_columns as nat,
                ),
        ensures
            exists|cells: &mut VirtualCells<F>, out: Vec<(Expression<F>, Expression<F>)>|
                {
                    &&& #[trigger] call_ensures(table_map, (cells,), out)
                    &&& cells.spec_is_fresh(*old(self))
                    &&& final(cells).spec_lookup_added(
                        spec_query_pairs(out@, final(cells).spec_state()).0,
                        spec_query_pairs(out@, final(cells).spec_state()).1,
                        name@,
                        *final(self),
                        index,
                    )
                },
            final(self).spec_wf(),
    {
        let mut taken = ConstraintSystem::default();
        core::mem::swap(self, &mut taken);
        let mut cells = VirtualCells::new(taken);
        let out = table_map(&mut cells);
        let ghost made = cells;
        let pairs = cells.query_pairs(out);
        let VirtualCells { meta, queried_selectors, queried_cells } = cells;
        *self = meta;
        let index = self.lookups.len();
        self.lookups.push(lookup::Argument::new(name, pairs));
        proof {
            assert(self.lookups@.drop_last() =~= made.meta.lookups@);
        }
        index
    }

    /// Add a shuffle argument for some input expressions and table
    /// expressions. No expression may hold a simple selector. Returns the
    /// index of the shuffle.
    pub fn shuffle<CL: FnOnce(&mut VirtualCells<F>) -> Vec<(Expression<F>, Expression<F>)>>(
        &mut self,
        name: &str,
        shuffle_map: CL,
    ) -> (index: usize)
        requires
            forall|cells: &mut VirtualCells<F>|
                cells.spec_is_fresh(*old(self)) ==> #[trigger] call_requires(shuffle_map, (cells,)),
            forall|cells: &mut VirtualCells<F>, out: Vec<(Expression<F>, Expression<F>)>|
                cells.spec_is_fresh(*old(self)) && #[trigger] call_ensures(shuffle_map, (cells,), out)
                    ==> final(cells).meta.spec_wf() && spec_pairs_simple_free(out@)
                    && spec_pairs_advice_below(
                    out@,
                    final(cells).meta.num_advice_columns as nat,
                ),
        ensures
            exists|cells: &mut VirtualCells<F>, out: Vec<(Expression<F>, Expression<F>)>|
                {
                    &&& #[trigger] call_ensures(shuffle_map, (cells,), out)
                    &&& cells.spec_is_fresh(*old(self))
                    &&& final(cells).spec_shuffle_added(
                        spec_query_pairs(out@, final(cells).spec_state()).0,
                        spec_query_pairs(out@, final(cells).spec_state()).1,
                        name@,
                        *final(self),
                        index,
                    )
                },
            final(self).spec_wf(),
    {
        let mut taken = ConstraintSystem::default();
        core::mem::swap(self, &mut taken);
        let mut cells = VirtualCells::new(taken);
        let out = shuffle_map(&mut cells);
        let ghost made = cells;
        let pairs = cells.query_pairs(out);
        let VirtualCells { meta, queried_selectors, queried_cells } = cells;
        *self = meta;
        let index = self.shuffles.len();
        self.shuffles.push(shuffle::Argument::new(name, pairs));
        proof {
            assert(self.shuffles@.drop_last() =~= made.meta.shuffles@);
        }
        index
    }
}

} // verus!

//! Compressing the selectors of a constraint system into fixed columns.

use super::column::{Column, FixedQuery, Selector};
use super::compress_selectors::{
    column_values, combine, selector_expression, spec_column_values, spec_selector_expression,
    spec_uniform, Combinations,
};
use super::degree::{
    lemma_gates_degree_prefix, lemma_largest_degree_bounds, spec_gates_degree, spec_largest_degree,
};
use super::expression::{spec_max, Expression};
use super::gate::Gate;
use super::selectors::{
    spec_all_selectors_below, spec_gate_replaced, spec_lookup_replaced, spec_shuffle_replaced,
    spec_simple_free,
};
use super::system::{spec_interned, spec_query_index, ConstraintSystem};
use crate::middleware::{Fixed, Rotation};
use vstd::prelude::*;

verus! {

/// The degree of `poly` if its simple selector is the selector `s`, zero
/// otherwise.
pub open spec fn spec_degree_for<F>(poly: Expression<F>, s: int) -> nat {
    match poly.spec_extract_simple_selector() {
        Some(selector) => if selector.0 == s {
            poly.spec_degree()
        } else {
            0
        },
        None => 0,
    }
}

/// The largest degree of a polynomial of `polys` whose simple selector is
/// the selector `s`, zero if there is none.
pub open spec fn spec_polys_selector_degree<F>(polys: Seq<Expression<F>>, s: int) -> nat
    decreases polys.len(),
{
    if polys.len() == 0 {
        0
    } else {
        spec_max(spec_polys_selector_degree(polys.drop_last(), s), spec_degree_for(polys.last(), s))
    }
}

/// The largest degree of a polynomial of `gates` whose simple selector is
/// the selector `s`, zero if there is none.
pub open spec fn spec_gates_selector_degree<F>(gates: Seq<Gate<F>>, s: int) -> nat
    decreases gates.len(),
{
    if gates.len() == 0 {
        0
    } else {
        spec_max(
            spec_gates_selector_degree(gates.drop_last(), s),
            spec_polys_selector_degree(gates.last().polys@, s),
        )
    }
}

/// The degree of a selector is at most the largest degree of the
/// polynomials.
pub proof fn lemma_polys_selector_degree_bounded<F>(polys: Seq<Expression<F>>, s: int)
    ensures
        spec_polys_selector_degree(polys, s) <= spec_largest_degree(polys),
    decreases polys.len(),
{
    if polys.len() > 0 {
        lemma_polys_selector_degree_bounded(polys.drop_last(), s);
    }
}

/// The degree of a selector is at most the largest degree of the gates.
pub proof fn lemma_gates_selector_degree_bounded<F>(gates: Seq<Gate<F>>, s: int)
    ensures
        spec_gates_selector_degree(gates, s) <= spec_gates_degree(gates),
    decreases gates.len(),
{
    if gates.len() > 0 {
        lemma_gates_selector_degree_bounded(gates.drop_last(), s);
        lemma_polys_selector_degree_bounded(gates.last().polys@, s);
    }
}

/// A selector that occurs in an expression whose selectors are below `n` is
/// below `n`.
pub proof fn lemma_selector_below<F>(expr: Expression<F>, s: Selector, n: nat)
    requires
        expr.spec_selectors_below(n),
        expr.spec_has_selector(s),
    ensures
        s.0 < n,
    decreases expr,
{
    match expr {
        Expression::Negated(a) => {
            lemma_selector_below(*a, s, n);
        },
        Expression::Sum(a, b) => {
            if a.spec_has_selector(s) {
                lemma_selector_below(*a, s, n);
            } else {
                lemma_selector_below(*b, s, n);
            }
        },
        Expression::Product(a, b) => {
            if a.spec_has_selector(s) {
                lemma_selector_below(*a, s, n);
            } else {
                lemma_selector_below(*b, s, n);
            }
        },
        Expression::Scaled(a, _) => {
            lemma_selector_below(*a, s, n);
        },
        _ => {},
    }
}

/// The fixed queries after the `count` columns from `first` on were queried
/// at the current row, one after the other.
pub open spec fn spec_intern_columns(
    queries: Seq<(Column<Fixed>, Rotation)>,
    first: int,
    count: nat,
) -> Seq<(Column<Fixed>, Rotation)>
    decreases count,
{
    if count == 0 {
        queries
    } else {
        spec_interned(
            spec_intern_columns(queries, first, (count - 1) as nat),
            (Column { index: (first + count - 1) as usize, column_type: Fixed }, Rotation(0)),
        )
    }
}

/// The query of the column `first + g` at the current row, as it is indexed
/// when the columns from `first` on are queried one after the other.
pub open spec fn spec_column_query<F>(
    queries: Seq<(Column<Fixed>, Rotation)>,
    first: int,
    g: nat,
) -> Expression<F> {
    Expression::Fixed(
        FixedQuery {
            index: Some(
                spec_query_index(
                    spec_intern_columns(queries, first, g),
                    (Column { index: (first + g) as usize, column_type: Fixed }, Rotation(0)),
                ) as usize,
            ),
            column_index: (first + g) as usize,
            rotation: Rotation(0),
        },
    )
}

impl<F> ConstraintSystem<F> {
    /// Whether every polynomial of a gate holds one simple selector at
    /// most.
    pub open spec fn spec_gates_single_selector(&self) -> bool {
        forall|k: int, p: int|
            0 <= k < self.gates@.len() && 0 <= p < self.gates@[k].polys@.len() ==> (
            #[trigger] self.gates@[k].polys@[p]).spec_at_most_one_simple_selector()
    }

    /// For each of the first `n` selectors, the largest degree of a gate
    /// polynomial whose simple selector it is, zero if there is none.
    pub fn selector_degrees(&self, n: usize) -> (r: Vec<usize>)
        requires
            self.spec_gates_single_selector(),
            forall|k: int|
                0 <= k < self.gates@.len() ==> spec_all_selectors_below(
                    (#[trigger] self.gates@[k]).polys@,
                    n as nat,
                ),
            spec_gates_degree(self.gates@) <= usize::MAX,
        ensures
            r@.len() == n,
            forall|s: int|
                0 <= s < n ==> #[trigger] r@[s] == spec_gates_selector_degree(self.gates@, s),
    {
        let mut degrees: Vec<usize> = Vec::new();
        let mut s: usize = 0;
        while s < n
            invariant
                s <= n,
                degrees@.len() == s,
                forall|t: int| 0 <= t < s ==> #[trigger] degrees@[t] == 0,
            decreases n - s,
        {
            degrees.push(0);
            s += 1;
        }
        let mut k: usize = 0;
        while k < self.gates.len()
            invariant
                k <= self.gates.len(),
                self.spec_gates_single_selector(),
                forall|g: int|
                    0 <= g < self.gates@.len() ==> spec_all_selectors_below(
                        (#[trigger] self.gates@[g]).polys@,
                        n as nat,
                    ),
                spec_gates_degree(self.gates@) <= usize::MAX,
                degrees@.len() == n,
                forall|t: int|
                    0 <= t < n ==> #[trigger] degrees@[t] == spec_gates_selector_degree(
                        self.gates@.subrange(0, k as int),
                        t,
                    ),
            decreases self.gates.len() - k,
        {
            let gate = &self.gates[k];
            proof {
                lemma_gates_degree_prefix(self.gates@, k + 1);
                assert(self.gates@.subrange(0, k + 1).drop_last() =~= self.gates@.subrange(
                    0,
                    k as int,
                ));
                assert(self.gates@.subrange(0, k + 1).last() == self.gates@[k as int]);
            }
            let mut p: usize = 0;
            while p < gate.polys.len()
                invariant
                    p <= gate.polys.len(),
                    k < self.gates.len(),
                    *gate == self.gates@[k as int],
                    self.spec_gates_single_selector(),
                    spec_all_selectors_below(gate.polys@, n as nat),
                    spec_largest_degree(gate.polys@) <= usize::MAX,
                    degrees@.len() == n,
                    forall|t: int|
                        0 <= t < n ==> #[trigger] degrees@[t] == spec_max(
                            spec_gates_selector_degree(self.gates@.subrange(0, k as int), t),
                            spec_polys_selector_degree(gate.polys@.subrange(0, p as int), t),
                        ),
                decreases gate.polys.len() - p,
            {
                let expr = &gate.polys[p];
                proof {
                    lemma_largest_degree_bounds(gate.polys@, p as int);
                    assert(gate.polys@.subrange(0, p + 1).drop_last() =~= gate.polys@.subrange(
                        0,
                        p as int,
                    ));
                    assert(gate.polys@.subrange(0, p + 1).last() == gate.polys@[p as int]);
                    assert(self.gates@[k as int].polys@[p as int].spec_at_most_one_simple_selector());
                }
                if let Some(selector) = expr.extract_simple_selector() {
                    proof {
                        lemma_selector_below(*expr, selector, n as nat);
                    }
                    let degree = expr.degree();
                    if degree > degrees[selector.0] {
                        degrees[selector.0] = degree;
                    }
                }
                p += 1;
            }
            proof {
                assert(gate.polys@.subrange(0, gate.polys@.len() as int) =~= gate.polys@);
            }
            k += 1;
        }
        proof {
            assert(self.gates@.subrange(0, self.gates@.len() as int) =~= self.gates@);
        }
        degrees
    }

    /// Whether `after` is `self` with `count` more fixed columns, each
    /// queried at the current row.
    pub open spec fn spec_columns_allocated(&self, after: &Self, count: nat) -> bool {
        &&& after.num_fixed_columns == self.num_fixed_columns + count
        &&& after.fixed_queries@ == spec_intern_columns(
            self.fixed_queries@,
            self.num_fixed_columns as int,
            count,
        )
        &&& *after == (ConstraintSystem {
            num_fixed_columns: after.num_fixed_columns,
            fixed_queries: after.fixed_queries,
            ..*self
        })
    }

    /// Allocates `count` fixed columns and queries each at the current row.
    /// Returns the columns and their queries.
    pub fn allocate_selector_columns(&mut self, count: usize) -> (r: (
        Vec<Column<Fixed>>,
        Vec<Expression<F>>,
    ))
        requires
            old(self).num_fixed_columns + count <= usize::MAX,
        ensures
            old(self).spec_columns_allocated(final(self), count as nat),
            r.0@.len() == count,
            r.1@.len() == count,
            forall|g: int|
                0 <= g < count ==> (#[trigger] r.0@[g]) == (Column {
                    index: (old(self).num_fixed_columns + g) as usize,
                    column_type: Fixed,
                }),
            forall|g: int|
                0 <= g < count ==> (#[trigger] r.1@[g]) == spec_column_query::<F>(
                    old(self).fixed_queries@,
                    old(self).num_fixed_columns as int,
                    g as nat,
                ),
            old(self).spec_wf() ==> final(self).spec_wf(),
    {
        let mut columns: Vec<Column<Fixed>> = Vec::new();
        let mut queries: Vec<Expression<F>> = Vec::new();
        let mut g: usize = 0;
        while g < count
            invariant
                g <= count,
                old(self).num_fixed_columns + count <= usize::MAX,
                old(self).spec_columns_allocated(self, g as nat),
                columns@.len() == g,
                queries@.len() == g,
                forall|h: int|
                    0 <= h < g ==> (#[trigger] columns@[h]) == (Column {
                        index: (old(self).num_fixed_columns + h) as usize,
                        column_type: Fixed,
                    }),
                forall|h: int|
                    0 <= h < g ==> (#[trigger] queries@[h]) == spec_column_query::<F>(
                        old(self).fixed_queries@,
                        old(self).num_fixed_columns as int,
                        h as nat,
                    ),
                old(self).spec_wf() ==> self.spec_wf(),
            decreases count - g,
        {
            let column = self.fixed_column();
            columns.push(column);
            let index = self.query_fixed_index(column, Rotation::cur());
            queries.push(
                Expression::Fixed(
                    FixedQuery {
                        index: Some(index),
                        column_index: column.index,
                        rotation: Rotation::cur(),
                    },
                ),
            );
            g += 1;
        }
        (columns, queries)
    }
}

/// The replacement of each selector under the grouping `plan`: the
/// expression that stands for the selector in the column of its
/// combination.
pub open spec fn spec_replacements<F>(
    queries: Seq<(Column<Fixed>, Rotation)>,
    first: int,
    plan: Combinations,
    scalars: Seq<F>,
) -> Seq<Expression<F>> {
    Seq::new(
        plan.group@.len(),
        |i: int|
            spec_selector_expression(
                spec_column_query::<F>(queries, first, plan.group@[i] as nat),
                plan.rank@[i] as int,
                plan.sizes@[plan.group@[i] as int] as nat,
                scalars,
            ),
    )
}

/// The cells of the column of a selector that has a column of its own:
/// `one` in the rows in which the selector is active, `zero` in the others.
pub open spec fn spec_direct_values<F>(activations: Seq<bool>, zero: F, one: F) -> Seq<F> {
    Seq::new(
        activations.len(),
        |r: int|
            if activations[r] {
                one
            } else {
                zero
            },
    )
}

impl<F> ConstraintSystem<F> {
    /// For each of the first `n` selectors, the largest degree of a gate
    /// polynomial whose simple selector it is.
    pub open spec fn spec_selector_degrees(&self, n: nat) -> Seq<usize> {
        Seq::new(n, |s: int| spec_gates_selector_degree(self.gates@, s) as usize)
    }

    /// Whether the selectors can be replaced by columns: `count` is the
    /// number of selectors, every selector that occurs was allocated, no
    /// lookup or shuffle holds a simple selector, and as many fixed columns
    /// as there are selectors can still be allocated.
    pub open spec fn spec_convertible(&self, count: nat) -> bool {
        &&& count == self.num_selectors
        &&& self.spec_selectors_below(count)
        &&& self.spec_arguments_simple_free()
        &&& self.num_fixed_columns + count <= usize::MAX
    }

    /// Whether the selectors can be compressed with the activations
    /// `selectors`: they can be replaced by columns, all activations have
    /// the same number of rows, every gate polynomial holds at most one
    /// simple selector, the degree of the system can be computed, and
    /// `scalars` holds the field elements from zero up to that degree.
    pub open spec fn spec_compressible(&self, selectors: Seq<Vec<bool>>, scalars: nat) -> bool {
        &&& self.spec_convertible(selectors.len())
        &&& forall|i: int|
            0 <= i < selectors.len() ==> (#[trigger] selectors[i])@.len() == selectors[0]@.len()
        &&& self.spec_gates_single_selector()
        &&& self.spec_arguments_balanced()
        &&& self.spec_degree() <= usize::MAX
        &&& scalars > self.spec_degree()
    }

    /// Whether `after` and `polys` are what compressing the selectors of
    /// `self` under the grouping `plan` gives: one new fixed column for each
    /// combination, queried at the current row and filled as the
    /// combination says; each selector mapped to the column of its
    /// combination, and replaced in every gate, lookup and shuffle by the
    /// expression that stands for it.
    pub open spec fn spec_compressed(
        &self,
        after: &Self,
        polys: Seq<Vec<F>>,
        plan: Combinations,
        activations: Seq<Vec<bool>>,
        scalars: Seq<F>,
    ) -> bool {
        let first = self.num_fixed_columns as int;
        let count = plan.sizes@.len();
        let rows = if activations.len() == 0 {
            0
        } else {
            activations[0]@.len()
        };
        let replacements = spec_replacements(self.fixed_queries@, first, plan, scalars);
        &&& after.num_fixed_columns == first + count
        &&& after.fixed_queries@ == spec_intern_columns(self.fixed_queries@, first, count)
        &&& after.selector_map@.len() == activations.len()
        &&& forall|i: int|
            0 <= i < activations.len() ==> (#[trigger] after.selector_map@[i]) == (Column {
                index: (first + plan.group@[i]) as usize,
                column_type: Fixed,
            })
        &&& spec_column_values(polys, activations, plan.group@, plan.rank@, count, rows, scalars)
        &&& after.gates@.len() == self.gates@.len()
        &&& forall|k: int|
            0 <= k < self.gates@.len() ==> spec_gate_replaced(
                self.gates@[k],
                #[trigger] after.gates@[k],
                replacements,
            )
        &&& after.lookups@.len() == self.lookups@.len()
        &&& forall|k: int|
            0 <= k < self.lookups@.len() ==> spec_lookup_replaced(
                self.lookups@[k],
                #[trigger] after.lookups@[k],
                replacements,
            )
        &&& after.shuffles@.len() == self.shuffles@.len()
        &&& forall|k: int|
            0 <= k < self.shuffles@.len() ==> spec_shuffle_replaced(
                self.shuffles@[k],
                #[trigger] after.shuffles@[k],
                replacements,
            )
        &&& *after == (ConstraintSystem {
            num_fixed_columns: after.num_fixed_columns,
            fixed_queries: after.fixed_queries,
            selector_map: after.selector_map,
            gates: after.gates,
            lookups: after.lookups,
            shuffles: after.shuffles,
            ..*self
        })
    }

    /// This will compress selectors together depending on their provided
    /// assignments. This `ConstraintSystem` will then be modified to add
    /// new fixed columns (representing the actual selectors) and will
    /// return the polynomials for those columns. Finally, an internal map
    /// is updated to find which fixed column corresponds with a given
    /// `Selector`.
    ///
    /// `selectors` holds, for each selector, the rows in which it is
    /// enabled, and `scalars` the field elements zero, one, two and so on,
    /// more of them than the degree of the system. Selectors are combined
    /// into one column where they are enabled in different rows and the
    /// degree of the system allows it: each selector joins the first
    /// combination that it can join.
    ///
    /// Do not call this twice.
    pub fn compress_selectors(self, selectors: Vec<Vec<bool>>, scalars: Vec<F>) -> (r: (
        Self,
        Vec<Vec<F>>,
    )) where F: Copy
        requires
            self.spec_compressible(selectors@, scalars@.len()),
        ensures
            exists|plan: Combinations|
                {
                    &&& #[trigger] plan.spec_valid(
                        selectors@,
                        self.spec_selector_degrees(selectors@.len()),
                        self.spec_degree() as usize,
                    )
                    &&& plan.spec_greedy(
                        selectors@,
                        self.spec_selector_degrees(selectors@.len()),
                        self.spec_degree() as usize,
                    )
                    &&& self.spec_compressed(&r.0, r.1@, plan, selectors@, scalars@)
                },
    {
        let ghost before = self;
        let mut system = self;
        let n = selectors.len();
        let rows = if n == 0 {
            0
        } else {
            selectors[0].len()
        };

        // Compute the maximal degree of every selector. We only consider
        // the expressions in gates, as lookup arguments cannot support
        // simple selectors. Selectors that are complex or do not appear in
        // any gates will have degree zero.
        let degrees = system.selector_degrees(n);

        // We will not increase the degree of the constraint system, so we
        // limit ourselves to the largest existing degree constraint.
        let max_degree = system.degree();
        proof {
            assert forall|i: int| 0 <= i < degrees@.len() implies #[trigger] degrees@[i]
                <= max_degree by {
                lemma_gates_selector_degree_bounded(system.gates@, i);
            }
            assert(degrees@ =~= before.spec_selector_degrees(n as nat));
            assert(max_degree == before.spec_degree() as usize);
        }
        let plan = combine(&selectors, &degrees, max_degree);
        let count = plan.sizes.len();
        proof {
            assert forall|g: int| 0 <= g < plan.sizes@.len() implies (#[trigger] plan.sizes@[g])
                < scalars@.len() by {
                lemma_size_bounded(plan, selectors@, degrees@, max_degree, g);
            }
        }
        let (new_columns, queries) = system.allocate_selector_columns(count);
        let ghost mid = system;
        let polys = column_values(&selectors, &plan, rows, &scalars);

        let mut selector_map: Vec<Column<Fixed>> = Vec::new();
        let mut selector_replacements: Vec<Expression<F>> = Vec::new();
        let mut i: usize = 0;
        while i < n
            invariant
                i <= n,
                n == selectors@.len(),
                plan.spec_grouped(selectors@),
                count == plan.sizes@.len(),
                new_columns@.len() == count,
                queries@.len() == count,
                forall|g: int| 0 <= g < count ==> (#[trigger] plan.sizes@[g]) < scalars@.len(),
                forall|g: int|
                    0 <= g < count ==> (#[trigger] new_columns@[g]) == (Column {
                        index: (before.num_fixed_columns + g) as usize,
                        column_type: Fixed,
                    }),
                forall|g: int|
                    0 <= g < count ==> (#[trigger] queries@[g]) == spec_column_query::<F>(
                        before.fixed_queries@,
                        before.num_fixed_columns as int,
                        g as nat,
                    ),
                selector_map@.len() == i,
                selector_replacements@.len() == i,
                forall|k: int|
                    0 <= k < i ==> (#[trigger] selector_map@[k]) == (Column {
                        index: (before.num_fixed_columns + plan.group@[k]) as usize,
                        column_type: Fixed,
                    }),
                forall|k: int|
                    0 <= k < i ==> (#[trigger] selector_replacements@[k]) == spec_replacements(
                        before.fixed_queries@,
                        before.num_fixed_columns as int,
                        plan,
                        scalars@,
                    )[k],
                spec_simple_free(selector_replacements@),
            decreases n - i,
        {
            let g = plan.group[i];
            selector_map.push(new_columns[g]);
            let query = &queries[g];
            proof {
                reveal_with_fuel(Expression::spec_contains_simple_selector, 2);
            }
            selector_replacements.push(
                selector_expression(query, plan.rank[i], plan.sizes[g], &scalars),
            );
            i += 1;
        }
        proof {
            assert(selector_replacements@ =~= spec_replacements(
                before.fixed_queries@,
                before.num_fixed_columns as int,
                plan,
                scalars@,
            ));
        }
        system.selector_map = selector_map;
        system.replace_selectors_with_fixed(&selector_replacements);
        proof {
            assert(before.spec_compressed(&system, polys@, plan, selectors@, scalars@));
            assert(plan.spec_valid(
                selectors@,
                before.spec_selector_degrees(selectors@.len()),
                before.spec_degree() as usize,
            ));
            assert(plan.spec_greedy(
                selectors@,
                before.spec_selector_degrees(selectors@.len()),
                before.spec_degree() as usize,
            ));
        }
        (system, polys)
    }

    /// Whether `after` and `polys` are what giving each selector of `self`
    /// a fixed column of its own gives: one new fixed column for each
    /// selector, queried at the current row and holding `one` where the
    /// selector is active and `zero` elsewhere; each selector replaced in
    /// every gate, lookup and shuffle by the query of its column; and no
    /// selectors left.
    pub open spec fn spec_directly_converted(
        &self,
        after: &Self,
        polys: Seq<Vec<F>>,
        activations: Seq<Vec<bool>>,
        zero: F,
        one: F,
    ) -> bool {
        let first = self.num_fixed_columns as int;
        let count = activations.len();
        let replacements = Seq::new(
            count,
            |i: int| spec_column_query::<F>(self.fixed_queries@, first, i as nat),
        );
        &&& after.num_fixed_columns == first + count
        &&& after.fixed_queries@ == spec_intern_columns(self.fixed_queries@, first, count)
        &&& after.num_selectors == 0
        &&& polys.len() == count
        &&& forall|i: int|
            0 <= i < count ==> (#[trigger] polys[i])@ == spec_direct_values(
                activations[i]@,
                zero,
                one,
            )
        &&& after.gates@.len() == self.gates@.len()
        &&& forall|k: int|
            0 <= k < self.gates@.len() ==> spec_gate_replaced(
                self.gates@[k],
                #[trigger] after.gates@[k],
                replacements,
            )
        &&& after.lookups@.len() == self.lookups@.len()
        &&& forall|k: int|
            0 <= k < self.lookups@.len() ==> spec_lookup_replaced(
                self.lookups@[k],
                #[trigger] after.lookups@[k],
                replacements,
            )
        &&& after.shuffles@.len() == self.shuffles@.len()
        &&& forall|k: int|
            0 <= k < self.shuffles@.len() ==> spec_shuffle_replaced(
                self.shuffles@[k],
                #[trigger] after.shuffles@[k],
                replacements,
            )
        &&& *after == (ConstraintSystem {
            num_fixed_columns: after.num_fixed_columns,
            num_selectors: 0,
            fixed_queries: after.fixed_queries,
            gates: after.gates,
            lookups: after.lookups,
            shuffles: after.shuffles,
            ..*self
        })
    }

    /// Does not combine selectors and directly replaces them everywhere
    /// with fixed columns. `zero` and `one` are the field elements that a
    /// column holds where its selector is disabled and enabled.
    pub fn directly_convert_selectors_to_fixed(
        self,
        selectors: Vec<Vec<bool>>,
        zero: F,
        one: F,
    ) -> (r: (Self, Vec<Vec<F>>)) where F: Copy
        requires
            self.spec_convertible(selectors@.len()),
        ensures
            self.spec_directly_converted(&r.0, r.1@, selectors@, zero, one),
    {
        let ghost before = self;
        let mut system = self;
        let n = selectors.len();
        let mut polys: Vec<Vec<F>> = Vec::new();
        let mut i: usize = 0;
        while i < n
            invariant
                i <= n,
                n == selectors@.len(),
                polys@.len() == i,
                forall|k: int|
                    0 <= k < i ==> (#[trigger] polys@[k])@ == spec_direct_values(
                        selectors@[k]@,
                        zero,
                        one,
                    ),
            decreases n - i,
        {
            let selector = &selectors[i];
            let mut poly: Vec<F> = Vec::new();
            let mut row: usize = 0;
            while row < selector.len()
                invariant
                    row <= selector.len(),
                    poly@.len() == row,
                    forall|r: int|
                        0 <= r < row ==> #[trigger] poly@[r] == if selector@[r] {
                            one
                        } else {
                            zero
                        },
                decreases selector.len() - row,
            {
                poly.push(
                    if selector[row] {
                        one
                    } else {
                        zero
                    },
                );
                row += 1;
            }
            proof {
                assert(poly@ =~= spec_direct_values(selector@, zero, one));
            }
            polys.push(poly);
            i += 1;
        }
        let (new_columns, selector_replacements) = system.allocate_selector_columns(n);
        proof {
            assert forall|k: int| 0 <= k < selector_replacements@.len() implies !(
            #[trigger] selector_replacements@[k]).spec_contains_simple_selector() by {
                reveal_with_fuel(Expression::spec_contains_simple_selector, 2);
            }
            assert(selector_replacements@ =~= Seq::new(
                n as nat,
                |i: int|
                    spec_column_query::<F>(
                        before.fixed_queries@,
                        before.num_fixed_columns as int,
                        i as nat,
                    ),
            ));
        }
        system.replace_selectors_with_fixed(&selector_replacements);
        system.num_selectors = 0;
        (system, polys)
    }
}

/// The size of a combination of a valid grouping is at most the largest
/// degree, but for a combination of one selector.
pub proof fn lemma_size_bounded(
    plan: Combinations,
    activations: Seq<Vec<bool>>,
    degrees: Seq<usize>,
    max_degree: usize,
    g: int,
)
    requires
        plan.spec_valid(activations, degrees, max_degree),
        0 <= g < plan.sizes@.len(),
    ensures
        plan.sizes@[g] <= max_degree || plan.sizes@[g] <= 1,
{
    if plan.sizes@[g] > 0 {
        assert(super::compress_selectors::spec_has_member(plan.group@, plan.rank@, g, 0));
        let i = choose|i: int|
            0 <= i < plan.group@.len() && #[trigger] plan.group@[i] == g && plan.rank@[i] == 0;
        assert(plan.group@[i] == g);
    }
}

} // verus!

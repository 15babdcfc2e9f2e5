//! What building a constraint system keeps: the selectors of its gates and
//! arguments stay in order, so that the selectors can be compressed.

use super::arguments::{
    spec_pairs_simple_free, spec_polys, spec_query_all, spec_query_pairs, spec_query_table_pairs,
};
use super::cells::{QueryState, VirtualCells};
use super::column::{Selector, TableColumn};
use super::expression::Expression;
use super::gate::Constraint;
use super::selectors::{spec_all_selectors_below, spec_simple_free};
use super::system::ConstraintSystem;
use crate::plonk::lookup::{spec_firsts, spec_seconds};
use vstd::prelude::*;

verus! {

/// Whether two expressions hold the same selectors in the same places.
pub open spec fn spec_same_selectors<F>(a: Expression<F>, b: Expression<F>) -> bool {
    &&& forall|s: Selector| a.spec_has_selector(s) == #[trigger] b.spec_has_selector(s)
    &&& a.spec_contains_simple_selector() == b.spec_contains_simple_selector()
    &&& a.spec_degree() == b.spec_degree()
    &&& forall|n: nat| a.spec_selectors_below(n) == #[trigger] b.spec_selectors_below(n)
}

/// Interning the queries of an expression leaves its degree as it is, and
/// does not change whether it holds the selector `s`, whether it holds a
/// simple selector, and whether its selectors are below `n`.
proof fn lemma_query_cells_keeps<F>(expr: Expression<F>, st: QueryState, s: Selector, n: nat)
    ensures
        expr.spec_query_cells(st).0.spec_has_selector(s) == expr.spec_has_selector(s),
        expr.spec_query_cells(st).0.spec_contains_simple_selector()
            == expr.spec_contains_simple_selector(),
        expr.spec_query_cells(st).0.spec_degree() == expr.spec_degree(),
        expr.spec_query_cells(st).0.spec_selectors_below(n) == expr.spec_selectors_below(n),
    decreases expr,
{
    match expr {
        Expression::Negated(a) => {
            lemma_query_cells_keeps(*a, st, s, n);
        },
        Expression::Sum(a, b) => {
            lemma_query_cells_keeps(*a, st, s, n);
            lemma_query_cells_keeps(*b, a.spec_query_cells(st).1, s, n);
        },
        Expression::Product(a, b) => {
            lemma_query_cells_keeps(*a, st, s, n);
            lemma_query_cells_keeps(*b, a.spec_query_cells(st).1, s, n);
        },
        Expression::Scaled(a, _) => {
            lemma_query_cells_keeps(*a, st, s, n);
        },
        _ => {},
    }
}

/// Interning the queries of an expression leaves its selectors and its
/// degree as they are.
pub proof fn lemma_query_cells_keeps_selectors<F>(expr: Expression<F>, st: QueryState)
    ensures
        spec_same_selectors(expr, expr.spec_query_cells(st).0),
{
    let interned = expr.spec_query_cells(st).0;
    lemma_query_cells_keeps(expr, st, Selector(0, true), 0);
    assert forall|s: Selector| expr.spec_has_selector(s) == #[trigger] interned.spec_has_selector(
        s,
    ) by {
        lemma_query_cells_keeps(expr, st, s, 0);
    }
    assert forall|n: nat| expr.spec_selectors_below(n) == #[trigger] interned.spec_selectors_below(
        n,
    ) by {
        lemma_query_cells_keeps(expr, st, Selector(0, true), n);
    }
}

/// Interning the queries of some polynomials gives as many polynomials,
/// each with the selectors and the degree of the one it comes from.
pub proof fn lemma_query_all_keeps_selectors<F>(polys: Seq<Expression<F>>, st: QueryState)
    ensures
        spec_query_all(polys, st).0.len() == polys.len(),
        forall|i: int|
            0 <= i < polys.len() ==> spec_same_selectors(
                polys[i],
                #[trigger] spec_query_all(polys, st).0[i],
            ),
    decreases polys.len(),
{
    if polys.len() > 0 {
        lemma_query_all_keeps_selectors(polys.drop_last(), st);
        lemma_query_cells_keeps_selectors(polys.last(), spec_query_all(polys.drop_last(), st).1);
    }
}

/// Interning the queries of some pairs gives as many pairs, each
/// expression with the selectors and the degree of the one it comes from.
pub proof fn lemma_query_pairs_keeps_selectors<F>(
    pairs: Seq<(Expression<F>, Expression<F>)>,
    st: QueryState,
)
    ensures
        spec_query_pairs(pairs, st).0.len() == pairs.len(),
        forall|i: int|
            0 <= i < pairs.len() ==> spec_same_selectors(
                pairs[i].0,
                (#[trigger] spec_query_pairs(pairs, st).0[i]).0,
            ) && spec_same_selectors(pairs[i].1, spec_query_pairs(pairs, st).0[i].1),
    decreases pairs.len(),
{
    if pairs.len() > 0 {
        lemma_query_pairs_keeps_selectors(pairs.drop_last(), st);
        let mid = spec_query_pairs(pairs.drop_last(), st).1;
        lemma_query_cells_keeps_selectors(pairs.last().0, mid);
        lemma_query_cells_keeps_selectors(pairs.last().1, pairs.last().0.spec_query_cells(mid).1);
    }
}

/// Querying the table columns of some pairs gives as many pairs, each
/// input with the selectors and the degree of the one it comes from, and
/// each table expression a query of a fixed column.
pub proof fn lemma_query_table_pairs_keeps_selectors<F>(
    pairs: Seq<(Expression<F>, TableColumn)>,
    st: QueryState,
)
    ensures
        spec_query_table_pairs(pairs, st).0.len() == pairs.len(),
        forall|i: int|
            0 <= i < pairs.len() ==> spec_same_selectors(
                pairs[i].0,
                (#[trigger] spec_query_table_pairs(pairs, st).0[i]).0,
            ) && spec_query_table_pairs(pairs, st).0[i].1 is Fixed,
    decreases pairs.len(),
{
    if pairs.len() > 0 {
        lemma_query_table_pairs_keeps_selectors(pairs.drop_last(), st);
        let mid = spec_query_table_pairs(pairs.drop_last(), st).1;
        let between = mid.spec_query_fixed(pairs.last().1.inner(), crate::middleware::Rotation(0)).1;
        lemma_query_cells_keeps_selectors(pairs.last().0, between);
    }
}

impl<F> ConstraintSystem<F> {
    /// Whether the selectors of the system are in order, so that they can
    /// be replaced by columns: every selector that occurs was allocated,
    /// no lookup or shuffle holds a simple selector, every gate polynomial
    /// holds one simple selector at most, and every lookup and shuffle has
    /// as many inputs as table or shuffle expressions.
    pub open spec fn spec_selectors_sound(&self) -> bool {
        &&& self.spec_selectors_below(self.num_selectors as nat)
        &&& self.spec_arguments_simple_free()
        &&& self.spec_gates_single_selector()
        &&& self.spec_arguments_balanced()
    }
}

/// The system without gates and arguments has its selectors in order, and
/// allocating a selector keeps them in order.
pub proof fn lemma_selectors_sound_start<F>(cs: ConstraintSystem<F>, more: ConstraintSystem<F>)
    requires
        more.gates == cs.gates,
        more.lookups == cs.lookups,
        more.shuffles == cs.shuffles,
        more.num_selectors >= cs.num_selectors,
    ensures
        cs.gates@.len() == 0 && cs.lookups@.len() == 0 && cs.shuffles@.len() == 0
            ==> cs.spec_selectors_sound(),
        cs.spec_selectors_sound() ==> more.spec_selectors_sound(),
{
    if cs.spec_selectors_sound() {
        assert forall|k: int| 0 <= k < more.gates@.len() implies spec_all_selectors_below(
            (#[trigger] more.gates@[k]).polys@,
            more.num_selectors as nat,
        ) by {
            lemma_all_below_more(
                cs.gates@[k].polys@,
                cs.num_selectors as nat,
                more.num_selectors as nat,
            );
        }
        assert forall|k: int| 0 <= k < more.lookups@.len() implies spec_all_selectors_below(
            (#[trigger] more.lookups@[k]).input_expressions@,
            more.num_selectors as nat,
        ) && spec_all_selectors_below(
            more.lookups@[k].table_expressions@,
            more.num_selectors as nat,
        ) by {
            lemma_all_below_more(
                cs.lookups@[k].input_expressions@,
                cs.num_selectors as nat,
                more.num_selectors as nat,
            );
            lemma_all_below_more(
                cs.lookups@[k].table_expressions@,
                cs.num_selectors as nat,
                more.num_selectors as nat,
            );
        }
        assert forall|k: int| 0 <= k < more.shuffles@.len() implies spec_all_selectors_below(
            (#[trigger] more.shuffles@[k]).input_expressions@,
            more.num_selectors as nat,
        ) && spec_all_selectors_below(
            more.shuffles@[k].shuffle_expressions@,
            more.num_selectors as nat,
        ) by {
            lemma_all_below_more(
                cs.shuffles@[k].input_expressions@,
                cs.num_selectors as nat,
                more.num_selectors as nat,
            );
            lemma_all_below_more(
                cs.shuffles@[k].shuffle_expressions@,
                cs.num_selectors as nat,
                more.num_selectors as nat,
            );
        }
    }
}

/// Selectors that are below a number are below a larger one.
pub proof fn lemma_below_more<F>(expr: Expression<F>, n: nat, more: nat)
    requires
        expr.spec_selectors_below(n),
        n <= more,
    ensures
        expr.spec_selectors_below(more),
    decreases expr,
{
    match expr {
        Expression::Negated(a) => {
            lemma_below_more(*a, n, more);
        },
        Expression::Sum(a, b) => {
            lemma_below_more(*a, n, more);
            lemma_below_more(*b, n, more);
        },
        Expression::Product(a, b) => {
            lemma_below_more(*a, n, more);
            lemma_below_more(*b, n, more);
        },
        Expression::Scaled(a, _) => {
            lemma_below_more(*a, n, more);
        },
        _ => {},
    }
}

/// Selectors that are all below a number are all below a larger one.
pub proof fn lemma_all_below_more<F>(exprs: Seq<Expression<F>>, n: nat, more: nat)
    requires
        spec_all_selectors_below(exprs, n),
        n <= more,
    ensures
        spec_all_selectors_below(exprs, more),
{
    assert forall|i: int| 0 <= i < exprs.len() implies (#[trigger] exprs[i]).spec_selectors_below(
        more,
    ) by {
        lemma_below_more(exprs[i], n, more);
    }
}

impl<F> VirtualCells<F> {
    /// A gate of polynomials whose selectors are allocated, each with one
    /// simple selector at most, keeps the selectors of the system in
    /// order.
    pub proof fn lemma_gate_created_sound(
        self,
        constraints: Seq<Constraint<F>>,
        name: Seq<char>,
        after: ConstraintSystem<F>,
    )
        requires
            self.spec_gate_created(constraints, name, after),
            self.meta.spec_selectors_sound(),
            forall|i: int|
                0 <= i < constraints.len() ==> (#[trigger] constraints[i]).poly.spec_selectors_below(
                    self.meta.num_selectors as nat,
                ) && constraints[i].poly.spec_at_most_one_simple_selector(),
        ensures
            after.spec_selectors_sound(),
    {
        let polys = spec_polys(constraints);
        let n = self.meta.num_selectors as nat;
        lemma_query_all_keeps_selectors(polys, self.spec_state());
        let interned = spec_query_all(polys, self.spec_state()).0;
        let last = self.meta.gates@.len() as int;
        assert(after.gates@.last() == after.gates@[last]);
        assert forall|k: int| 0 <= k < after.gates@.len() implies spec_all_selectors_below(
            (#[trigger] after.gates@[k]).polys@,
            n,
        ) by {
            if k < last {
                assert(after.gates@[k] == after.gates@.drop_last()[k]);
                assert(spec_all_selectors_below(self.meta.gates@[k].polys@, n));
            } else {
                assert forall|p: int| 0 <= p < interned.len() implies (
                #[trigger] interned[p]).spec_selectors_below(n) by {
                    assert(spec_same_selectors(polys[p], interned[p]));
                    assert(constraints[p].poly.spec_selectors_below(n));
                }
            }
        }
        assert forall|k: int, p: int|
            0 <= k < after.gates@.len() && 0 <= p < after.gates@[k].polys@.len() implies (
        #[trigger] after.gates@[k].polys@[p]).spec_at_most_one_simple_selector() by {
            if k < last {
                assert(after.gates@[k] == after.gates@.drop_last()[k]);
                assert(self.meta.gates@[k].polys@[p].spec_at_most_one_simple_selector());
            } else {
                assert(spec_same_selectors(polys[p], interned[p]));
                assert(constraints[p].poly.spec_at_most_one_simple_selector());
                assert forall|s: Selector, t: Selector|
                    s.is_simple() && t.is_simple() && #[trigger] interned[p].spec_has_selector(s)
                        && #[trigger] interned[p].spec_has_selector(t) implies s == t by {
                    assert(polys[p].spec_has_selector(s) && polys[p].spec_has_selector(t));
                }
            }
        }
    }

    /// A lookup that is stored with expressions without simple selectors,
    /// whose selectors are allocated, keeps the selectors of the system in
    /// order.
    proof fn lemma_lookup_stored(
        self,
        pairs: Seq<(Expression<F>, Expression<F>)>,
        st: QueryState,
        name: Seq<char>,
        after: ConstraintSystem<F>,
        index: usize,
    )
        requires
            self.spec_lookup_added(pairs, st, name, after, index),
            self.meta.spec_selectors_sound(),
            forall|i: int|
                0 <= i < pairs.len() ==> !(#[trigger] pairs[i]).0.spec_contains_simple_selector()
                    && !pairs[i].1.spec_contains_simple_selector() && pairs[i].0.spec_selectors_below(
                    self.meta.num_selectors as nat,
                ) && pairs[i].1.spec_selectors_below(self.meta.num_selectors as nat),
        ensures
            after.spec_selectors_sound(),
    {
        let n = self.meta.num_selectors as nat;
        let last = self.meta.lookups@.len() as int;
        assert(after.lookups@.last() == after.lookups@[last]);
        assert forall|k: int| 0 <= k < after.lookups@.len() implies spec_all_selectors_below(
            (#[trigger] after.lookups@[k]).input_expressions@,
            n,
        ) && spec_all_selectors_below(after.lookups@[k].table_expressions@, n) && spec_simple_free(
            after.lookups@[k].input_expressions@,
        ) && spec_simple_free(after.lookups@[k].table_expressions@)
            && after.lookups@[k].input_expressions@.len()
            == after.lookups@[k].table_expressions@.len() by {
            if k < last {
                assert(after.lookups@[k] == after.lookups@.drop_last()[k]);
                let before = self.meta.lookups@[k];
                assert(spec_all_selectors_below(before.input_expressions@, n));
                assert(spec_simple_free(before.input_expressions@));
                assert(before.input_expressions@.len() == before.table_expressions@.len());
            } else {
                assert forall|p: int| 0 <= p < pairs.len() implies (#[trigger] spec_firsts(
                    pairs,
                )[p]).spec_selectors_below(n) && !spec_firsts(pairs)[p].spec_contains_simple_selector()
                    by {
                    assert(pairs[p].0.spec_selectors_below(n));
                }
                assert forall|p: int| 0 <= p < pairs.len() implies (#[trigger] spec_seconds(
                    pairs,
                )[p]).spec_selectors_below(n) && !spec_seconds(
                    pairs,
                )[p].spec_contains_simple_selector() by {
                    assert(pairs[p].1.spec_selectors_below(n));
                }
            }
        }
    }

    /// A shuffle that is stored with expressions without simple selectors,
    /// whose selectors are allocated, keeps the selectors of the system in
    /// order.
    proof fn lemma_shuffle_stored(
        self,
        pairs: Seq<(Expression<F>, Expression<F>)>,
        st: QueryState,
        name: Seq<char>,
        after: ConstraintSystem<F>,
        index: usize,
    )
        requires
            self.spec_shuffle_added(pairs, st, name, after, index),
            self.meta.spec_selectors_sound(),
            forall|i: int|
                0 <= i < pairs.len() ==> !(#[trigger] pairs[i]).0.spec_contains_simple_selector()
                    && !pairs[i].1.spec_contains_simple_selector() && pairs[i].0.spec_selectors_below(
                    self.meta.num_selectors as nat,
                ) && pairs[i].1.spec_selectors_below(self.meta.num_selectors as nat),
        ensures
            after.spec_selectors_sound(),
    {
        let n = self.meta.num_selectors as nat;
        let last = self.meta.shuffles@.len() as int;
        assert(after.shuffles@.last() == after.shuffles@[last]);
        assert forall|k: int| 0 <= k < after.shuffles@.len() implies spec_all_selectors_below(
            (#[trigger] after.shuffles@[k]).input_expressions@,
            n,
        ) && spec_all_selectors_below(after.shuffles@[k].shuffle_expressions@, n)
            && spec_simple_free(after.shuffles@[k].input_expressions@) && spec_simple_free(
            after.shuffles@[k].shuffle_expressions@,
        ) && after.shuffles@[k].input_expressions@.len()
            == after.shuffles@[k].shuffle_expressions@.len() by {
            if k < last {
                assert(after.shuffles@[k] == after.shuffles@.drop_last()[k]);
                let before = self.meta.shuffles@[k];
                assert(spec_all_selectors_below(before.input_expressions@, n));
                assert(spec_simple_free(before.input_expressions@));
                assert(before.input_expressions@.len() == before.shuffle_expressions@.len());
            } else {
                assert forall|p: int| 0 <= p < pairs.len() implies (#[trigger] spec_firsts(
                    pairs,
                )[p]).spec_selectors_below(n) && !spec_firsts(pairs)[p].spec_contains_simple_selector()
                    by {
                    assert(pairs[p].0.spec_selectors_below(n));
                }
                assert forall|p: int| 0 <= p < pairs.len() implies (#[trigger] spec_seconds(
                    pairs,
                )[p]).spec_selectors_below(n) && !spec_seconds(
                    pairs,
                )[p].spec_contains_simple_selector() by {
                    assert(pairs[p].1.spec_selectors_below(n));
                }
            }
        }
    }
    /// A lookup into table columns, over inputs without simple selectors
    /// whose selectors are allocated, keeps the selectors of the system in
    /// order.
    pub proof fn lemma_lookup_added_sound(
        self,
        out: Seq<(Expression<F>, TableColumn)>,
        name: Seq<char>,
        after: ConstraintSystem<F>,
        index: usize,
    )
        requires
            self.spec_lookup_added(
                spec_query_table_pairs(out, self.spec_state()).0,
                spec_query_table_pairs(out, self.spec_state()).1,
                name,
                after,
                index,
            ),
            self.meta.spec_selectors_sound(),
            forall|i: int|
                0 <= i < out.len() ==> !(#[trigger] out[i]).0.spec_contains_simple_selector()
                    && out[i].0.spec_selectors_below(self.meta.num_selectors as nat),
        ensures
            after.spec_selectors_sound(),
    {
        let (pairs, st) = spec_query_table_pairs(out, self.spec_state());
        lemma_query_table_pairs_keeps_selectors(out, self.spec_state());
        assert forall|i: int| 0 <= i < pairs.len() implies !(
        #[trigger] pairs[i]).0.spec_contains_simple_selector()
            && !pairs[i].1.spec_contains_simple_selector() && pairs[i].0.spec_selectors_below(
            self.meta.num_selectors as nat,
        ) && pairs[i].1.spec_selectors_below(self.meta.num_selectors as nat) by {
            assert(spec_same_selectors(out[i].0, pairs[i].0));
            assert(out[i].0.spec_selectors_below(self.meta.num_selectors as nat));
        }
        self.lemma_lookup_stored(pairs, st, name, after, index);
    }

    /// A lookup into table expressions, over expressions without simple
    /// selectors whose selectors are allocated, keeps the selectors of the
    /// system in order.
    pub proof fn lemma_lookup_any_added_sound(
        self,
        out: Seq<(Expression<F>, Expression<F>)>,
        name: Seq<char>,
        after: ConstraintSystem<F>,
        index: usize,
    )
        requires
            self.spec_lookup_added(
                spec_query_pairs(out, self.spec_state()).0,
                spec_query_pairs(out, self.spec_state()).1,
                name,
                after,
                index,
            ),
            self.meta.spec_selectors_sound(),
            spec_pairs_simple_free(out),
            spec_pairs_selectors_below(out, self.meta.num_selectors as nat),
        ensures
            after.spec_selectors_sound(),
    {
        let (pairs, st) = spec_query_pairs(out, self.spec_state());
        lemma_interned_pairs(out, self.spec_state(), self.meta.num_selectors as nat);
        self.lemma_lookup_stored(pairs, st, name, after, index);
    }

    /// A shuffle over expressions without simple selectors whose selectors
    /// are allocated keeps the selectors of the system in order.
    pub proof fn lemma_shuffle_added_sound(
        self,
        out: Seq<(Expression<F>, Expression<F>)>,
        name: Seq<char>,
        after: ConstraintSystem<F>,
        index: usize,
    )
        requires
            self.spec_shuffle_added(
                spec_query_pairs(out, self.spec_state()).0,
                spec_query_pairs(out, self.spec_state()).1,
                name,
                after,
                index,
            ),
            self.meta.spec_selectors_sound(),
            spec_pairs_simple_free(out),
            spec_pairs_selectors_below(out, self.meta.num_selectors as nat),
        ensures
            after.spec_selectors_sound(),
    {
        let (pairs, st) = spec_query_pairs(out, self.spec_state());
        lemma_interned_pairs(out, self.spec_state(), self.meta.num_selectors as nat);
        self.lemma_shuffle_stored(pairs, st, name, after, index);
    }
}

/// Whether every selector of the pairs has an index below `n`.
pub open spec fn spec_pairs_selectors_below<F>(
    pairs: Seq<(Expression<F>, Expression<F>)>,
    n: nat,
) -> bool {
    forall|i: int|
        0 <= i < pairs.len() ==> (#[trigger] pairs[i]).0.spec_selectors_below(n)
            && pairs[i].1.spec_selectors_below(n)
}

/// Pairs without simple selectors, whose selectors are below `n`, are such
/// pairs after their queries are interned.
proof fn lemma_interned_pairs<F>(out: Seq<(Expression<F>, Expression<F>)>, st: QueryState, n: nat)
    requires
        spec_pairs_simple_free(out),
        spec_pairs_selectors_below(out, n),
    ensures
        spec_pairs_simple_free(spec_query_pairs(out, st).0),
        spec_pairs_selectors_below(spec_query_pairs(out, st).0, n),
{
    let pairs = spec_query_pairs(out, st).0;
    lemma_query_pairs_keeps_selectors(out, st);
    assert forall|i: int| 0 <= i < pairs.len() implies !(
    #[trigger] pairs[i]).0.spec_contains_simple_selector()
        && !pairs[i].1.spec_contains_simple_selector() && pairs[i].0.spec_selectors_below(n)
        && pairs[i].1.spec_selectors_below(n) by {
        assert(spec_same_selectors(out[i].0, pairs[i].0));
        assert(spec_same_selectors(out[i].1, pairs[i].1));
        assert(out[i].0.spec_selectors_below(n));
    }
}

} // verus!

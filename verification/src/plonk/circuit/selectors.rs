//! Replacing the selectors of a constraint system by fixed columns.

use super::column::{Column, FixedQuery, Selector};
use super::compress_selectors::{
    column_values, combine, selector_expression, spec_column_values, spec_selector_expression,
    spec_uniform, Combinations,
};
use super::degree::{
    lemma_gates_degree_prefix, lemma_largest_degree_bounds, spec_gates_degree, spec_largest_degree,
};
use super::expression::{spec_max, Expression};
use super::gate::Gate;
use super::system::{spec_interned, spec_query_index, ConstraintSystem};
use crate::middleware::{Fixed, Rotation};
use crate::plonk::{lookup, shuffle};
use vstd::prelude::*;

verus! {

impl<F> Expression<F> {
    /// Whether every selector of the expression has an index below `n`.
    pub open spec fn spec_selectors_below(self, n: nat) -> bool
        decreases self,
    {
        match self {
            Expression::Selector(s) => s.0 < n,
            Expression::Negated(a) => a.spec_selectors_below(n),
            Expression::Sum(a, b) => a.spec_selectors_below(n) && b.spec_selectors_below(n),
            Expression::Product(a, b) => a.spec_selectors_below(n) && b.spec_selectors_below(n),
            Expression::Scaled(a, _) => a.spec_selectors_below(n),
            _ => true,
        }
    }

    /// The expression with each selector replaced by the expression that
    /// `replacements` holds at the selector's index.
    pub open spec fn spec_replace_selectors(self, replacements: Seq<Expression<F>>) -> Expression<F>
        decreases self,
    {
        match self {
            Expression::Selector(s) => replacements[s.0 as int],
            Expression::Negated(a) => Expression::Negated(
                Box::new(a.spec_replace_selectors(replacements)),
            ),
            Expression::Sum(a, b) => Expression::Sum(
                Box::new(a.spec_replace_selectors(replacements)),
                Box::new(b.spec_replace_selectors(replacements)),
            ),
            Expression::Product(a, b) => Expression::Product(
                Box::new(a.spec_replace_selectors(replacements)),
                Box::new(b.spec_replace_selectors(replacements)),
            ),
            Expression::Scaled(a, f) => Expression::Scaled(
                Box::new(a.spec_replace_selectors(replacements)),
                f,
            ),
            _ => self,
        }
    }

    /// The expression with each selector replaced by the expression that
    /// `replacements` holds at the selector's index. With
    /// `must_be_nonsimple`, the expression may hold no simple selector.
    pub fn replace_selectors(&self, replacements: &Vec<Expression<F>>, must_be_nonsimple: bool) -> (r:
        Self) where F: Copy
        requires
            self.spec_selectors_below(replacements@.len()),
            spec_simple_free(replacements@),
            must_be_nonsimple ==> !self.spec_contains_simple_selector(),
        ensures
            r == self.spec_replace_selectors(replacements@),
            !r.spec_contains_simple_selector(),
        decreases self,
    {
        match self {
            Expression::Constant(constant) => Expression::Constant(*constant),
            Expression::Selector(selector) => replacements[selector.0].duplicate(),
            Expression::Fixed(query) => Expression::Fixed(*query),
            Expression::Advice(query) => Expression::Advice(*query),
            Expression::Instance(query) => Expression::Instance(*query),
            Expression::Challenge(challenge) => Expression::Challenge(*challenge),
            Expression::Negated(a) => Expression::Negated(
                Box::new(a.replace_selectors(replacements, must_be_nonsimple)),
            ),
            Expression::Sum(a, b) => a.replace_selectors(replacements, must_be_nonsimple)
                + b.replace_selectors(replacements, must_be_nonsimple),
            Expression::Product(a, b) => a.replace_selectors(replacements, must_be_nonsimple)
                * b.replace_selectors(replacements, must_be_nonsimple),
            Expression::Scaled(a, f) => Expression::Scaled(
                Box::new(a.replace_selectors(replacements, must_be_nonsimple)),
                *f,
            ),
        }
    }
}

/// Whether no expression of `exprs` holds a simple selector.
pub open spec fn spec_simple_free<F>(exprs: Seq<Expression<F>>) -> bool {
    forall|i: int| 0 <= i < exprs.len() ==> !(#[trigger] exprs[i]).spec_contains_simple_selector()
}

/// Whether every selector of `exprs` has an index below `n`.
pub open spec fn spec_all_selectors_below<F>(exprs: Seq<Expression<F>>, n: nat) -> bool {
    forall|i: int| 0 <= i < exprs.len() ==> (#[trigger] exprs[i]).spec_selectors_below(n)
}

/// The expressions of `exprs` with their selectors replaced.
pub open spec fn spec_replace_all<F>(
    exprs: Seq<Expression<F>>,
    replacements: Seq<Expression<F>>,
) -> Seq<Expression<F>> {
    Seq::new(exprs.len(), |i: int| exprs[i].spec_replace_selectors(replacements))
}

/// The expressions of `exprs` with their selectors replaced.
pub fn replace_all<F: Copy>(
    exprs: &Vec<Expression<F>>,
    replacements: &Vec<Expression<F>>,
    must_be_nonsimple: bool,
) -> (r: Vec<Expression<F>>)
    requires
        spec_all_selectors_below(exprs@, replacements@.len()),
        spec_simple_free(replacements@),
        must_be_nonsimple ==> spec_simple_free(exprs@),
    ensures
        r@ == spec_replace_all(exprs@, replacements@),
{
    let mut out: Vec<Expression<F>> = Vec::new();
    let mut i: usize = 0;
    while i < exprs.len()
        invariant
            i <= exprs.len(),
            spec_all_selectors_below(exprs@, replacements@.len()),
            spec_simple_free(replacements@),
            must_be_nonsimple ==> spec_simple_free(exprs@),
            out@.len() == i,
            forall|k: int|
                0 <= k < i ==> #[trigger] out@[k] == exprs@[k].spec_replace_selectors(
                    replacements@,
                ),
        decreases exprs.len() - i,
    {
        out.push(exprs[i].replace_selectors(replacements, must_be_nonsimple));
        i += 1;
    }
    proof {
        assert(out@ =~= spec_replace_all(exprs@, replacements@));
    }
    out
}

/// Whether `after` is gate `before` with the selectors of its
/// polynomials replaced.
pub open spec fn spec_gate_replaced<F>(
    before: Gate<F>,
    after: Gate<F>,
    replacements: Seq<Expression<F>>,
) -> bool {
    &&& after.name == before.name
    &&& after.constraint_names == before.constraint_names
    &&& after.queried_selectors == before.queried_selectors
    &&& after.queried_cells == before.queried_cells
    &&& after.polys@ == spec_replace_all(before.polys@, replacements)
}

/// Whether `after` is the lookup `before` with the selectors of its
/// expressions replaced.
pub open spec fn spec_lookup_replaced<F>(
    before: lookup::Argument<F>,
    after: lookup::Argument<F>,
    replacements: Seq<Expression<F>>,
) -> bool {
    &&& after.name == before.name
    &&& after.input_expressions@ == spec_replace_all(before.input_expressions@, replacements)
    &&& after.table_expressions@ == spec_replace_all(before.table_expressions@, replacements)
}

/// Whether `after` is the shuffle `before` with the selectors of its
/// expressions replaced.
pub open spec fn spec_shuffle_replaced<F>(
    before: shuffle::Argument<F>,
    after: shuffle::Argument<F>,
    replacements: Seq<Expression<F>>,
) -> bool {
    &&& after.name == before.name
    &&& after.input_expressions@ == spec_replace_all(before.input_expressions@, replacements)
    &&& after.shuffle_expressions@ == spec_replace_all(before.shuffle_expressions@, replacements)
}

impl<F> ConstraintSystem<F> {
    /// Whether every selector of a gate, a lookup or a shuffle has an index
    /// below `n`.
    pub open spec fn spec_selectors_below(&self, n: nat) -> bool {
        &&& forall|k: int|
            0 <= k < self.gates@.len() ==> spec_all_selectors_below(
                (#[trigger] self.gates@[k]).polys@,
                n,
            )
        &&& forall|k: int|
            0 <= k < self.lookups@.len() ==> spec_all_selectors_below(
                (#[trigger] self.lookups@[k]).input_expressions@,
                n,
            ) && spec_all_selectors_below(self.lookups@[k].table_expressions@, n)
        &&& forall|k: int|
            0 <= k < self.shuffles@.len() ==> spec_all_selectors_below(
                (#[trigger] self.shuffles@[k]).input_expressions@,
                n,
            ) && spec_all_selectors_below(self.shuffles@[k].shuffle_expressions@, n)
    }

    /// Whether no lookup and no shuffle holds a simple selector.
    pub open spec fn spec_arguments_simple_free(&self) -> bool {
        &&& forall|k: int|
            0 <= k < self.lookups@.len() ==> spec_simple_free(
                (#[trigger] self.lookups@[k]).input_expressions@,
            ) && spec_simple_free(self.lookups@[k].table_expressions@)
        &&& forall|k: int|
            0 <= k < self.shuffles@.len() ==> spec_simple_free(
                (#[trigger] self.shuffles@[k]).input_expressions@,
            ) && spec_simple_free(self.shuffles@[k].shuffle_expressions@)
    }

    /// Whether `after` is `self` with the selectors of every gate, lookup
    /// and shuffle replaced, and nothing else changed.
    pub open spec fn spec_selectors_replaced(
        &self,
        after: &Self,
        replacements: Seq<Expression<F>>,
    ) -> bool {
        &&& after.gates@.len() == self.gates@.len()
        &&& forall|k: int|
            0 <= k < self.gates@.len() ==> spec_gate_replaced(
                self.gates@[k],
                #[trigger] after.gates@[k],
                replacements,
            )
        &&& after.lookups@.len() == self.lookups@.len()
        &&& forall|k: int|
            0 <= k < self.lookups@.len() ==> spec_lookup_replaced(
                self.lookups@[k],
                #[trigger] after.lookups@[k],
                replacements,
            )
        &&& after.shuffles@.len() == self.shuffles@.len()
        &&& forall|k: int|
            0 <= k < self.shuffles@.len() ==> spec_shuffle_replaced(
                self.shuffles@[k],
                #[trigger] after.shuffles@[k],
                replacements,
            )
        &&& *after == (ConstraintSystem {
            gates: after.gates,
            lookups: after.lookups,
            shuffles: after.shuffles,
            ..*self
        })
    }

    /// Substitutes the selectors of all gates, lookups and shuffles by the
    /// expressions of `selector_replacements`. Lookups and shuffles may hold
    /// no simple selector.
    pub fn replace_selectors_with_fixed(&mut self, selector_replacements: &Vec<Expression<F>>) where
        F: Copy,

        requires
            old(self).spec_selectors_below(selector_replacements@.len()),
            old(self).spec_arguments_simple_free(),
            spec_simple_free(selector_replacements@),
        ensures
            old(self).spec_selectors_replaced(final(self), selector_replacements@),
    {
        // Substitute selectors for the real fixed columns in all gates.
        let mut gates: Vec<Gate<F>> = Vec::new();
        core::mem::swap(&mut gates, &mut self.gates);
        let ghost all_gates = gates@;
        let mut new_gates: Vec<Gate<F>> = Vec::new();
        for gate in it: gates
            invariant
                it.seq() == all_gates,
                all_gates == old(self).gates@,
                old(self).spec_selectors_below(selector_replacements@.len()),
                spec_simple_free(selector_replacements@),
                new_gates@.len() == it.index(),
                forall|k: int|
                    0 <= k < it.index() ==> spec_gate_replaced(
                        all_gates[k],
                        #[trigger] new_gates@[k],
                        selector_replacements@,
                    ),
        {
            assert(gate == all_gates[it.index() as int]);
            let Gate { name, constraint_names, polys, queried_selectors, queried_cells } = gate;
            let polys = replace_all(&polys, selector_replacements, false);
            new_gates.push(Gate { name, constraint_names, polys, queried_selectors, queried_cells });
        }
        self.gates = new_gates;

        // Substitute non-simple selectors for the real fixed columns in all
        // lookup expressions.
        let mut lookups: Vec<lookup::Argument<F>> = Vec::new();
        core::mem::swap(&mut lookups, &mut self.lookups);
        let ghost all_lookups = lookups@;
        let mut new_lookups: Vec<lookup::Argument<F>> = Vec::new();
        for argument in it: lookups
            invariant
                it.seq() == all_lookups,
                all_lookups == old(self).lookups@,
                old(self).spec_selectors_below(selector_replacements@.len()),
                old(self).spec_arguments_simple_free(),
                spec_simple_free(selector_replacements@),
                new_lookups@.len() == it.index(),
                forall|k: int|
                    0 <= k < it.index() ==> spec_lookup_replaced(
                        all_lookups[k],
                        #[trigger] new_lookups@[k],
                        selector_replacements@,
                    ),
        {
            assert(argument == all_lookups[it.index() as int]);
            let lookup::Argument { name, input_expressions, table_expressions } = argument;
            let input_expressions = replace_all(&input_expressions, selector_replacements, true);
            let table_expressions = replace_all(&table_expressions, selector_replacements, true);
            new_lookups.push(lookup::Argument { name, input_expressions, table_expressions });
        }
        self.lookups = new_lookups;

        let mut shuffles: Vec<shuffle::Argument<F>> = Vec::new();
        core::mem::swap(&mut shuffles, &mut self.shuffles);
        let ghost all_shuffles = shuffles@;
        let mut new_shuffles: Vec<shuffle::Argument<F>> = Vec::new();
        for argument in it: shuffles
            invariant
                it.seq() == all_shuffles,
                all_shuffles == old(self).shuffles@,
                old(self).spec_selectors_below(selector_replacements@.len()),
                old(self).spec_arguments_simple_free(),
                spec_simple_free(selector_replacements@),
                new_shuffles@.len() == it.index(),
                forall|k: int|
                    0 <= k < it.index() ==> spec_shuffle_replaced(
                        all_shuffles[k],
                        #[trigger] new_shuffles@[k],
                        selector_replacements@,
                    ),
        {
            assert(argument == all_shuffles[it.index() as int]);
            let shuffle::Argument { name, input_expressions, shuffle_expressions } = argument;
            let input_expressions = replace_all(&input_expressions, selector_replacements, true);
            let shuffle_expressions = replace_all(&shuffle_expressions, selector_replacements, true);
            new_shuffles.push(shuffle::Argument { name, input_expressions, shuffle_expressions });
        }
        self.shuffles = new_shuffles;
    }
}

} // verus!

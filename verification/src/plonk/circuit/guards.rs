//! Tests of what the operations on expressions and constraint systems ask
//! of their arguments.

use super::arguments::{spec_pairs_advice_below, spec_pairs_simple_free};
use super::cells::VirtualCells;
use super::column::{Selector, TableColumn};
use super::expression::Expression;
use super::gate::Constraint;
use super::selectors::{spec_all_selectors_below, spec_simple_free};
use super::system::ConstraintSystem;
use vstd::prelude::*;

verus! {

impl<F> Expression<F> {
    /// Whether every selector of the expression has an index below `n`.
    pub fn selectors_below(&self, n: usize) -> (r: bool)
        ensures
            r == self.spec_selectors_below(n as nat),
        decreases self,
    {
        match self {
            Expression::Selector(s) => s.0 < n,
            Expression::Negated(a) => a.selectors_below(n),
            Expression::Sum(a, b) => {
                let x = a.selectors_below(n);
                let y = b.selectors_below(n);
                x && y
            },
            Expression::Product(a, b) => {
                let x = a.selectors_below(n);
                let y = b.selectors_below(n);
                x && y
            },
            Expression::Scaled(a, _) => a.selectors_below(n),
            _ => true,
        }
    }

    /// Whether every advice query of the expression that has no index yet
    /// goes into one of the first `n` advice columns.
    pub fn advice_below(&self, n: usize) -> (r: bool)
        ensures
            r == self.spec_advice_below(n as nat),
        decreases self,
    {
        match self {
            Expression::Advice(q) => q.index.is_some() || q.column_index < n,
            Expression::Negated(a) => a.advice_below(n),
            Expression::Sum(a, b) => {
                let x = a.advice_below(n);
                let y = b.advice_below(n);
                x && y
            },
            Expression::Product(a, b) => {
                let x = a.advice_below(n);
                let y = b.advice_below(n);
                x && y
            },
            Expression::Scaled(a, _) => a.advice_below(n),
            _ => true,
        }
    }

    /// Whether every simple selector that occurs in the expression is `s`.
    pub open spec fn spec_only_simple_selector(self, s: Selector) -> bool {
        forall|t: Selector| t.is_simple() && #[trigger] self.spec_has_selector(t) ==> t == s
    }

    /// Every simple selector of an expression is `s` exactly if every
    /// simple selector of each of its parts is.
    pub proof fn lemma_only_simple_selector(self, s: Selector)
        ensures
            self.spec_only_simple_selector(s) == match self {
                Expression::Selector(t) => !t.is_simple() || t == s,
                Expression::Negated(a) => a.spec_only_simple_selector(s),
                Expression::Sum(a, b) => a.spec_only_simple_selector(s)
                    && b.spec_only_simple_selector(s),
                Expression::Product(a, b) => a.spec_only_simple_selector(s)
                    && b.spec_only_simple_selector(s),
                Expression::Scaled(a, _) => a.spec_only_simple_selector(s),
                _ => true,
            },
    {
        match self {
            Expression::Selector(t) => {
                assert(self.spec_has_selector(t));
                if !t.is_simple() || t == s {
                    assert forall|u: Selector|
                        u.is_simple() && #[trigger] self.spec_has_selector(u) implies u == s by {}
                }
            },
            Expression::Negated(a) => {
                Self::lemma_only_of_parts(self, *a, *a, s);
            },
            Expression::Sum(a, b) => {
                Self::lemma_only_of_parts(self, *a, *b, s);
            },
            Expression::Product(a, b) => {
                Self::lemma_only_of_parts(self, *a, *b, s);
            },
            Expression::Scaled(a, _) => {
                Self::lemma_only_of_parts(self, *a, *a, s);
            },
            _ => {
                assert forall|u: Selector|
                    u.is_simple() && #[trigger] self.spec_has_selector(u) implies u == s by {}
            },
        }
    }

    /// Where an expression holds the selectors of two parts and no others,
    /// every simple selector of the expression is `s` exactly if every
    /// simple selector of both parts is.
    proof fn lemma_only_of_parts(whole: Self, a: Self, b: Self, s: Selector)
        requires
            forall|t: Selector|
                #[trigger] whole.spec_has_selector(t) == (a.spec_has_selector(t)
                    || b.spec_has_selector(t)),
        ensures
            whole.spec_only_simple_selector(s) == (a.spec_only_simple_selector(s)
                && b.spec_only_simple_selector(s)),
    {
        if a.spec_only_simple_selector(s) && b.spec_only_simple_selector(s) {
            assert forall|t: Selector|
                t.is_simple() && #[trigger] whole.spec_has_selector(t) implies t == s by {
                assert(a.spec_has_selector(t) || b.spec_has_selector(t));
            }
        }
        if whole.spec_only_simple_selector(s) {
            assert forall|t: Selector| t.is_simple() && #[trigger] a.spec_has_selector(t) implies t
                == s by {
                assert(whole.spec_has_selector(t));
            }
            assert forall|t: Selector| t.is_simple() && #[trigger] b.spec_has_selector(t) implies t
                == s by {
                assert(whole.spec_has_selector(t));
            }
        }
    }

    /// Whether every simple selector that occurs in the expression is `s`.
    pub fn only_simple_selector(&self, s: Selector) -> (r: bool)
        ensures
            r == self.spec_only_simple_selector(s),
        decreases self,
    {
        proof {
            self.lemma_only_simple_selector(s);
        }
        match self {
            Expression::Selector(t) => !t.is_simple() || *t == s,
            Expression::Negated(a) => a.only_simple_selector(s),
            Expression::Sum(a, b) => {
                let x = a.only_simple_selector(s);
                let y = b.only_simple_selector(s);
                x && y
            },
            Expression::Product(a, b) => {
                let x = a.only_simple_selector(s);
                let y = b.only_simple_selector(s);
                x && y
            },
            Expression::Scaled(a, _) => a.only_simple_selector(s),
            _ => true,
        }
    }

    /// The first simple selector of the expression, if it has one.
    pub fn first_simple_selector(&self) -> (r: Option<Selector>)
        ensures
            r == self.spec_extract_simple_selector(),
        decreases self,
    {
        match self {
            Expression::Selector(selector) => {
                if selector.is_simple() {
                    Some(*selector)
                } else {
                    None
                }
            },
            Expression::Negated(a) => a.first_simple_selector(),
            Expression::Sum(a, b) => match a.first_simple_selector() {
                Some(s) => Some(s),
                None => b.first_simple_selector(),
            },
            Expression::Product(a, b) => match a.first_simple_selector() {
                Some(s) => Some(s),
                None => b.first_simple_selector(),
            },
            Expression::Scaled(a, _) => a.first_simple_selector(),
            _ => None,
        }
    }

    /// Whether all simple selectors that occur in the expression are one and
    /// the same selector.
    pub fn at_most_one_simple_selector(&self) -> (r: bool)
        ensures
            r == self.spec_at_most_one_simple_selector(),
    {
        proof {
            self.lemma_extract_simple_selector();
        }
        match self.first_simple_selector() {
            None => true,
            Some(s) => {
                let r = self.only_simple_selector(s);
                proof {
                    if !r {
                        let t = choose|t: Selector|
                            t.is_simple() && #[trigger] self.spec_has_selector(t) && t != s;
                        assert(self.spec_has_selector(s) && self.spec_has_selector(t));
                    }
                }
                r
            },
        }
    }
}

/// Whether every selector of `exprs` has an index below `n`.
pub fn all_selectors_below<F>(exprs: &Vec<Expression<F>>, n: usize) -> (r: bool)
    ensures
        r == spec_all_selectors_below(exprs@, n as nat),
{
    let mut i: usize = 0;
    while i < exprs.len()
        invariant
            i <= exprs.len(),
            forall|j: int| 0 <= j < i ==> (#[trigger] exprs@[j]).spec_selectors_below(n as nat),
        decreases exprs.len() - i,
    {
        if !exprs[i].selectors_below(n) {
            return false;
        }
        i += 1;
    }
    true
}

/// Whether no expression of `exprs` holds a simple selector.
pub fn simple_free<F>(exprs: &Vec<Expression<F>>) -> (r: bool)
    ensures
        r == spec_simple_free(exprs@),
{
    let mut i: usize = 0;
    while i < exprs.len()
        invariant
            i <= exprs.len(),
            forall|j: int| 0 <= j < i ==> !(#[trigger] exprs@[j]).spec_contains_simple_selector(),
        decreases exprs.len() - i,
    {
        if exprs[i].contains_simple_selector() {
            return false;
        }
        i += 1;
    }
    true
}

/// Whether every polynomial of `exprs` holds one simple selector at most.
pub fn single_selector<F>(exprs: &Vec<Expression<F>>) -> (r: bool)
    ensures
        r == forall|p: int|
            0 <= p < exprs@.len() ==> (#[trigger] exprs@[p]).spec_at_most_one_simple_selector(),
{
    let mut i: usize = 0;
    while i < exprs.len()
        invariant
            i <= exprs.len(),
            forall|j: int|
                0 <= j < i ==> (#[trigger] exprs@[j]).spec_at_most_one_simple_selector(),
        decreases exprs.len() - i,
    {
        if !exprs[i].at_most_one_simple_selector() {
            return false;
        }
        i += 1;
    }
    true
}

impl<F> ConstraintSystem<F> {
    /// Whether the selectors of the system are in order, so that they can
    /// be replaced by columns.
    pub fn selectors_sound(&self) -> (r: bool)
        ensures
            r == self.spec_selectors_sound(),
    {
        let n = self.num_selectors;
        let mut k: usize = 0;
        while k < self.gates.len()
            invariant
                k <= self.gates.len(),
                n == self.num_selectors,
                forall|j: int|
                    0 <= j < k ==> spec_all_selectors_below(
                        (#[trigger] self.gates@[j]).polys@,
                        n as nat,
                    ),
                forall|j: int, p: int|
                    0 <= j < k && 0 <= p < self.gates@[j].polys@.len() ==> (
                    #[trigger] self.gates@[j].polys@[p]).spec_at_most_one_simple_selector(),
            decreases self.gates.len() - k,
        {
            let gate = &self.gates[k];
            if !all_selectors_below(&gate.polys, n) || !single_selector(&gate.polys) {
                return false;
            }
            k += 1;
        }
        let mut k: usize = 0;
        while k < self.lookups.len()
            invariant
                k <= self.lookups.len(),
                n == self.num_selectors,
                forall|j: int|
                    0 <= j < k ==> {
                        let lookup = #[trigger] self.lookups@[j];
                        &&& spec_all_selectors_below(lookup.input_expressions@, n as nat)
                        &&& spec_all_selectors_below(lookup.table_expressions@, n as nat)
                        &&& spec_simple_free(lookup.input_expressions@)
                        &&& spec_simple_free(lookup.table_expressions@)
                        &&& lookup.input_expressions@.len() == lookup.table_expressions@.len()
                    },
            decreases self.lookups.len() - k,
        {
            let lookup = &self.lookups[k];
            if !all_selectors_below(&lookup.input_expressions, n) || !all_selectors_below(
                &lookup.table_expressions,
                n,
            ) || !simple_free(&lookup.input_expressions) || !simple_free(&lookup.table_expressions)
                || lookup.input_expressions.len() != lookup.table_expressions.len() {
                return false;
            }
            k += 1;
        }
        let mut k: usize = 0;
        while k < self.shuffles.len()
            invariant
                k <= self.shuffles.len(),
                n == self.num_selectors,
                forall|j: int|
                    0 <= j < k ==> {
                        let shuffle = #[trigger] self.shuffles@[j];
                        &&& spec_all_selectors_below(shuffle.input_expressions@, n as nat)
                        &&& spec_all_selectors_below(shuffle.shuffle_expressions@, n as nat)
                        &&& spec_simple_free(shuffle.input_expressions@)
                        &&& spec_simple_free(shuffle.shuffle_expressions@)
                        &&& shuffle.input_expressions@.len() == shuffle.shuffle_expressions@.len()
                    },
            decreases self.shuffles.len() - k,
        {
            let shuffle = &self.shuffles[k];
            if !all_selectors_below(&shuffle.input_expressions, n) || !all_selectors_below(
                &shuffle.shuffle_expressions,
                n,
            ) || !simple_free(&shuffle.input_expressions) || !simple_free(
                &shuffle.shuffle_expressions,
            ) || shuffle.input_expressions.len() != shuffle.shuffle_expressions.len() {
                return false;
            }
            k += 1;
        }
        true
    }
}

impl<F> VirtualCells<F> {
    /// Whether a gate can be made of `constraints` from this handle, whose
    /// system is well formed: there is at least one constraint, and every
    /// advice query without an index goes into an allocated column.
    pub fn gate_ready(&self, constraints: &Vec<Constraint<F>>) -> (r: bool)
        requires
            self.meta.spec_wf(),
        ensures
            r == self.spec_gate_ready(constraints@),
    {
        if constraints.len() == 0 {
            return false;
        }
        let n = self.meta.num_advice_columns;
        let mut i: usize = 0;
        while i < constraints.len()
            invariant
                i <= constraints.len(),
                n == self.meta.num_advice_columns,
                forall|j: int|
                    0 <= j < i ==> (#[trigger] super::arguments::spec_polys(
                        constraints@,
                    )[j]).spec_advice_below(n as nat),
            decreases constraints.len() - i,
        {
            assert(super::arguments::spec_polys(constraints@)[i as int] == constraints@[i as int].poly);
            if !constraints[i].poly.advice_below(n) {
                return false;
            }
            i += 1;
        }
        true
    }

    /// Whether a lookup into table columns can be made of `pairs` from
    /// this handle: no input holds a simple selector, and every advice
    /// query without an index goes into an allocated column.
    pub fn table_pairs_ready(&self, pairs: &Vec<(Expression<F>, TableColumn)>) -> (r: bool)
        ensures
            r == forall|i: int|
                0 <= i < pairs@.len() ==> !(#[trigger] pairs@[i]).0.spec_contains_simple_selector()
                    && pairs@[i].0.spec_advice_below(self.meta.num_advice_columns as nat),
    {
        let n = self.meta.num_advice_columns;
        let mut i: usize = 0;
        while i < pairs.len()
            invariant
                i <= pairs.len(),
                n == self.meta.num_advice_columns,
                forall|j: int|
                    0 <= j < i ==> !(#[trigger] pairs@[j]).0.spec_contains_simple_selector()
                        && pairs@[j].0.spec_advice_below(n as nat),
            decreases pairs.len() - i,
        {
            if pairs[i].0.contains_simple_selector() || !pairs[i].0.advice_below(n) {
                return false;
            }
            i += 1;
        }
        true
    }

    /// Whether a lookup or a shuffle can be made of `pairs` from this
    /// handle: no expression holds a simple selector, and every advice
    /// query without an index goes into an allocated column.
    pub fn pairs_ready(&self, pairs: &Vec<(Expression<F>, Expression<F>)>) -> (r: bool)
        ensures
            r == (spec_pairs_simple_free(pairs@) && spec_pairs_advice_below(
                pairs@,
                self.meta.num_advice_columns as nat,
            )),
    {
        let n = self.meta.num_advice_columns;
        let mut i: usize = 0;
        while i < pairs.len()
            invariant
                i <= pairs.len(),
                n == self.meta.num_advice_columns,
                forall|j: int|
                    0 <= j < i ==> !(#[trigger] pairs@[j]).0.spec_contains_simple_selector()
                        && !pairs@[j].1.spec_contains_simple_selector()
                        && pairs@[j].0.spec_advice_below(n as nat) && pairs@[j].1.spec_advice_below(
                        n as nat,
                    ),
            decreases pairs.len() - i,
        {
            if pairs[i].0.contains_simple_selector() || pairs[i].1.contains_simple_selector()
                || !pairs[i].0.advice_below(n) || !pairs[i].1.advice_below(n) {
                return false;
            }
            i += 1;
        }
        true
    }
}

} // verus!

//! Degree and blinding bounds of a constraint system, its phases, column
//! annotations and read access to its tables.

use super::column::{Column, TableColumn};
use super::expression::{spec_max, Expression};
use super::gate::Gate;
use super::queries::spec_annotation;
use super::sealed;
use super::system::ConstraintSystem;
use crate::middleware::{Advice, Any, Fixed, Instance, MetadataColumn, Rotation};
use crate::plonk::{lookup, permutation, shuffle};
use vstd::prelude::*;

verus! {

/// The largest degree among `exprs`, zero if there are none.
pub open spec fn spec_largest_degree<F>(exprs: Seq<Expression<F>>) -> nat
    decreases exprs.len(),
{
    if exprs.len() == 0 {
        0
    } else {
        spec_max(spec_largest_degree(exprs.drop_last()), exprs.last().spec_degree())
    }
}

/// The largest degree among the polynomials of `gates`, zero if there are
/// none.
pub open spec fn spec_gates_degree<F>(gates: Seq<Gate<F>>) -> nat
    decreases gates.len(),
{
    if gates.len() == 0 {
        0
    } else {
        spec_max(spec_gates_degree(gates.drop_last()), spec_largest_degree(gates.last().polys@))
    }
}

/// The largest degree that one of `lookups` requires, 1 if there are none.
pub open spec fn spec_lookups_degree<F>(lookups: Seq<lookup::Argument<F>>) -> nat
    decreases lookups.len(),
{
    if lookups.len() == 0 {
        1
    } else {
        spec_max(spec_lookups_degree(lookups.drop_last()), lookups.last().spec_required_degree())
    }
}

/// The largest degree that one of `shuffles` requires, 1 if there are none.
pub open spec fn spec_shuffles_degree<F>(shuffles: Seq<shuffle::Argument<F>>) -> nat
    decreases shuffles.len(),
{
    if shuffles.len() == 0 {
        1
    } else {
        spec_max(spec_shuffles_degree(shuffles.drop_last()), shuffles.last().spec_required_degree())
    }
}

/// The largest of `counters`, zero if there are none.
pub open spec fn spec_largest(counters: Seq<usize>) -> nat
    decreases counters.len(),
{
    if counters.len() == 0 {
        0
    } else {
        spec_max(spec_largest(counters.drop_last()), counters.last() as nat)
    }
}

/// The latest of `phases`, the first phase if there are none.
pub open spec fn spec_latest_phase(phases: Seq<sealed::Phase>) -> nat
    decreases phases.len(),
{
    if phases.len() == 0 {
        0
    } else {
        spec_max(spec_latest_phase(phases.drop_last()), phases.last().0 as nat)
    }
}

/// Every polynomial has at most the largest degree.
pub proof fn lemma_largest_degree_bounds<F>(exprs: Seq<Expression<F>>, i: int)
    requires
        0 <= i < exprs.len(),
    ensures
        exprs[i].spec_degree() <= spec_largest_degree(exprs),
    decreases exprs.len(),
{
    if i < exprs.len() - 1 {
        lemma_largest_degree_bounds(exprs.drop_last(), i);
    }
}

/// The degree over some of the gates is at most the degree over all of
/// them.
pub proof fn lemma_gates_degree_prefix<F>(gates: Seq<Gate<F>>, k: int)
    requires
        0 <= k <= gates.len(),
    ensures
        spec_gates_degree(gates.subrange(0, k)) <= spec_gates_degree(gates),
    decreases gates.len() - k,
{
    if k < gates.len() {
        lemma_gates_degree_prefix(gates, k + 1);
        assert(gates.subrange(0, k + 1).drop_last() =~= gates.subrange(0, k));
    } else {
        assert(gates.subrange(0, k) =~= gates);
    }
}

/// The degree over some of the lookups is at most the degree over all of
/// them.
pub proof fn lemma_lookups_degree_prefix<F>(lookups: Seq<lookup::Argument<F>>, k: int)
    requires
        0 <= k <= lookups.len(),
    ensures
        spec_lookups_degree(lookups.subrange(0, k)) <= spec_lookups_degree(lookups),
    decreases lookups.len() - k,
{
    if k < lookups.len() {
        lemma_lookups_degree_prefix(lookups, k + 1);
        assert(lookups.subrange(0, k + 1).drop_last() =~= lookups.subrange(0, k));
    } else {
        assert(lookups.subrange(0, k) =~= lookups);
    }
}

/// The degree over some of the shuffles is at most the degree over all of
/// them.
pub proof fn lemma_shuffles_degree_prefix<F>(shuffles: Seq<shuffle::Argument<F>>, k: int)
    requires
        0 <= k <= shuffles.len(),
    ensures
        spec_shuffles_degree(shuffles.subrange(0, k)) <= spec_shuffles_degree(shuffles),
    decreases shuffles.len() - k,
{
    if k < shuffles.len() {
        lemma_shuffles_degree_prefix(shuffles, k + 1);
        assert(shuffles.subrange(0, k + 1).drop_last() =~= shuffles.subrange(0, k));
    } else {
        assert(shuffles.subrange(0, k) =~= shuffles);
    }
}

/// The largest degree among `exprs`, zero if there are none.
pub fn largest_degree<F>(exprs: &Vec<Expression<F>>) -> (r: usize)
    requires
        spec_largest_degree(exprs@) <= usize::MAX,
    ensures
        r == spec_largest_degree(exprs@),
{
    let mut degree: usize = 0;
    let mut i: usize = 0;
    while i < exprs.len()
        invariant
            i <= exprs.len(),
            degree == spec_largest_degree(exprs@.subrange(0, i as int)),
            spec_largest_degree(exprs@) <= usize::MAX,
        decreases exprs.len() - i,
    {
        proof {
            lemma_largest_degree_bounds(exprs@, i as int);
            assert(exprs@.subrange(0, i + 1).drop_last() =~= exprs@.subrange(0, i as int));
        }
        let d = exprs[i].degree();
        if d > degree {
            degree = d;
        }
        i += 1;
    }
    proof {
        assert(exprs@.subrange(0, exprs@.len() as int) =~= exprs@);
    }
    degree
}

impl<F> ConstraintSystem<F> {
    /// Whether every lookup and every shuffle has as many input expressions
    /// as it has table or shuffle expressions.
    pub open spec fn spec_arguments_balanced(&self) -> bool {
        &&& forall|i: int|
            0 <= i < self.lookups@.len() ==> (#[trigger] self.lookups@[i]).input_expressions@.len()
                == self.lookups@[i].table_expressions@.len()
        &&& forall|i: int|
            0 <= i < self.shuffles@.len() ==> (
            #[trigger] self.shuffles@[i]).input_expressions@.len()
                == self.shuffles@[i].shuffle_expressions@.len()
    }

    /// The minimum degree that was set, 1 if none was.
    pub open spec fn spec_minimum_degree(&self) -> nat {
        match self.minimum_degree {
            Some(d) => d as nat,
            None => 1,
        }
    }

    /// Degree of the constraint system: the largest of the degree that the
    /// permutation argument requires, the degrees that the lookups and the
    /// shuffles require, the degrees of all gate polynomials, and the
    /// minimum degree.
    pub open spec fn spec_degree(&self) -> nat {
        spec_max(
            spec_max(
                spec_max(
                    spec_max(
                        self.permutation.spec_required_degree(),
                        spec_lookups_degree(self.lookups@),
                    ),
                    spec_shuffles_degree(self.shuffles@),
                ),
                spec_gates_degree(self.gates@),
            ),
            self.spec_minimum_degree(),
        )
    }

    /// Compute the degree of the constraint system (the maximum degree of
    /// all constraints).
    pub fn degree(&self) -> (r: usize)
        requires
            self.spec_arguments_balanced(),
            self.spec_degree() <= usize::MAX,
        ensures
            r == self.spec_degree(),
    {
        // The permutation argument will serve alongside the gates, so must
        // be accounted for.
        let mut degree = self.permutation.required_degree();

        // The lookup argument also serves alongside the gates and must be
        // accounted for.
        let mut lookups_degree: usize = 1;
        let mut i: usize = 0;
        while i < self.lookups.len()
            invariant
                i <= self.lookups.len(),
                self.spec_arguments_balanced(),
                spec_lookups_degree(self.lookups@) <= usize::MAX,
                lookups_degree == spec_lookups_degree(self.lookups@.subrange(0, i as int)),
            decreases self.lookups.len() - i,
        {
            proof {
                lemma_lookups_degree_prefix(self.lookups@, i + 1);
                assert(self.lookups@.subrange(0, i + 1).drop_last() =~= self.lookups@.subrange(
                    0,
                    i as int,
                ));
            }
            let d = self.lookups[i].required_degree();
            if d > lookups_degree {
                lookups_degree = d;
            }
            i += 1;
        }
        proof {
            assert(self.lookups@.subrange(0, self.lookups@.len() as int) =~= self.lookups@);
        }
        if lookups_degree > degree {
            degree = lookups_degree;
        }

        // The shuffle argument also serves alongside the gates and must be
        // accounted for.
        let mut shuffles_degree: usize = 1;
        let mut i: usize = 0;
        while i < self.shuffles.len()
            invariant
                i <= self.shuffles.len(),
                self.spec_arguments_balanced(),
                spec_shuffles_degree(self.shuffles@) <= usize::MAX,
                shuffles_degree == spec_shuffles_degree(self.shuffles@.subrange(0, i as int)),
            decreases self.shuffles.len() - i,
        {
            proof {
                lemma_shuffles_degree_prefix(self.shuffles@, i + 1);
                assert(self.shuffles@.subrange(0, i + 1).drop_last() =~= self.shuffles@.subrange(
                    0,
                    i as int,
                ));
            }
            let d = self.shuffles[i].required_degree();
            if d > shuffles_degree {
                shuffles_degree = d;
            }
            i += 1;
        }
        proof {
            assert(self.shuffles@.subrange(0, self.shuffles@.len() as int) =~= self.shuffles@);
        }
        if shuffles_degree > degree {
            degree = shuffles_degree;
        }

        // Account for each gate to ensure our quotient polynomial is the
        // correct degree and that our extended domain is the right size.
        let mut gates_degree: usize = 0;
        let mut i: usize = 0;
        while i < self.gates.len()
            invariant
                i <= self.gates.len(),
                spec_gates_degree(self.gates@) <= usize::MAX,
                gates_degree == spec_gates_degree(self.gates@.subrange(0, i as int)),
            decreases self.gates.len() - i,
        {
            proof {
                lemma_gates_degree_prefix(self.gates@, i + 1);
                assert(self.gates@.subrange(0, i + 1).drop_last() =~= self.gates@.subrange(
                    0,
                    i as int,
                ));
            }
            let d = largest_degree(&self.gates[i].polys);
            if d > gates_degree {
                gates_degree = d;
            }
            i += 1;
        }
        proof {
            assert(self.gates@.subrange(0, self.gates@.len() as int) =~= self.gates@);
        }
        if gates_degree > degree {
            degree = gates_degree;
        }

        let minimum = match self.minimum_degree {
            Some(d) => d,
            None => 1,
        };
        if minimum > degree {
            minimum
        } else {
            degree
        }
    }

    /// Number of blinding factors: the largest number of distinct queries
    /// into one advice column, but at least 3, and 2 more.
    pub open spec fn spec_blinding_factors(&self) -> nat {
        spec_max(3, spec_largest(self.num_advice_queries@)) + 2
    }

    /// Compute the number of blinding factors necessary to perfectly blind
    /// each of the prover's witness polynomials.
    pub fn blinding_factors(&self) -> (r: usize)
        requires
            self.spec_blinding_factors() <= usize::MAX,
        ensures
            r == self.spec_blinding_factors(),
    {
        // All of the prover's advice columns are evaluated at no more than
        // `factors` distinct points during gate checks.
        let mut factors: usize = 0;
        let mut i: usize = 0;
        while i < self.num_advice_queries.len()
            invariant
                i <= self.num_advice_queries.len(),
                factors == spec_largest(self.num_advice_queries@.subrange(0, i as int)),
            decreases self.num_advice_queries.len() - i,
        {
            proof {
                assert(self.num_advice_queries@.subrange(0, i + 1).drop_last()
                    =~= self.num_advice_queries@.subrange(0, i as int));
            }
            let count = self.num_advice_queries[i];
            if count > factors {
                factors = count;
            }
            i += 1;
        }
        proof {
            assert(self.num_advice_queries@.subrange(0, self.num_advice_queries@.len() as int)
                =~= self.num_advice_queries@);
        }
        // - The permutation argument witness polynomials are evaluated at
        //   most 3 times.
        // - Each lookup argument has independent witness polynomials, and
        //   they are evaluated at most 2 times.
        let factors = if factors > 3 {
            factors
        } else {
            3
        };

        // Each polynomial is evaluated at most an additional time during
        // multiopen (at x_3 to produce q_evals):
        let factors = factors + 1;

        // Add an additional blinding factor as a slight defense against
        // off-by-one errors.
        factors + 1
    }

    /// Returns the minimum necessary rows that need to exist in order to
    /// account for e.g. blinding factors.
    pub fn minimum_rows(&self) -> (r: usize)
        requires
            self.spec_blinding_factors() + 3 <= usize::MAX,
        ensures
            r == self.spec_blinding_factors() + 3,
    {
        self.blinding_factors()  // m blinding factors
         + 1  // for l_{-(m + 1)} (l_last)
         + 1  // for l_0 (just for extra breathing room for the permutation
        // argument, to essentially force a separation in the
        // permutation polynomial between the roles of l_last, l_0
        // and the interstitial values.)
         + 1  // for at least one row

    }

    /// Returns the list of phases: every phase from the first to the latest
    /// phase of an advice column.
    pub fn phases(&self) -> (r: Vec<sealed::Phase>)
        ensures
            r@.len() == spec_latest_phase(self.advice_column_phase@) + 1,
            forall|i: int| 0 <= i < r@.len() ==> (#[trigger] r@[i]).0 == i,
    {
        let mut max_phase: u8 = 0;
        let mut i: usize = 0;
        while i < self.advice_column_phase.len()
            invariant
                i <= self.advice_column_phase.len(),
                max_phase == spec_latest_phase(self.advice_column_phase@.subrange(0, i as int)),
            decreases self.advice_column_phase.len() - i,
        {
            proof {
                assert(self.advice_column_phase@.subrange(0, i + 1).drop_last()
                    =~= self.advice_column_phase@.subrange(0, i as int));
            }
            let phase = self.advice_column_phase[i].0;
            if phase > max_phase {
                max_phase = phase;
            }
            i += 1;
        }
        proof {
            assert(self.advice_column_phase@.subrange(0, self.advice_column_phase@.len() as int)
                =~= self.advice_column_phase@);
        }
        let mut out: Vec<sealed::Phase> = Vec::new();
        let mut p: u8 = 0;
        while p < max_phase
            invariant
                p <= max_phase,
                out@.len() == p,
                forall|i: int| 0 <= i < out@.len() ==> (#[trigger] out@[i]).0 == i,
            decreases max_phase - p,
        {
            out.push(sealed::Phase(p));
            p += 1;
        }
        out.push(sealed::Phase(max_phase));
        out
    }

    /// Whether `after` holds the annotations of `before` with the text of
    /// `key` set to `text`.
    pub open spec fn spec_annotated(
        before: Seq<(MetadataColumn, String)>,
        after: Seq<(MetadataColumn, String)>,
        key: MetadataColumn,
        text: Seq<char>,
    ) -> bool {
        forall|k: MetadataColumn| #[trigger]
            spec_annotation(after, k) == if k == key {
                Some(text)
            } else {
                spec_annotation(before, k)
            }
    }

    /// Sets the annotation of `key` to `text`, in place of the one that
    /// `key` may have already.
    pub fn annotate(&mut self, key: MetadataColumn, text: String)
        ensures
            Self::spec_annotated(
                old(self).general_column_annotations@,
                final(self).general_column_annotations@,
                key,
                text@,
            ),
            *final(self) == (ConstraintSystem {
                general_column_annotations: final(self).general_column_annotations,
                ..*old(self)
            }),
    {
        let ghost before = self.general_column_annotations@;
        let mut i: usize = 0;
        while i < self.general_column_annotations.len()
            invariant
                i <= self.general_column_annotations.len(),
                *self == *old(self),
                before == self.general_column_annotations@,
                forall|j: int| 0 <= j < i ==> (#[trigger] self.general_column_annotations@[j]).0 != key,
            decreases self.general_column_annotations.len() - i,
        {
            if self.general_column_annotations[i].0 == key {
                self.general_column_annotations[i] = (key, text);
                proof {
                    let after = self.general_column_annotations@;
                    assert forall|k: MetadataColumn| #[trigger]
                        spec_annotation(after, k) == if k == key {
                            Some(text@)
                        } else {
                            spec_annotation(before, k)
                        } by {
                        lemma_annotation_replaced(before, after, i as int, k);
                    }
                }
                return ;
            }
            i += 1;
        }
        self.general_column_annotations.push((key, text));
        proof {
            let after = self.general_column_annotations@;
            assert forall|k: MetadataColumn| #[trigger]
                spec_annotation(after, k) == if k == key {
                    Some(text@)
                } else {
                    spec_annotation(before, k)
                } by {
                lemma_annotation_pushed(before, after, k);
            }
        }
    }

    /// Annotate a lookup column. The annotation replaces the one that the
    /// column may have already.
    pub fn annotate_lookup_column<A: Fn() -> String>(&mut self, column: TableColumn, annotation: A)
        requires
            call_requires(annotation, ()),
        ensures
            exists|text: String|
                {
                    &&& #[trigger] call_ensures(annotation, (), text)
                    &&& Self::spec_annotated(
                        old(self).general_column_annotations@,
                        final(self).general_column_annotations@,
                        (MetadataColumn { column_type: Any::Fixed, index: column.inner().index }),
                        text@,
                    )
                },
            *final(self) == (ConstraintSystem {
                general_column_annotations: final(self).general_column_annotations,
                ..*old(self)
            }),
    {
        let text = annotation();
        self.annotate(MetadataColumn { column_type: Any::Fixed, index: column.inner().index }, text);
    }

    /// Annotate a column of any kind. The annotation replaces the one that
    /// the column may have already.
    pub fn annotate_lookup_any_column<A: Fn() -> String>(
        &mut self,
        column: Column<Any>,
        annotation: A,
    )
        requires
            call_requires(annotation, ()),
        ensures
            exists|text: String|
                {
                    &&& #[trigger] call_ensures(annotation, (), text)
                    &&& Self::spec_annotated(
                        old(self).general_column_annotations@,
                        final(self).general_column_annotations@,
                        (MetadataColumn { column_type: column.column_type, index: column.index }),
                        text@,
                    )
                },
            *final(self) == (ConstraintSystem {
                general_column_annotations: final(self).general_column_annotations,
                ..*old(self)
            }),
    {
        let text = annotation();
        self.annotate(MetadataColumn { column_type: column.column_type, index: column.index }, text);
    }

    /// Returns number of fixed columns.
    pub fn num_fixed_columns(&self) -> (r: usize)
        ensures
            r == self.num_fixed_columns,
    {
        self.num_fixed_columns
    }

    /// Returns number of advice columns.
    pub fn num_advice_columns(&self) -> (r: usize)
        ensures
            r == self.num_advice_columns,
    {
        self.num_advice_columns
    }

    /// Returns number of instance columns.
    pub fn num_instance_columns(&self) -> (r: usize)
        ensures
            r == self.num_instance_columns,
    {
        self.num_instance_columns
    }

    /// Returns number of selectors.
    pub fn num_selectors(&self) -> (r: usize)
        ensures
            r == self.num_selectors,
    {
        self.num_selectors
    }

    /// Returns number of challenges.
    pub fn num_challenges(&self) -> (r: usize)
        ensures
            r == self.num_challenges,
    {
        self.num_challenges
    }

    /// Returns phase of advice columns.
    pub fn advice_column_phase(&self) -> (r: Vec<u8>)
        ensures
            r@.len() == self.advice_column_phase@.len(),
            forall|i: int| 0 <= i < r@.len() ==> #[trigger] r@[i] == self.advice_column_phase@[i].0,
    {
        phase_numbers(&self.advice_column_phase)
    }

    /// Returns phase of challenges.
    pub fn challenge_phase(&self) -> (r: Vec<u8>)
        ensures
            r@.len() == self.challenge_phase@.len(),
            forall|i: int| 0 <= i < r@.len() ==> #[trigger] r@[i] == self.challenge_phase@[i].0,
    {
        phase_numbers(&self.challenge_phase)
    }

    /// Returns gates.
    pub fn gates(&self) -> (r: &Vec<Gate<F>>)
        ensures
            *r == self.gates,
    {
        &self.gates
    }

    /// Returns general column annotations.
    pub fn general_column_annotations(&self) -> (r: &Vec<(MetadataColumn, String)>)
        ensures
            *r == self.general_column_annotations,
    {
        &self.general_column_annotations
    }

    /// Returns advice queries.
    pub fn advice_queries(&self) -> (r: &Vec<(Column<Advice>, Rotation)>)
        ensures
            *r == self.advice_queries,
    {
        &self.advice_queries
    }

    /// Returns instance queries.
    pub fn instance_queries(&self) -> (r: &Vec<(Column<Instance>, Rotation)>)
        ensures
            *r == self.instance_queries,
    {
        &self.instance_queries
    }

    /// Returns fixed queries.
    pub fn fixed_queries(&self) -> (r: &Vec<(Column<Fixed>, Rotation)>)
        ensures
            *r == self.fixed_queries,
    {
        &self.fixed_queries
    }

    /// Returns permutation argument.
    pub fn permutation(&self) -> (r: &permutation::Argument)
        ensures
            *r == self.permutation,
    {
        &self.permutation
    }

    /// Returns lookup arguments.
    pub fn lookups(&self) -> (r: &Vec<lookup::Argument<F>>)
        ensures
            *r == self.lookups,
    {
        &self.lookups
    }

    /// Returns shuffle arguments.
    pub fn shuffles(&self) -> (r: &Vec<shuffle::Argument<F>>)
        ensures
            *r == self.shuffles,
    {
        &self.shuffles
    }

    /// Returns constants.
    pub fn constants(&self) -> (r: &Vec<Column<Fixed>>)
        ensures
            *r == self.constants,
    {
        &self.constants
    }
}

/// The numbers of `phases`.
fn phase_numbers(phases: &Vec<sealed::Phase>) -> (r: Vec<u8>)
    ensures
        r@.len() == phases@.len(),
        forall|i: int| 0 <= i < r@.len() ==> #[trigger] r@[i] == phases@[i].0,
{
    let mut out: Vec<u8> = Vec::new();
    let mut i: usize = 0;
    while i < phases.len()
        invariant
            i <= phases.len(),
            out@.len() == i,
            forall|j: int| 0 <= j < i ==> #[trigger] out@[j] == phases@[j].0,
        decreases phases.len() - i,
    {
        out.push(phases[i].0);
        i += 1;
    }
    out
}

/// Replacing the first entry of a column sets the column's text and leaves
/// the texts of the other columns as they were.
pub proof fn lemma_annotation_replaced(
    before: Seq<(MetadataColumn, String)>,
    after: Seq<(MetadataColumn, String)>,
    i: int,
    k: MetadataColumn,
)
    requires
        0 <= i < before.len(),
        after.len() == before.len(),
        forall|j: int| 0 <= j < before.len() && j != i ==> after[j] == before[j],
        after[i].0 == before[i].0,
        forall|j: int| 0 <= j < i ==> (#[trigger] before[j]).0 != before[i].0,
    ensures
        spec_annotation(after, k) == if k == before[i].0 {
            Some(after[i].1@)
        } else {
            spec_annotation(before, k)
        },
    decreases before.len(),
{
    let rest_before = before.subrange(1, before.len() as int);
    let rest_after = after.subrange(1, after.len() as int);
    if i == 0 {
        assert(rest_before =~= rest_after);
    } else {
        assert(after[0] == before[0]);
        assert(before[0].0 != before[i].0);
        assert forall|j: int| 0 <= j < i - 1 implies (#[trigger] rest_before[j]).0 != rest_before[i
            - 1].0 by {
            assert(rest_before[j] == before[j + 1]);
        }
        lemma_annotation_replaced(rest_before, rest_after, i - 1, k);
    }
}

/// Appending an entry for a column that has none sets the column's text and
/// leaves the texts of the other columns as they were.
pub proof fn lemma_annotation_pushed(
    before: Seq<(MetadataColumn, String)>,
    after: Seq<(MetadataColumn, String)>,
    k: MetadataColumn,
)
    requires
        after.len() == before.len() + 1,
        forall|j: int| 0 <= j < before.len() ==> after[j] == before[j],
        forall|j: int| 0 <= j < before.len() ==> (#[trigger] before[j]).0 != after.last().0,
    ensures
        spec_annotation(after, k) == if k == after.last().0 {
            Some(after.last().1@)
        } else {
            spec_annotation(before, k)
        },
    decreases before.len(),
{
    let rest_after = after.subrange(1, after.len() as int);
    if before.len() == 0 {
        assert(spec_annotation(rest_after, k).is_none());
    } else {
        let rest_before = before.subrange(1, before.len() as int);
        assert(after[0] == before[0]);
        assert(before[0].0 != after.last().0);
        assert(rest_after.last() == after.last());
        assert forall|j: int| 0 <= j < rest_before.len() implies (#[trigger] rest_before[j]).0
            != rest_after.last().0 by {
            assert(rest_before[j] == before[j + 1]);
        }
        lemma_annotation_pushed(rest_before, rest_after, k);
    }
}

} // verus!

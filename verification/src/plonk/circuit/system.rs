//! The constraint system: the registry of columns, selectors, challenges,
//! queries, gates and arguments of a circuit.

use super::column::{Challenge, Column, Phase, Selector, TableColumn};
use super::expression::{spec_max, Expression};
use super::gate::Gate;
use super::sealed;
use super::sealed::SealedPhase;
use crate::middleware::{Advice, Any, ColumnType, Fixed, Instance, MetadataColumn, Rotation};
use crate::plonk::{lookup, permutation, shuffle};
use vstd::prelude::*;
use vstd::string::StringExecFns;

verus! {

/// This is a description of the circuit environment, such as gate,
/// column and permutation arrangements.
#[derive(Debug)]
pub struct ConstraintSystem<F> {
    pub num_fixed_columns: usize,
    pub num_advice_columns: usize,
    pub num_instance_columns: usize,
    pub num_selectors: usize,
    pub num_challenges: usize,
    /// Contains the index of each advice column that is left unblinded.
    pub unblinded_advice_columns: Vec<usize>,
    /// Contains the phase for each advice column. Has the same length as
    /// `num_advice_columns`.
    pub advice_column_phase: Vec<sealed::Phase>,
    /// Contains the phase for each challenge. Has the same length as
    /// `num_challenges`.
    pub challenge_phase: Vec<sealed::Phase>,
    /// Maps each selector to the fixed column that it was compressed into.
    pub selector_map: Vec<Column<Fixed>>,
    pub gates: Vec<Gate<F>>,
    pub advice_queries: Vec<(Column<Advice>, Rotation)>,
    /// Contains an integer for each advice column identifying how many
    /// distinct queries it has so far; has the same length as
    /// `num_advice_columns`.
    pub num_advice_queries: Vec<usize>,
    pub instance_queries: Vec<(Column<Instance>, Rotation)>,
    pub fixed_queries: Vec<(Column<Fixed>, Rotation)>,
    /// Permutation argument for performing equality constraints.
    pub permutation: permutation::Argument,
    /// Vector of lookup arguments, where each corresponds to a sequence of
    /// input expressions and a sequence of table expressions involved in
    /// the lookup.
    pub lookups: Vec<lookup::Argument<F>>,
    /// Vector of shuffle arguments, where each corresponds to a sequence of
    /// input expressions and a sequence of shuffle expressions involved in
    /// the shuffle.
    pub shuffles: Vec<shuffle::Argument<F>>,
    /// Annotations of columns, each column at most once.
    pub general_column_annotations: Vec<(MetadataColumn, String)>,
    /// Vector of fixed columns, which can be used to store constant values
    /// that are copied into advice columns.
    pub constants: Vec<Column<Fixed>>,
    pub minimum_degree: Option<usize>,
}

/// Number of queries of `queries` into the advice column `column_index`.
pub open spec fn spec_count_queries(
    queries: Seq<(Column<Advice>, Rotation)>,
    column_index: int,
) -> nat
    decreases queries.len(),
{
    if queries.len() == 0 {
        0
    } else {
        spec_count_queries(queries.drop_last(), column_index) + if queries.last().0.index
            == column_index {
            1nat
        } else {
            0nat
        }
    }
}

/// A column has at most as many queries as there are queries.
pub proof fn lemma_count_queries_bounded(
    queries: Seq<(Column<Advice>, Rotation)>,
    column_index: int,
)
    ensures
        spec_count_queries(queries, column_index) <= queries.len(),
    decreases queries.len(),
{
    if queries.len() > 0 {
        lemma_count_queries_bounded(queries.drop_last(), column_index);
    }
}

/// A column into which no query goes has no queries.
pub proof fn lemma_count_queries_zero(queries: Seq<(Column<Advice>, Rotation)>, column_index: int)
    requires
        forall|i: int| 0 <= i < queries.len() ==> (#[trigger] queries[i]).0.index != column_index,
    ensures
        spec_count_queries(queries, column_index) == 0,
    decreases queries.len(),
{
    if queries.len() > 0 {
        assert(queries.last() == queries[queries.len() - 1]);
        lemma_count_queries_zero(queries.drop_last(), column_index);
    }
}

/// Index of `query` in `queries`: the place of its first occurrence, or the
/// length of `queries` if it does not occur.
pub open spec fn spec_query_index<Q>(queries: Seq<Q>, query: Q) -> int {
    if queries.contains(query) {
        choose|i: int|
            0 <= i < queries.len() && queries[i] == query && forall|j: int|
                0 <= j < i ==> queries[j] != query
    } else {
        queries.len() as int
    }
}

/// The queries after `query` was interned: `query` is appended unless it
/// occurs already.
pub open spec fn spec_interned<Q>(queries: Seq<Q>, query: Q) -> Seq<Q> {
    if queries.contains(query) {
        queries
    } else {
        queries.push(query)
    }
}

/// The place found by a search from the front is the index of the query.
pub proof fn lemma_query_index_found<Q>(queries: Seq<Q>, query: Q, r: int)
    requires
        0 <= r <= queries.len(),
        forall|j: int| 0 <= j < r ==> queries[j] != query,
        r < queries.len() ==> queries[r] == query,
    ensures
        spec_query_index(queries, query) == r,
        queries.contains(query) <==> r < queries.len(),
{
    if r < queries.len() {
        assert(queries.contains(query));
        let i = choose|i: int|
            0 <= i < queries.len() && queries[i] == query && forall|j: int|
                0 <= j < i ==> queries[j] != query;
        assert(i == r);
    } else {
        if queries.contains(query) {
            let i = choose|i: int| 0 <= i < queries.len() && queries[i] == query;
            assert(queries[i] != query);
        }
    }
}

/// The index of a query is a place in the interned queries, and the query
/// stands there.
pub proof fn lemma_query_index_valid<Q>(queries: Seq<Q>, query: Q)
    ensures
        0 <= spec_query_index(queries, query) < spec_interned(queries, query).len(),
        spec_interned(queries, query)[spec_query_index(queries, query)] == query,
        forall|j: int| 0 <= j < spec_query_index(queries, query) ==> queries[j] != query,
{
    if queries.contains(query) {
        let k = choose|k: int| 0 <= k < queries.len() && queries[k] == query;
        lemma_least_occurrence(queries, query, k);
    }
}

/// Where a query occurs, it has a first occurrence.
pub proof fn lemma_least_occurrence<Q>(queries: Seq<Q>, query: Q, k: int)
    requires
        0 <= k < queries.len(),
        queries[k] == query,
    ensures
        exists|i: int|
            0 <= i <= k && queries[i] == query && forall|j: int| 0 <= j < i ==> queries[j] != query,
    decreases k,
{
    if exists|m: int| 0 <= m < k && queries[m] == query {
        let m = choose|m: int| 0 <= m < k && queries[m] == query;
        lemma_least_occurrence(queries, query, m);
    }
}

/// Interning the same query twice changes nothing the second time and
/// gives the same index both times; interning keeps the queries distinct.
pub proof fn lemma_query_dedup<Q>(queries: Seq<Q>, query: Q)
    ensures
        spec_interned(spec_interned(queries, query), query) == spec_interned(queries, query),
        spec_query_index(spec_interned(queries, query), query) == spec_query_index(queries, query),
        queries.no_duplicates() ==> spec_interned(queries, query).no_duplicates(),
{
    let once = spec_interned(queries, query);
    lemma_query_index_valid(queries, query);
    let r = spec_query_index(queries, query);
    assert(once.contains(query));
    lemma_query_index_found(once, query, r);
}

impl<F> ConstraintSystem<F> {
    /// Whether the tables of the system agree with each other: there is
    /// a phase and a query counter for each advice column and a phase for
    /// each challenge, no query is listed twice, every advice query goes
    /// into an allocated column, and the counter of each advice column is
    /// the number of distinct queries into it.
    pub open spec fn spec_wf(&self) -> bool {
        &&& self.advice_column_phase@.len() == self.num_advice_columns
        &&& self.num_advice_queries@.len() == self.num_advice_columns
        &&& self.challenge_phase@.len() == self.num_challenges
        &&& self.fixed_queries@.no_duplicates()
        &&& self.advice_queries@.no_duplicates()
        &&& self.instance_queries@.no_duplicates()
        &&& forall|i: int|
            0 <= i < self.advice_queries@.len() ==> (#[trigger] self.advice_queries@[i]).0.index
                < self.num_advice_columns
        &&& forall|c: int|
            0 <= c < self.num_advice_columns ==> (#[trigger] self.num_advice_queries@[c])
                == spec_count_queries(self.advice_queries@, c)
    }

    /// Whether some advice column is in phase `phase`.
    pub open spec fn spec_phase_exists(&self, phase: sealed::Phase) -> bool {
        self.advice_column_phase@.contains(phase)
    }

    /// Whether some advice column is in phase `phase`.
    pub fn phase_exists(&self, phase: sealed::Phase) -> (r: bool)
        ensures
            r == self.spec_phase_exists(phase),
    {
        let mut i: usize = 0;
        while i < self.advice_column_phase.len()
            invariant
                i <= self.advice_column_phase.len(),
                forall|j: int| 0 <= j < i ==> self.advice_column_phase@[j] != phase,
            decreases self.advice_column_phase.len() - i,
        {
            if self.advice_column_phase[i].0 == phase.0 {
                return true;
            }
            i += 1;
        }
        false
    }

    /// Sets the minimum degree required by the circuit, which can be set to
    /// a larger amount than actually needed. This can be used, for example,
    /// to force the permutation argument to involve more columns in the
    /// same set.
    pub fn set_minimum_degree(&mut self, degree: usize)
        ensures
            *final(self) == (ConstraintSystem { minimum_degree: Some(degree), ..*old(self) }),
    {
        self.minimum_degree = Some(degree);
    }

    /// Allocate a new (simple) selector. Simple selectors cannot be added to
    /// expressions nor multiplied by other expressions containing simple
    /// selectors. Also, simple selectors may not appear in lookup argument
    /// inputs.
    pub fn selector(&mut self) -> (r: Selector)
        requires
            old(self).num_selectors < usize::MAX,
        ensures
            r == Selector(old(self).num_selectors, true),
            *final(self) == (ConstraintSystem {
                num_selectors: (old(self).num_selectors + 1) as usize,
                ..*old(self)
            }),
    {
        let index = self.num_selectors;
        self.num_selectors += 1;
        Selector(index, true)
    }

    /// Allocate a new complex selector that can appear anywhere within
    /// expressions.
    pub fn complex_selector(&mut self) -> (r: Selector)
        requires
            old(self).num_selectors < usize::MAX,
        ensures
            r == Selector(old(self).num_selectors, false),
            *final(self) == (ConstraintSystem {
                num_selectors: (old(self).num_selectors + 1) as usize,
                ..*old(self)
            }),
    {
        let index = self.num_selectors;
        self.num_selectors += 1;
        Selector(index, false)
    }

    /// Allocate a new fixed column.
    pub fn fixed_column(&mut self) -> (r: Column<Fixed>)
        requires
            old(self).num_fixed_columns < usize::MAX,
        ensures
            r == (Column { index: old(self).num_fixed_columns, column_type: Fixed }),
            *final(self) == (ConstraintSystem {
                num_fixed_columns: (old(self).num_fixed_columns + 1) as usize,
                ..*old(self)
            }),
    {
        let tmp = Column { index: self.num_fixed_columns, column_type: Fixed };
        self.num_fixed_columns += 1;
        tmp
    }

    /// Allocates a new fixed column that can be used in a lookup table.
    pub fn lookup_table_column(&mut self) -> (r: TableColumn)
        requires
            old(self).num_fixed_columns < usize::MAX,
        ensures
            r.inner() == (Column { index: old(self).num_fixed_columns, column_type: Fixed }),
            *final(self) == (ConstraintSystem {
                num_fixed_columns: (old(self).num_fixed_columns + 1) as usize,
                ..*old(self)
            }),
    {
        TableColumn::new(self.fixed_column())
    }

    /// Allocate a new instance column.
    pub fn instance_column(&mut self) -> (r: Column<Instance>)
        requires
            old(self).num_instance_columns < usize::MAX,
        ensures
            r == (Column { index: old(self).num_instance_columns, column_type: Instance }),
            *final(self) == (ConstraintSystem {
                num_instance_columns: (old(self).num_instance_columns + 1) as usize,
                ..*old(self)
            }),
    {
        let tmp = Column { index: self.num_instance_columns, column_type: Instance };
        self.num_instance_columns += 1;
        tmp
    }

    /// Whether an advice column or a challenge can be allocated in `phase`:
    /// phases are not skipped, so a phase after the first needs an advice
    /// column in the phase before it.
    pub open spec fn spec_phase_allowed(&self, phase: sealed::Phase) -> bool {
        phase.0 > 0 ==> self.spec_phase_exists(sealed::Phase((phase.0 - 1) as u8))
    }

    /// Allocate a new advice column in given phase.
    ///
    /// The phase before the given one must have an advice column allocated.
    pub fn advice_column_in<P: Phase>(&mut self, phase: P) -> (r: Column<Advice>)
        requires
            old(self).num_advice_columns < usize::MAX,
            old(self).spec_phase_allowed(phase.spec_to_sealed()),
        ensures
            r == (Column {
                index: old(self).num_advice_columns,
                column_type: Advice { phase: phase.spec_to_sealed().0 },
            }),
            final(self).num_advice_columns == old(self).num_advice_columns + 1,
            final(self).num_advice_queries@ == old(self).num_advice_queries@.push(0),
            final(self).advice_column_phase@ == old(self).advice_column_phase@.push(
                phase.spec_to_sealed(),
            ),
            *final(self) == (ConstraintSystem {
                num_advice_columns: final(self).num_advice_columns,
                num_advice_queries: final(self).num_advice_queries,
                advice_column_phase: final(self).advice_column_phase,
                ..*old(self)
            }),
            old(self).spec_wf() ==> final(self).spec_wf(),
            final(self).spec_phase_exists(phase.spec_to_sealed()),
    {
        let phase = phase.to_sealed();
        let tmp = Column { index: self.num_advice_columns, column_type: Advice { phase: phase.0 } };
        self.num_advice_columns += 1;
        self.num_advice_queries.push(0);
        self.advice_column_phase.push(phase);
        proof {
            let n = old(self).num_advice_columns as int;
            assert(self.advice_column_phase@[old(self).advice_column_phase@.len() as int] == phase);
            if old(self).spec_wf() {
                lemma_count_queries_zero(self.advice_queries@, n);
            }
        }
        tmp
    }

    /// Allocate a new unblinded advice column in given phase. This allows
    /// for the generation of deterministic commitments to advice columns
    /// which can be used to split large circuits into smaller ones, whose
    /// proofs can then be "joined" together by their common witness
    /// commitments.
    pub fn unblinded_advice_column_in<P: Phase>(&mut self, phase: P) -> (r: Column<Advice>)
        requires
            old(self).num_advice_columns < usize::MAX,
            old(self).spec_phase_allowed(phase.spec_to_sealed()),
        ensures
            r == (Column {
                index: old(self).num_advice_columns,
                column_type: Advice { phase: phase.spec_to_sealed().0 },
            }),
            final(self).num_advice_columns == old(self).num_advice_columns + 1,
            final(self).num_advice_queries@ == old(self).num_advice_queries@.push(0),
            final(self).advice_column_phase@ == old(self).advice_column_phase@.push(
                phase.spec_to_sealed(),
            ),
            final(self).unblinded_advice_columns@ == old(self).unblinded_advice_columns@.push(
                old(self).num_advice_columns,
            ),
            *final(self) == (ConstraintSystem {
                num_advice_columns: final(self).num_advice_columns,
                num_advice_queries: final(self).num_advice_queries,
                advice_column_phase: final(self).advice_column_phase,
                unblinded_advice_columns: final(self).unblinded_advice_columns,
                ..*old(self)
            }),
            old(self).spec_wf() ==> final(self).spec_wf(),
            final(self).spec_phase_exists(phase.spec_to_sealed()),
    {
        let phase = phase.to_sealed();
        let tmp = Column { index: self.num_advice_columns, column_type: Advice { phase: phase.0 } };
        self.unblinded_advice_columns.push(tmp.index);
        self.num_advice_columns += 1;
        self.num_advice_queries.push(0);
        self.advice_column_phase.push(phase);
        proof {
            let n = old(self).num_advice_columns as int;
            assert(self.advice_column_phase@[old(self).advice_column_phase@.len() as int] == phase);
            if old(self).spec_wf() {
                lemma_count_queries_zero(self.advice_queries@, n);
            }
        }
        tmp
    }

    /// Allocate a new advice column at the first phase.
    pub fn advice_column(&mut self) -> (r: Column<Advice>)
        requires
            old(self).num_advice_columns < usize::MAX,
        ensures
            r == (Column { index: old(self).num_advice_columns, column_type: Advice { phase: 0 } }),
            final(self).num_advice_columns == old(self).num_advice_columns + 1,
            final(self).num_advice_queries@ == old(self).num_advice_queries@.push(0),
            final(self).advice_column_phase@ == old(self).advice_column_phase@.push(
                sealed::Phase(0),
            ),
            *final(self) == (ConstraintSystem {
                num_advice_columns: final(self).num_advice_columns,
                num_advice_queries: final(self).num_advice_queries,
                advice_column_phase: final(self).advice_column_phase,
                ..*old(self)
            }),
            old(self).spec_wf() ==> final(self).spec_wf(),
            final(self).spec_phase_exists(sealed::Phase(0)),
    {
        self.advice_column_in(super::column::FirstPhase)
    }

    /// Allocate a new unblinded advice column at the first phase.
    pub fn unblinded_advice_column(&mut self) -> (r: Column<Advice>)
        requires
            old(self).num_advice_columns < usize::MAX,
        ensures
            r == (Column { index: old(self).num_advice_columns, column_type: Advice { phase: 0 } }),
            final(self).num_advice_columns == old(self).num_advice_columns + 1,
            final(self).num_advice_queries@ == old(self).num_advice_queries@.push(0),
            final(self).advice_column_phase@ == old(self).advice_column_phase@.push(
                sealed::Phase(0),
            ),
            final(self).unblinded_advice_columns@ == old(self).unblinded_advice_columns@.push(
                old(self).num_advice_columns,
            ),
            *final(self) == (ConstraintSystem {
                num_advice_columns: final(self).num_advice_columns,
                num_advice_queries: final(self).num_advice_queries,
                advice_column_phase: final(self).advice_column_phase,
                unblinded_advice_columns: final(self).unblinded_advice_columns,
                ..*old(self)
            }),
            old(self).spec_wf() ==> final(self).spec_wf(),
            final(self).spec_phase_exists(sealed::Phase(0)),
    {
        self.unblinded_advice_column_in(super::column::FirstPhase)
    }

    /// Requests a challenge that is usable after the given phase.
    ///
    /// The given phase must have an advice column allocated.
    pub fn challenge_usable_after<P: Phase>(&mut self, phase: P) -> (r: Challenge)
        requires
            old(self).num_challenges < usize::MAX,
            old(self).spec_phase_exists(phase.spec_to_sealed()),
        ensures
            r == (Challenge { index: old(self).num_challenges, phase: phase.spec_to_sealed().0 }),
            final(self).num_challenges == old(self).num_challenges + 1,
            final(self).challenge_phase@ == old(self).challenge_phase@.push(phase.spec_to_sealed()),
            *final(self) == (ConstraintSystem {
                num_challenges: final(self).num_challenges,
                challenge_phase: final(self).challenge_phase,
                ..*old(self)
            }),
            old(self).spec_wf() ==> final(self).spec_wf(),
    {
        let phase = phase.to_sealed();
        let tmp = Challenge { index: self.num_challenges, phase: phase.0 };
        self.num_challenges += 1;
        self.challenge_phase.push(phase);
        tmp
    }
}

impl<F> Default for ConstraintSystem<F> {
    /// The empty constraint system.
    fn default() -> (r: ConstraintSystem<F>)
        ensures
            r.num_fixed_columns == 0,
            r.num_advice_columns == 0,
            r.num_instance_columns == 0,
            r.num_selectors == 0,
            r.num_challenges == 0,
            r.unblinded_advice_columns@.len() == 0,
            r.advice_column_phase@.len() == 0,
            r.challenge_phase@.len() == 0,
            r.selector_map@.len() == 0,
            r.gates@.len() == 0,
            r.fixed_queries@.len() == 0,
            r.advice_queries@.len() == 0,
            r.num_advice_queries@.len() == 0,
            r.instance_queries@.len() == 0,
            r.permutation.columns@.len() == 0,
            r.lookups@.len() == 0,
            r.shuffles@.len() == 0,
            r.general_column_annotations@.len() == 0,
            r.constants@.len() == 0,
            r.minimum_degree.is_none(),
            r.spec_wf(),
    {
        ConstraintSystem {
            num_fixed_columns: 0,
            num_advice_columns: 0,
            num_instance_columns: 0,
            num_selectors: 0,
            num_challenges: 0,
            unblinded_advice_columns: Vec::new(),
            advice_column_phase: Vec::new(),
            challenge_phase: Vec::new(),
            selector_map: Vec::new(),
            gates: Vec::new(),
            fixed_queries: Vec::new(),
            advice_queries: Vec::new(),
            num_advice_queries: Vec::new(),
            instance_queries: Vec::new(),
            permutation: permutation::Argument::new(),
            lookups: Vec::new(),
            shuffles: Vec::new(),
            general_column_annotations: Vec::new(),
            constants: Vec::new(),
            minimum_degree: None,
        }
    }
}

} // verus!

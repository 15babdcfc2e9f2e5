//! The parameters that determine a constraint system.

use super::column::Column;
use super::gate::Gate;
use super::sealed;
use super::system::ConstraintSystem;
use crate::middleware::{Advice, Fixed, Instance, Rotation};
use crate::plonk::{lookup, permutation, shuffle};
use vstd::prelude::*;

verus! {

/// The gates of a constraint system, for listing their polynomials.
#[derive(Debug)]
pub struct PinnedGates<'a, F>(pub &'a Vec<Gate<F>>);

/// Represents the minimal parameters that determine a `ConstraintSystem`.
#[derive(Debug)]
pub struct PinnedConstraintSystem<'a, F> {
    pub num_fixed_columns: &'a usize,
    pub num_advice_columns: &'a usize,
    pub num_instance_columns: &'a usize,
    pub num_selectors: &'a usize,
    pub num_challenges: &'a usize,
    pub advice_column_phase: &'a Vec<sealed::Phase>,
    pub challenge_phase: &'a Vec<sealed::Phase>,
    pub gates: PinnedGates<'a, F>,
    pub advice_queries: &'a Vec<(Column<Advice>, Rotation)>,
    pub instance_queries: &'a Vec<(Column<Instance>, Rotation)>,
    pub fixed_queries: &'a Vec<(Column<Fixed>, Rotation)>,
    pub permutation: &'a permutation::Argument,
    pub lookups: &'a Vec<lookup::Argument<F>>,
    pub shuffles: &'a Vec<shuffle::Argument<F>>,
    pub constants: &'a Vec<Column<Fixed>>,
    pub minimum_degree: &'a Option<usize>,
}

impl<F> ConstraintSystem<F> {
    /// Obtain a pinned version of this constraint system; a structure with
    /// the minimal parameters needed to determine the rest of the
    /// constraint system.
    pub fn pinned(&self) -> (r: PinnedConstraintSystem<'_, F>)
        ensures
            *r.num_fixed_columns == self.num_fixed_columns,
            *r.num_advice_columns == self.num_advice_columns,
            *r.num_instance_columns == self.num_instance_columns,
            *r.num_selectors == self.num_selectors,
            *r.num_challenges == self.num_challenges,
            *r.advice_column_phase == self.advice_column_phase,
            *r.challenge_phase == self.challenge_phase,
            *r.gates.0 == self.gates,
            *r.advice_queries == self.advice_queries,
            *r.instance_queries == self.instance_queries,
            *r.fixed_queries == self.fixed_queries,
            *r.permutation == self.permutation,
            *r.lookups == self.lookups,
            *r.shuffles == self.shuffles,
            *r.constants == self.constants,
            *r.minimum_degree == self.minimum_degree,
    {
        PinnedConstraintSystem {
            num_fixed_columns: &self.num_fixed_columns,
            num_advice_columns: &self.num_advice_columns,
            num_instance_columns: &self.num_instance_columns,
            num_selectors: &self.num_selectors,
            num_challenges: &self.num_challenges,
            advice_column_phase: &self.advice_column_phase,
            challenge_phase: &self.challenge_phase,
            gates: PinnedGates(&self.gates),
            fixed_queries: &self.fixed_queries,
            advice_queries: &self.advice_queries,
            instance_queries: &self.instance_queries,
            permutation: &self.permutation,
            lookups: &self.lookups,
            shuffles: &self.shuffles,
            constants: &self.constants,
            minimum_degree: &self.minimum_degree,
        }
    }
}

} // verus!

//! What a circuit and a floor planner are.

use super::column::Column;
use super::system::ConstraintSystem;
use crate::circuit::floor_planner::v1::layouter::{spec_begins, V1Pass};
use crate::middleware::Fixed;
use crate::plonk::{Assignment, Error};
use vstd::prelude::*;

verus! {

/// A floor planning strategy for a circuit.
///
/// The floor planner is chip-agnostic and applies its strategy to the
/// circuit it is used within.
pub trait FloorPlanner {
    /// Given the provided `cs`, synthesize the given circuit.
    ///
    /// `constants` is the list of fixed columns that the layouter may use
    /// to assign global constant values. These columns will all have been
    /// equality-enabled.
    ///
    /// The sink is handed back with the calls that were made on it,
    /// whether the synthesis succeeds or not.
    fn synthesize<F: Copy, CS: Assignment<F>, C: Circuit<F>>(
        cs: CS,
        circuit: &C,
        config: C::Config,
        constants: Vec<Column<Fixed>>,
    ) -> (r: (CS, Result<(), Error>))
        ensures
            spec_begins(cs.calls(), r.0.calls()),
    ;
}

/// This is a trait that circuits provide implementations for so that the
/// backend prover can ask the circuit to synthesize using some given
/// [`ConstraintSystem`] implementation.
pub trait Circuit<F: Copy>: Sized {
    /// This is a configuration object that stores things like columns.
    type Config: Clone;

    /// Returns a copy of this circuit with no witness values.
    fn without_witnesses(&self) -> Self;

    /// The circuit is given an opportunity to describe the exact gate
    /// arrangement, column arrangement, etc. It is handed a constraint
    /// system whose tables are in order, and leaves them in order.
    fn configure(meta: &mut ConstraintSystem<F>) -> (config: Self::Config)
        requires
            old(meta).spec_wf(),
        ensures
            final(meta).spec_wf(),
    ;

    /// Given the provided layouter, synthesize the circuit. The circuit is
    /// synthesized once to be measured and once to be assigned, and must
    /// write the same regions both times. It leaves the layouter in order,
    /// and takes nothing back that is written.
    fn synthesize<CS: Assignment<F>>(&self, config: Self::Config, layouter: &mut V1Pass<F, CS>) -> (r:
        Result<(), Error>)
        requires
            old(layouter).spec_wf(),
        ensures
            final(layouter).spec_wf(),
            old(layouter).spec_continued(final(layouter)),
    ;
}

} // verus!

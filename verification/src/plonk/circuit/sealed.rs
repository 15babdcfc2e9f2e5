//! The phase of an advice column, kept apart so that only the marker types
//! of this crate can name a phase.

use vstd::prelude::*;

verus! {

/// Phase of an advice column or of a challenge.
#[derive(Clone, Copy, Debug, PartialEq, Eq, Structural, Hash)]
pub struct Phase(pub u8);

impl Phase {
    /// The phase before this one, if there is one.
    pub fn prev(&self) -> (r: Option<Phase>)
        ensures
            self.0 == 0 ==> r.is_none(),
            self.0 > 0 ==> r == Some(Phase((self.0 - 1) as u8)),
    {
        if self.0 == 0 {
            None
        } else {
            Some(Phase(self.0 - 1))
        }
    }
}

/// A value that stands for a phase.
pub trait SealedPhase: Sized {
    /// The phase that the value stands for.
    spec fn spec_to_sealed(self) -> Phase;

    /// The phase that the value stands for.
    fn to_sealed(self) -> (r: Phase)
        ensures
            r == self.spec_to_sealed(),
    ;
}

impl SealedPhase for Phase {
    open spec fn spec_to_sealed(self) -> Phase {
        self
    }

    fn to_sealed(self) -> (r: Phase) {
        self
    }
}

} // verus!

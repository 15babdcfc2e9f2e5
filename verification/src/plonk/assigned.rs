//! Values as they are assigned to cells.

use vstd::prelude::*;

verus! {

/// A value assigned to a cell within a circuit.
///
/// A fraction is kept as numerator and denominator, so that inversions can
/// be put off until many of them can be done at once.
#[derive(Clone, Copy, Debug, PartialEq, Eq)]
pub enum Assigned<F> {
    /// The field element zero.
    Zero,
    /// A value that does not require inversion to evaluate.
    Trivial(F),
    /// A value stored as a fraction to enable batch inversion.
    Rational(F, F),
}

} // verus!

//! Gates and the constraints they are made of.

use super::column::{Column, Selector};
use super::expression::Expression;
use crate::middleware::{Advice, Any, ColumnType, Fixed, Instance, Rotation};
use vstd::prelude::*;
use vstd::std_specs::convert::FromSpecImpl;
use vstd::string::StringExecFns;

verus! {

/// A "virtual cell" is a PLONK cell that has been queried at a particular
/// relative offset within a custom gate.
#[derive(Clone, Copy, Debug, PartialEq, Eq)]
pub struct VirtualCell {
    pub column: Column<Any>,
    pub rotation: Rotation,
}

impl From<(Column<Any>, Rotation)> for VirtualCell {
    fn from(pair: (Column<Any>, Rotation)) -> (r: Self) {
        VirtualCell { column: pair.0, rotation: pair.1 }
    }
}

impl FromSpecImpl<(Column<Any>, Rotation)> for VirtualCell {
    open spec fn obeys_from_spec() -> bool {
        true
    }

    open spec fn from_spec(pair: (Column<Any>, Rotation)) -> Self {
        VirtualCell { column: pair.0, rotation: pair.1 }
    }
}

impl From<(Column<Advice>, Rotation)> for VirtualCell {
    fn from(pair: (Column<Advice>, Rotation)) -> (r: Self) {
        VirtualCell {
            column: Column { index: pair.0.index, column_type: Any::Advice(pair.0.column_type) },
            rotation: pair.1,
        }
    }
}

impl FromSpecImpl<(Column<Advice>, Rotation)> for VirtualCell {
    open spec fn obeys_from_spec() -> bool {
        true
    }

    open spec fn from_spec(pair: (Column<Advice>, Rotation)) -> Self {
        VirtualCell { column: pair.0.spec_any(), rotation: pair.1 }
    }
}

impl From<(Column<Fixed>, Rotation)> for VirtualCell {
    fn from(pair: (Column<Fixed>, Rotation)) -> (r: Self) {
        VirtualCell {
            column: Column { index: pair.0.index, column_type: Any::Fixed },
            rotation: pair.1,
        }
    }
}

impl FromSpecImpl<(Column<Fixed>, Rotation)> for VirtualCell {
    open spec fn obeys_from_spec() -> bool {
        true
    }

    open spec fn from_spec(pair: (Column<Fixed>, Rotation)) -> Self {
        VirtualCell { column: pair.0.spec_any(), rotation: pair.1 }
    }
}

impl From<(Column<Instance>, Rotation)> for VirtualCell {
    fn from(pair: (Column<Instance>, Rotation)) -> (r: Self) {
        VirtualCell {
            column: Column { index: pair.0.index, column_type: Any::Instance },
            rotation: pair.1,
        }
    }
}

impl FromSpecImpl<(Column<Instance>, Rotation)> for VirtualCell {
    open spec fn obeys_from_spec() -> bool {
        true
    }

    open spec fn from_spec(pair: (Column<Instance>, Rotation)) -> Self {
        VirtualCell { column: pair.0.spec_any(), rotation: pair.1 }
    }
}

/// An individual polynomial constraint.
///
/// These are returned by the closures passed to
/// `ConstraintSystem::create_gate`.
#[derive(Debug)]
pub struct Constraint<F> {
    pub name: String,
    pub poly: Expression<F>,
}

impl<F> From<Expression<F>> for Constraint<F> {
    /// The constraint `poly` with an empty name.
    fn from(poly: Expression<F>) -> (r: Self)
        ensures
            r.name@ == Seq::<char>::empty(),
            r.poly == poly,
    {
        Constraint { name: String::new(), poly }
    }
}

impl<F> FromSpecImpl<Expression<F>> for Constraint<F> {
    open spec fn obeys_from_spec() -> bool {
        false
    }

    open spec fn from_spec(poly: Expression<F>) -> Self {
        arbitrary()
    }
}

impl<'a, F> From<(&'a str, Expression<F>)> for Constraint<F> {
    /// The constraint `poly` under the name `name`.
    fn from(pair: (&'a str, Expression<F>)) -> (r: Self)
        ensures
            r.name@ == pair.0@,
            r.poly == pair.1,
    {
        let (name, poly) = pair;
        Constraint { name: String::from_str(name), poly }
    }
}

impl<'a, F> FromSpecImpl<(&'a str, Expression<F>)> for Constraint<F> {
    open spec fn obeys_from_spec() -> bool {
        false
    }

    open spec fn from_spec(pair: (&'a str, Expression<F>)) -> Self {
        arbitrary()
    }
}

impl<F> From<Expression<F>> for Vec<Constraint<F>> {
    /// The single constraint `poly` with an empty name.
    fn from(poly: Expression<F>) -> (r: Self)
        ensures
            r@.len() == 1,
            r@[0].name@ == Seq::<char>::empty(),
            r@[0].poly == poly,
    {
        let mut out: Vec<Constraint<F>> = Vec::new();
        out.push(Constraint { name: String::new(), poly });
        out
    }
}

impl<F> FromSpecImpl<Expression<F>> for Vec<Constraint<F>> {
    open spec fn obeys_from_spec() -> bool {
        false
    }

    open spec fn from_spec(poly: Expression<F>) -> Self {
        arbitrary()
    }
}

/// A set of polynomial constraints with a common selector.
#[derive(Debug)]
pub struct Constraints<F> {
    pub selector: Expression<F>,
    pub constraints: Vec<Constraint<F>>,
}

/// The constraint `c` with its polynomial multiplied by `selector`.
pub fn apply_selector_to_constraint<F>(selector: Expression<F>, c: Constraint<F>) -> (r: Constraint<
    F,
>)
    requires
        !(selector.spec_contains_simple_selector() && c.poly.spec_contains_simple_selector()),
    ensures
        r.name == c.name,
        r.poly == Expression::Product(Box::new(selector), Box::new(c.poly)),
{
    Constraint { name: c.name, poly: selector * c.poly }
}

impl<F> Constraints<F> {
    /// Constructs a set of constraints that are controlled by the given
    /// selector.
    ///
    /// Each constraint `c` in `constraints` will be converted into the
    /// constraint `selector * c`.
    pub fn with_selector(selector: Expression<F>, constraints: Vec<Constraint<F>>) -> (r: Self)
        ensures
            r.selector == selector,
            r.constraints == constraints,
    {
        Constraints { selector, constraints }
    }

    /// Whether the selector can be multiplied onto every constraint: where
    /// the selector holds a simple selector, no constraint holds one.
    pub open spec fn spec_applicable(&self) -> bool {
        self.selector.spec_contains_simple_selector() ==> forall|i: int|
            0 <= i < self.constraints@.len() ==> !(
            #[trigger] self.constraints@[i]).poly.spec_contains_simple_selector()
    }

    /// The constraints, each with its polynomial multiplied by the selector.
    pub fn into_vec(self) -> (r: Vec<Constraint<F>>) where F: Copy
        requires
            self.spec_applicable(),
        ensures
            r@.len() == self.constraints@.len(),
            forall|i: int|
                0 <= i < r@.len() ==> (#[trigger] r@[i]).name == self.constraints@[i].name
                    && r@[i].poly == Expression::Product(
                    Box::new(self.selector),
                    Box::new(self.constraints@[i].poly),
                ),
    {
        let ghost all = self.constraints@;
        let selector = self.selector;
        let mut out: Vec<Constraint<F>> = Vec::new();
        for c in it: self.constraints
            invariant
                it.seq() == all,
                selector.spec_contains_simple_selector() ==> forall|i: int|
                    0 <= i < all.len() ==> !(#[trigger] all[i]).poly.spec_contains_simple_selector(),
                out@.len() == it.index(),
                forall|i: int|
                    0 <= i < out@.len() ==> (#[trigger] out@[i]).name == all[i].name && out@[i].poly
                        == Expression::Product(Box::new(selector), Box::new(all[i].poly)),
        {
            assert(c == all[it.index() as int]);
            let applied = apply_selector_to_constraint(selector.duplicate(), c);
            out.push(applied);
        }
        out
    }
}

/// A gate: a named list of polynomial constraints, with the selectors and
/// cells that were queried while it was built.
#[derive(Debug)]
pub struct Gate<F> {
    pub name: String,
    pub constraint_names: Vec<String>,
    pub polys: Vec<Expression<F>>,
    /// Queried selectors are tracked apart from the other cells, so that
    /// they can be used to trigger debug checks on gates.
    pub queried_selectors: Vec<Selector>,
    pub queried_cells: Vec<VirtualCell>,
}

impl<F> Gate<F> {
    /// Returns the name of this gate.
    pub fn name(&self) -> (r: &str)
        ensures
            r@ == self.name@,
    {
        self.name.as_str()
    }

    /// Returns the name of the constraint at index `constraint_index`.
    pub fn constraint_name(&self, constraint_index: usize) -> (r: &str)
        requires
            constraint_index < self.constraint_names@.len(),
        ensures
            r@ == self.constraint_names@[constraint_index as int]@,
    {
        self.constraint_names[constraint_index].as_str()
    }

    /// Returns constraints of this gate.
    pub fn polynomials(&self) -> (r: &[Expression<F>])
        ensures
            r@ == self.polys@,
    {
        self.polys.as_slice()
    }

    /// Returns the selectors that were queried for this gate.
    pub fn queried_selectors(&self) -> (r: &[Selector])
        ensures
            r@ == self.queried_selectors@,
    {
        self.queried_selectors.as_slice()
    }

    /// Returns the cells that were queried for this gate.
    pub fn queried_cells(&self) -> (r: &[VirtualCell])
        ensures
            r@ == self.queried_cells@,
    {
        self.queried_cells.as_slice()
    }
}

} // verus!

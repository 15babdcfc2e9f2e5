//! The shuffle argument.

use super::circuit::expression::spec_max;
use super::circuit::Expression;
use super::lookup::{max_degree, spec_firsts, spec_max_degree, spec_seconds, unzip};
use vstd::prelude::*;
use vstd::string::StringExecFns;

verus! {

/// A shuffle argument: the tuples of input expressions over all rows must
/// be a permutation of the tuples of shuffle expressions.
#[derive(Debug)]
pub struct Argument<F> {
    pub name: String,
    pub input_expressions: Vec<Expression<F>>,
    pub shuffle_expressions: Vec<Expression<F>>,
}

impl<F> Argument<F> {
    /// Constructs a new shuffle argument.
    ///
    /// `shuffle` is a sequence of `(input, shuffle)` tuples.
    pub fn new(name: &str, shuffle: Vec<(Expression<F>, Expression<F>)>) -> (r: Self)
        ensures
            r.name@ == name@,
            r.input_expressions@ == spec_firsts(shuffle@),
            r.shuffle_expressions@ == spec_seconds(shuffle@),
    {
        let (input_expressions, shuffle_expressions) = unzip(shuffle);
        Argument { name: String::from_str(name), input_expressions, shuffle_expressions }
    }

    /// The degree that the shuffle argument requires of the circuit: two
    /// more than the largest degree among its expressions, taken as at
    /// least 1.
    pub open spec fn spec_required_degree(&self) -> nat {
        spec_max(
            2 + spec_max_degree(self.shuffle_expressions@),
            2 + spec_max_degree(self.input_expressions@),
        )
    }

    /// Returns the minimum circuit degree required by the shuffle argument.
    pub fn required_degree(&self) -> (r: usize)
        requires
            self.input_expressions@.len() == self.shuffle_expressions@.len(),
            self.spec_required_degree() <= usize::MAX,
        ensures
            r == self.spec_required_degree(),
    {
        let input_degree = max_degree(&self.input_expressions);
        let shuffle_degree = max_degree(&self.shuffle_expressions);
        let a = 2 + shuffle_degree;
        let b = 2 + input_degree;
        if a >= b {
            a
        } else {
            b
        }
    }

    /// Returns input of this argument.
    pub fn input_expressions(&self) -> (r: &Vec<Expression<F>>)
        ensures
            r@ == self.input_expressions@,
    {
        &self.input_expressions
    }

    /// Returns table of this argument.
    pub fn shuffle_expressions(&self) -> (r: &Vec<Expression<F>>)
        ensures
            r@ == self.shuffle_expressions@,
    {
        &self.shuffle_expressions
    }

    /// Returns name of this argument.
    pub fn name(&self) -> (r: &str)
        ensures
            r@ == self.name@,
    {
        self.name.as_str()
    }
}

} // verus!

//! The sink that a circuit's witness is assigned to.

use super::assigned::Assigned;
use super::circuit::{Challenge, Column, Selector};
use super::error::Error;
use crate::circuit::Value;
use crate::middleware::{Advice, Any, Fixed, Instance};
use vstd::prelude::*;

verus! {

/// A call that was made on an assignment sink.
pub enum SinkCall<F> {
    /// A region with the given name was entered.
    EnterRegion(Seq<char>),
    /// The current region was left.
    ExitRegion,
    /// A column was annotated.
    AnnotateColumn(Seq<char>, Column<Any>),
    /// A selector was enabled at a row.
    EnableSelector(Seq<char>, Selector, usize),
    /// A value was assigned to an advice cell.
    AssignAdvice(Seq<char>, Column<Advice>, usize, Value<Assigned<F>>),
    /// A value was assigned to a fixed cell.
    AssignFixed(Seq<char>, Column<Fixed>, usize, Value<Assigned<F>>),
    /// Two cells were constrained to be equal.
    Copy(Column<Any>, usize, Column<Any>, usize),
    /// A fixed column was filled from a row on.
    FillFromRow(Column<Fixed>, usize, Value<Assigned<F>>),
    /// A namespace was entered.
    PushNamespace(Seq<char>),
    /// A namespace was left.
    PopNamespace(Option<Seq<char>>),
}

/// The answer of a sink that `r` carries: that the call succeeded, or the
/// error.
pub open spec fn spec_answer<T>(r: Result<T, Error>) -> Result<(), Error> {
    match r {
        Ok(_) => Ok(()),
        Err(e) => Err(e),
    }
}

/// Whether `answers` are the answers to calls that were made one after the
/// other until one failed, and `r` is the answer of the whole: all answers
/// but the last are successes, and `r` is the last answer, or a success
/// if no call was made.
pub open spec fn spec_until_failure(answers: Seq<Result<(), Error>>, r: Result<(), Error>) -> bool {
    &&& forall|k: int| 0 <= k < answers.len() - 1 ==> (#[trigger] answers[k]) is Ok
    &&& if answers.len() == 0 {
        r is Ok
    } else {
        answers.last() == r
    }
}

/// An answer carries itself.
pub proof fn lemma_answer_itself(r: Result<(), Error>)
    ensures
        spec_answer(r) == r,
{
    match r {
        Ok(unit) => {
            assert(unit == ());
        },
        Err(e) => {},
    }
}

/// This trait allows a circuit to direct some backend to assign a witness
/// for a constraint system.
///
/// A sink keeps the calls that were made on it, in order, and what it
/// answered to each; every call is kept whether it succeeds or not, and
/// a call that cannot fail counts as answered with success. What the sink
/// gives for an instance cell or a challenge depends on nothing but the
/// sink and the question.
pub trait Assignment<F>: Sized {
    /// The calls that were made on the sink, in order.
    open spec fn calls(&self) -> Seq<SinkCall<F>> {
        arbitrary()
    }

    /// What the sink answered to the calls that were made on it, in
    /// order.
    open spec fn answers(&self) -> Seq<Result<(), Error>> {
        arbitrary()
    }

    /// Creates a new region and enters into it. Regions do not nest.
    fn enter_region(&mut self, name: &str)
        ensures
            final(self).calls() == old(self).calls().push(SinkCall::EnterRegion(name@)),
            final(self).answers() == old(self).answers().push(Ok(())),
    ;

    /// Allows the developer to include an annotation for a specific column
    /// within a region.
    fn annotate_column(&mut self, annotation: &str, column: Column<Any>)
        ensures
            final(self).calls() == old(self).calls().push(
                SinkCall::AnnotateColumn(annotation@, column),
            ),
            final(self).answers() == old(self).answers().push(Ok(())),
    ;

    /// Exits the current region.
    fn exit_region(&mut self)
        ensures
            final(self).calls() == old(self).calls().push(SinkCall::ExitRegion),
            final(self).answers() == old(self).answers().push(Ok(())),
    ;

    /// Enables a selector at the given row.
    fn enable_selector(&mut self, annotation: &str, selector: &Selector, row: usize) -> (r: Result<
        (),
        Error,
    >)
        ensures
            final(self).calls() == old(self).calls().push(
                SinkCall::EnableSelector(annotation@, *selector, row),
            ),
            final(self).answers() == old(self).answers().push(r),
    ;

    /// What the sink gives for the cell of an instance column at an
    /// absolute row.
    open spec fn spec_instance(&self, column: Column<Instance>, row: usize) -> Result<
        Value<F>,
        Error,
    > {
        arbitrary()
    }

    /// What the sink gives for a challenge.
    open spec fn spec_challenge(&self, challenge: Challenge) -> Value<F> {
        arbitrary()
    }

    /// Queries the cell of an instance column at a particular absolute row.
    ///
    /// Returns the cell's value, if known.
    fn query_instance(&self, column: Column<Instance>, row: usize) -> (r: Result<Value<F>, Error>)
        ensures
            r == self.spec_instance(column, row),
    ;

    /// Assign an advice column value (witness).
    fn assign_advice(
        &mut self,
        annotation: &str,
        column: Column<Advice>,
        row: usize,
        to: Value<Assigned<F>>,
    ) -> (r: Result<(), Error>)
        ensures
            final(self).calls() == old(self).calls().push(
                SinkCall::AssignAdvice(annotation@, column, row, to),
            ),
            final(self).answers() == old(self).answers().push(r),
    ;

    /// Assign a fixed value.
    fn assign_fixed(
        &mut self,
        annotation: &str,
        column: Column<Fixed>,
        row: usize,
        to: Value<Assigned<F>>,
    ) -> (r: Result<(), Error>)
        ensures
            final(self).calls() == old(self).calls().push(
                SinkCall::AssignFixed(annotation@, column, row, to),
            ),
            final(self).answers() == old(self).answers().push(r),
    ;

    /// Assign two cells to have the same value.
    fn copy(
        &mut self,
        left_column: Column<Any>,
        left_row: usize,
        right_column: Column<Any>,
        right_row: usize,
    ) -> (r: Result<(), Error>)
        ensures
            final(self).calls() == old(self).calls().push(
                SinkCall::Copy(left_column, left_row, right_column, right_row),
            ),
            final(self).answers() == old(self).answers().push(r),
    ;

    /// Fills a fixed `column` starting from the given `row` with value
    /// `to`.
    fn fill_from_row(&mut self, column: Column<Fixed>, row: usize, to: Value<Assigned<F>>) -> (r:
        Result<(), Error>)
        ensures
            final(self).calls() == old(self).calls().push(SinkCall::FillFromRow(column, row, to)),
            final(self).answers() == old(self).answers().push(r),
    ;

    /// Queries the value of the given challenge.
    ///
    /// Returns an unknown value if the current synthesis phase is before
    /// the challenge can be queried.
    fn get_challenge(&self, challenge: Challenge) -> (r: Value<F>)
        ensures
            r == self.spec_challenge(challenge),
    ;

    /// Creates a new (sub)namespace and enters into it.
    fn push_namespace(&mut self, name: &str)
        ensures
            final(self).calls() == old(self).calls().push(SinkCall::PushNamespace(name@)),
            final(self).answers() == old(self).answers().push(Ok(())),
    ;

    /// Exits out of the existing namespace.
    fn pop_namespace(&mut self, gadget_name: Option<String>)
        ensures
            final(self).calls() == old(self).calls().push(
                SinkCall::PopNamespace(
                    match gadget_name {
                        Some(name) => Some(name@),
                        None => None,
                    },
                ),
            ),
            final(self).answers() == old(self).answers().push(Ok(())),
    ;
}

} // verus!

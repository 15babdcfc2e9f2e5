//! The permutation argument: the columns over which cells can be
//! constrained to be equal.

use super::circuit::Column;
use crate::middleware::Any;
use vstd::prelude::*;

verus! {

/// The columns that take part in the permutation argument, each once, in
/// the order in which they were added.
#[derive(Debug)]
pub struct Argument {
    /// The columns involved in the argument.
    pub columns: Vec<Column<Any>>,
}

impl Argument {
    /// An argument over no columns.
    pub fn new() -> (r: Self)
        ensures
            r.columns@ == Seq::<Column<Any>>::empty(),
    {
        Argument { columns: Vec::new() }
    }

    /// The degree that the permutation argument requires of the circuit.
    pub open spec fn spec_required_degree(&self) -> nat {
        3
    }

    /// Returns the minimum circuit degree required by the permutation
    /// argument.
    pub fn required_degree(&self) -> (r: usize)
        ensures
            r == self.spec_required_degree(),
    {
        3
    }

    /// Whether `column` is one of the columns of the argument.
    pub fn contains(&self, column: &Column<Any>) -> (r: bool)
        ensures
            r == self.columns@.contains(*column),
    {
        let mut i: usize = 0;
        while i < self.columns.len()
            invariant
                i <= self.columns.len(),
                forall|j: int| 0 <= j < i ==> self.columns@[j] != *column,
            decreases self.columns.len() - i,
        {
            if self.columns[i].same(column) {
                return true;
            }
            i += 1;
        }
        false
    }

    /// Adds `column` to the argument, unless it is there already.
    pub fn add_column(&mut self, column: Column<Any>)
        ensures
            old(self).columns@.contains(column) ==> final(self).columns@ == old(self).columns@,
            !old(self).columns@.contains(column) ==> final(self).columns@ == old(
                self,
            ).columns@.push(column),
    {
        if !self.contains(&column) {
            self.columns.push(column);
        }
    }

    /// Returns the columns of the argument.
    pub fn get_columns(&self) -> (r: Vec<Column<Any>>)
        ensures
            r@ == self.columns@,
    {
        let mut out: Vec<Column<Any>> = Vec::new();
        let mut i: usize = 0;
        while i < self.columns.len()
            invariant
                i <= self.columns.len(),
                out@ == self.columns@.subrange(0, i as int),
            decreases self.columns.len() - i,
        {
            out.push(self.columns[i]);
            proof {
                assert(self.columns@.subrange(0, i as int).push(self.columns@[i as int])
                    =~= self.columns@.subrange(0, i + 1));
            }
            i += 1;
        }
        proof {
            assert(self.columns@.subrange(0, self.columns@.len() as int) =~= self.columns@);
        }
        out
    }
}

} // verus!

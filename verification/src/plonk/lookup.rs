//! The lookup argument.

use super::circuit::expression::spec_max;
use super::circuit::Expression;
use vstd::prelude::*;
use vstd::string::StringExecFns;

verus! {

/// A lookup argument: on every row, the tuple of input expressions must be
/// a row of the table of table expressions.
#[derive(Debug)]
pub struct Argument<F> {
    pub name: String,
    pub input_expressions: Vec<Expression<F>>,
    pub table_expressions: Vec<Expression<F>>,
}

/// The first components of a sequence of pairs.
pub open spec fn spec_firsts<F>(pairs: Seq<(Expression<F>, Expression<F>)>) -> Seq<Expression<F>> {
    Seq::new(pairs.len(), |i: int| pairs[i].0)
}

/// The second components of a sequence of pairs.
pub open spec fn spec_seconds<F>(pairs: Seq<(Expression<F>, Expression<F>)>) -> Seq<Expression<F>> {
    Seq::new(pairs.len(), |i: int| pairs[i].1)
}

/// The largest degree among `exprs`, and at least 1.
pub open spec fn spec_max_degree<F>(exprs: Seq<Expression<F>>) -> nat
    decreases exprs.len(),
{
    if exprs.len() == 0 {
        1
    } else {
        spec_max(spec_max_degree(exprs.drop_last()), exprs.last().spec_degree())
    }
}

/// Every expression of `exprs` has at most the largest degree among them.
pub proof fn lemma_max_degree_bounds<F>(exprs: Seq<Expression<F>>, i: int)
    requires
        0 <= i < exprs.len(),
    ensures
        exprs[i].spec_degree() <= spec_max_degree(exprs),
        1 <= spec_max_degree(exprs),
    decreases exprs.len(),
{
    if i < exprs.len() - 1 {
        lemma_max_degree_bounds(exprs.drop_last(), i);
    }
    if exprs.len() > 1 {
        lemma_max_degree_bounds(exprs.drop_last(), 0);
    } else {
        assert(spec_max_degree(exprs.drop_last()) == 1);
    }
}

/// Splits a vector of pairs into the vector of first components and the
/// vector of second components.
pub fn unzip<F>(pairs: Vec<(Expression<F>, Expression<F>)>) -> (r: (
    Vec<Expression<F>>,
    Vec<Expression<F>>,
))
    ensures
        r.0@ == spec_firsts(pairs@),
        r.1@ == spec_seconds(pairs@),
{
    let ghost all = pairs@;
    let mut firsts: Vec<Expression<F>> = Vec::new();
    let mut seconds: Vec<Expression<F>> = Vec::new();
    for pair in it: pairs
        invariant
            it.seq() == all,
            firsts@ == spec_firsts(all.subrange(0, it.index() as int)),
            seconds@ == spec_seconds(all.subrange(0, it.index() as int)),
    {
        let ghost k = it.index() as int;
        let (a, b) = pair;
        firsts.push(a);
        seconds.push(b);
        proof {
            assert(firsts@ =~= spec_firsts(all.subrange(0, k + 1)));
            assert(seconds@ =~= spec_seconds(all.subrange(0, k + 1)));
        }
    }
    proof {
        assert(all.subrange(0, all.len() as int) =~= all);
    }
    (firsts, seconds)
}

/// The largest degree among `exprs`, and at least 1.
pub fn max_degree<F>(exprs: &Vec<Expression<F>>) -> (r: usize)
    requires
        spec_max_degree(exprs@) <= usize::MAX,
    ensures
        r == spec_max_degree(exprs@),
{
    let mut degree: usize = 1;
    let mut i: usize = 0;
    while i < exprs.len()
        invariant
            i <= exprs.len(),
            degree == spec_max_degree(exprs@.subrange(0, i as int)),
            spec_max_degree(exprs@) <= usize::MAX,
        decreases exprs.len() - i,
    {
        proof {
            lemma_max_degree_bounds(exprs@, i as int);
            assert(exprs@.subrange(0, i + 1).drop_last() =~= exprs@.subrange(0, i as int));
        }
        let d = exprs[i].degree();
        if d > degree {
            degree = d;
        }
        i += 1;
    }
    proof {
        assert(exprs@.subrange(0, exprs@.len() as int) =~= exprs@);
    }
    degree
}

impl<F> Argument<F> {
    /// Constructs a new lookup argument.
    ///
    /// `table_map` is a sequence of `(input, table)` tuples.
    pub fn new(name: &str, table_map: Vec<(Expression<F>, Expression<F>)>) -> (r: Self)
        ensures
            r.name@ == name@,
            r.input_expressions@ == spec_firsts(table_map@),
            r.table_expressions@ == spec_seconds(table_map@),
    {
        let (input_expressions, table_expressions) = unzip(table_map);
        Argument { name: String::from_str(name), input_expressions, table_expressions }
    }

    /// The degree that the lookup argument requires of the circuit: two more
    /// than the largest input degree and the largest table degree together,
    /// each taken as at least 1.
    pub open spec fn spec_required_degree(&self) -> nat {
        spec_max(
            4,
            2 + spec_max_degree(self.input_expressions@) + spec_max_degree(self.table_expressions@),
        )
    }

    /// Returns the minimum circuit degree required by the lookup argument.
    pub fn required_degree(&self) -> (r: usize)
        requires
            self.input_expressions@.len() == self.table_expressions@.len(),
            self.spec_required_degree() <= usize::MAX,
        ensures
            r == self.spec_required_degree(),
    {
        let input_degree = max_degree(&self.input_expressions);
        let table_degree = max_degree(&self.table_expressions);
        let total = 2 + input_degree + table_degree;
        if total > 4 {
            total
        } else {
            4
        }
    }

    /// Returns input of this argument.
    pub fn input_expressions(&self) -> (r: &Vec<Expression<F>>)
        ensures
            r@ == self.input_expressions@,
    {
        &self.input_expressions
    }

    /// Returns table of this argument.
    pub fn table_expressions(&self) -> (r: &Vec<Expression<F>>)
        ensures
            r@ == self.table_expressions@,
    {
        &self.table_expressions
    }

    /// Returns name of this argument.
    pub fn name(&self) -> (r: &str)
        ensures
            r@ == self.name@,
    {
        self.name.as_str()
    }
}

} // verus!

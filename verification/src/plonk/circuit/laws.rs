//! Laws of the expression algebra.

use super::expression::{spec_max, Expression};
use super::sealed;
use super::system::ConstraintSystem;
use vstd::prelude::*;
use vstd::std_specs::ops::{AddSpec, MulSpec, NegSpec, SubSpec};

verus! {

/// The degree of a sum or a difference is the larger degree of its two
/// terms, the degree of a product is the sum of the degrees of its factors,
/// and negating or scaling leaves the degree unchanged.
pub proof fn lemma_degree_algebra<F>(a: Expression<F>, b: Expression<F>, k: F)
    ensures
        a.add_spec(b).spec_degree() == spec_max(a.spec_degree(), b.spec_degree()),
        a.sub_spec(b).spec_degree() == spec_max(a.spec_degree(), b.spec_degree()),
        <Expression<F> as MulSpec<Expression<F>>>::mul_spec(a, b).spec_degree() == a.spec_degree()
            + b.spec_degree(),
        a.neg_spec().spec_degree() == a.spec_degree(),
        <Expression<F> as MulSpec<F>>::mul_spec(a, k).spec_degree() == a.spec_degree(),
{
    reveal_with_fuel(Expression::spec_degree, 3);
}

/// Summing no expressions gives the constant zero, and multiplying none
/// gives the constant one.
pub proof fn lemma_sum_product_neutrals<F>(zero: F, one: F)
    ensures
        Expression::spec_sum(Seq::<Expression<F>>::empty(), zero) == Expression::Constant(zero),
        Expression::spec_product(Seq::<Expression<F>>::empty(), one) == Expression::Constant(one),
{
}

/// Sums and products over a sequence associate to the left: appending one
/// more expression adds it to, or multiplies it onto, what came before.
pub proof fn lemma_sum_product_left_associated<F>(
    exprs: Seq<Expression<F>>,
    last: Expression<F>,
    zero: F,
    one: F,
)
    requires
        exprs.len() > 0,
    ensures
        Expression::spec_sum(exprs.push(last), zero) == Expression::Sum(
            Box::new(Expression::spec_sum(exprs, zero)),
            Box::new(last),
        ),
        Expression::spec_product(exprs.push(last), one) == Expression::Product(
            Box::new(Expression::spec_product(exprs, one)),
            Box::new(last),
        ),
{
    let rest = exprs.subrange(1, exprs.len() as int);
    assert(exprs.push(last).subrange(1, exprs.len() as int + 1) =~= rest.push(last));
    lemma_sum_onto_push(exprs[0], rest, last);
    lemma_product_onto_push(exprs[0], rest, last);
}

/// Folding a sum over `rest` and one more expression adds that expression
/// to the fold over `rest`.
pub proof fn lemma_sum_onto_push<F>(acc: Expression<F>, rest: Seq<Expression<F>>, last: Expression<F>)
    ensures
        Expression::spec_sum_onto(acc, rest.push(last)) == Expression::Sum(
            Box::new(Expression::spec_sum_onto(acc, rest)),
            Box::new(last),
        ),
    decreases rest.len(),
{
    if rest.len() == 0 {
        assert(rest.push(last).subrange(1, 1) =~= Seq::<Expression<F>>::empty());
        reveal_with_fuel(Expression::spec_sum_onto, 2);
    } else {
        let tail = rest.subrange(1, rest.len() as int);
        assert(rest.push(last).subrange(1, rest.len() as int + 1) =~= tail.push(last));
        lemma_sum_onto_push(Expression::Sum(Box::new(acc), Box::new(rest[0])), tail, last);
    }
}

/// Folding a product over `rest` and one more expression multiplies that
/// expression onto the fold over `rest`.
pub proof fn lemma_product_onto_push<F>(
    acc: Expression<F>,
    rest: Seq<Expression<F>>,
    last: Expression<F>,
)
    ensures
        Expression::spec_product_onto(acc, rest.push(last)) == Expression::Product(
            Box::new(Expression::spec_product_onto(acc, rest)),
            Box::new(last),
        ),
    decreases rest.len(),
{
    if rest.len() == 0 {
        assert(rest.push(last).subrange(1, 1) =~= Seq::<Expression<F>>::empty());
        reveal_with_fuel(Expression::spec_product_onto, 2);
    } else {
        let tail = rest.subrange(1, rest.len() as int);
        assert(rest.push(last).subrange(1, rest.len() as int + 1) =~= tail.push(last));
        lemma_product_onto_push(Expression::Product(Box::new(acc), Box::new(rest[0])), tail, last);
    }
}

/// Phases follow each other: where an advice column is in a phase, an
/// advice column or a challenge can be allocated in that phase, and an
/// advice column in the next. Nothing can be allocated in a later phase
/// while the phase before it has no advice column, but for the first
/// phase.
pub proof fn lemma_phase_ordering<F>(cs: ConstraintSystem<F>, phase: sealed::Phase)
    ensures
        cs.spec_phase_allowed(sealed::Phase(0)),
        cs.spec_phase_exists(phase) && phase.0 < u8::MAX ==> cs.spec_phase_allowed(
            sealed::Phase((phase.0 + 1) as u8),
        ),
        phase.0 > 0 && !cs.spec_phase_exists(sealed::Phase((phase.0 - 1) as u8))
            ==> !cs.spec_phase_allowed(phase),
{
}

} // verus!

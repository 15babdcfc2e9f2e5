//! The polynomial expression tree.

use super::column::{AdviceQuery, Challenge, FixedQuery, InstanceQuery, Selector};
use vstd::prelude::*;
use vstd::std_specs::ops::{AddSpecImpl, MulSpecImpl, NegSpecImpl, SubSpecImpl};

verus! {

/// Low-degree expression representing an identity that must hold over the
/// committed columns.
#[derive(Debug, PartialEq, Eq)]
pub enum Expression<F> {
    /// A constant polynomial.
    Constant(F),
    /// A virtual selector.
    Selector(Selector),
    /// A fixed column queried at a relative position.
    Fixed(FixedQuery),
    /// An advice column queried at a relative position.
    Advice(AdviceQuery),
    /// An instance column queried at a relative position.
    Instance(InstanceQuery),
    /// A challenge.
    Challenge(Challenge),
    /// A negated polynomial.
    Negated(Box<Expression<F>>),
    /// The sum of two polynomials.
    Sum(Box<Expression<F>>, Box<Expression<F>>),
    /// The product of two polynomials.
    Product(Box<Expression<F>>, Box<Expression<F>>),
    /// A polynomial scaled by a constant.
    Scaled(Box<Expression<F>>, F),
}

/// The larger of two natural numbers.
pub open spec fn spec_max(a: nat, b: nat) -> nat {
    if a >= b {
        a
    } else {
        b
    }
}

impl<F> Expression<F> {
    /// Degree of the polynomial: constants and challenges have degree 0,
    /// queries and selectors degree 1; a sum has the larger degree of its
    /// terms, a product the sum of the degrees of its factors.
    pub open spec fn spec_degree(self) -> nat
        decreases self,
    {
        match self {
            Expression::Constant(_) => 0,
            Expression::Selector(_) => 1,
            Expression::Fixed(_) => 1,
            Expression::Advice(_) => 1,
            Expression::Instance(_) => 1,
            Expression::Challenge(_) => 0,
            Expression::Negated(a) => a.spec_degree(),
            Expression::Sum(a, b) => spec_max(a.spec_degree(), b.spec_degree()),
            Expression::Product(a, b) => a.spec_degree() + b.spec_degree(),
            Expression::Scaled(a, _) => a.spec_degree(),
        }
    }

    /// Approximate cost of evaluating the expression.
    pub open spec fn spec_complexity(self) -> nat
        decreases self,
    {
        match self {
            Expression::Constant(_) => 0,
            Expression::Selector(_) => 1,
            Expression::Fixed(_) => 1,
            Expression::Advice(_) => 1,
            Expression::Instance(_) => 1,
            Expression::Challenge(_) => 0,
            Expression::Negated(a) => a.spec_complexity() + 5,
            Expression::Sum(a, b) => a.spec_complexity() + b.spec_complexity() + 15,
            Expression::Product(a, b) => a.spec_complexity() + b.spec_complexity() + 30,
            Expression::Scaled(a, _) => a.spec_complexity() + 30,
        }
    }

    /// Whether the selector `s` occurs in the expression.
    pub open spec fn spec_has_selector(self, s: Selector) -> bool
        decreases self,
    {
        match self {
            Expression::Selector(t) => t == s,
            Expression::Negated(a) => a.spec_has_selector(s),
            Expression::Sum(a, b) => a.spec_has_selector(s) || b.spec_has_selector(s),
            Expression::Product(a, b) => a.spec_has_selector(s) || b.spec_has_selector(s),
            Expression::Scaled(a, _) => a.spec_has_selector(s),
            _ => false,
        }
    }

    /// Whether a simple selector occurs in the expression.
    pub open spec fn spec_contains_simple_selector(self) -> bool
        decreases self,
    {
        match self {
            Expression::Selector(s) => s.is_simple(),
            Expression::Negated(a) => a.spec_contains_simple_selector(),
            Expression::Sum(a, b) => a.spec_contains_simple_selector()
                || b.spec_contains_simple_selector(),
            Expression::Product(a, b) => a.spec_contains_simple_selector()
                || b.spec_contains_simple_selector(),
            Expression::Scaled(a, _) => a.spec_contains_simple_selector(),
            _ => false,
        }
    }

    /// Whether all simple selectors that occur in the expression are one and
    /// the same selector.
    pub open spec fn spec_at_most_one_simple_selector(self) -> bool {
        forall|s: Selector, t: Selector|
            s.is_simple() && t.is_simple() && #[trigger] self.spec_has_selector(s)
                && #[trigger] self.spec_has_selector(t) ==> s == t
    }

    /// The simple selector of an expression in which at most one occurs.
    pub open spec fn spec_extract_simple_selector(self) -> Option<Selector>
        decreases self,
    {
        match self {
            Expression::Selector(s) => if s.is_simple() {
                Some(s)
            } else {
                None
            },
            Expression::Negated(a) => a.spec_extract_simple_selector(),
            Expression::Sum(a, b) => match a.spec_extract_simple_selector() {
                Some(s) => Some(s),
                None => b.spec_extract_simple_selector(),
            },
            Expression::Product(a, b) => match a.spec_extract_simple_selector() {
                Some(s) => Some(s),
                None => b.spec_extract_simple_selector(),
            },
            Expression::Scaled(a, _) => a.spec_extract_simple_selector(),
            _ => None,
        }
    }

    /// A simple selector occurs in an expression exactly if the expression
    /// has one to extract, and the extracted selector is simple and occurs.
    pub proof fn lemma_extract_simple_selector(self)
        ensures
            self.spec_extract_simple_selector().is_some() <==> self.spec_contains_simple_selector(),
            self.spec_extract_simple_selector() matches Some(s) ==> s.is_simple()
                && self.spec_has_selector(s),
            forall|s: Selector|
                s.is_simple() && #[trigger] self.spec_has_selector(s)
                    ==> self.spec_contains_simple_selector(),
        decreases self,
    {
        match self {
            Expression::Negated(a) => {
                a.lemma_extract_simple_selector();
                assert forall|s: Selector|
                    s.is_simple() && #[trigger] self.spec_has_selector(s)
                    implies self.spec_contains_simple_selector() by {
                    assert(a.spec_has_selector(s));
                }
            },
            Expression::Sum(a, b) => {
                a.lemma_extract_simple_selector();
                b.lemma_extract_simple_selector();
                assert forall|s: Selector|
                    s.is_simple() && #[trigger] self.spec_has_selector(s)
                    implies self.spec_contains_simple_selector() by {
                    assert(a.spec_has_selector(s) || b.spec_has_selector(s));
                }
            },
            Expression::Product(a, b) => {
                a.lemma_extract_simple_selector();
                b.lemma_extract_simple_selector();
                assert forall|s: Selector|
                    s.is_simple() && #[trigger] self.spec_has_selector(s)
                    implies self.spec_contains_simple_selector() by {
                    assert(a.spec_has_selector(s) || b.spec_has_selector(s));
                }
            },
            Expression::Scaled(a, _) => {
                a.lemma_extract_simple_selector();
                assert forall|s: Selector|
                    s.is_simple() && #[trigger] self.spec_has_selector(s)
                    implies self.spec_contains_simple_selector() by {
                    assert(a.spec_has_selector(s));
                }
            },
            _ => {},
        }
    }

    /// A copy of the expression.
    pub fn duplicate(&self) -> (r: Self) where F: Copy
        ensures
            r == *self,
        decreases self,
    {
        match self {
            Expression::Constant(c) => Expression::Constant(*c),
            Expression::Selector(s) => Expression::Selector(*s),
            Expression::Fixed(q) => Expression::Fixed(*q),
            Expression::Advice(q) => Expression::Advice(*q),
            Expression::Instance(q) => Expression::Instance(*q),
            Expression::Challenge(c) => Expression::Challenge(*c),
            Expression::Negated(a) => Expression::Negated(Box::new(a.duplicate())),
            Expression::Sum(a, b) => Expression::Sum(
                Box::new(a.duplicate()),
                Box::new(b.duplicate()),
            ),
            Expression::Product(a, b) => Expression::Product(
                Box::new(a.duplicate()),
                Box::new(b.duplicate()),
            ),
            Expression::Scaled(a, f) => Expression::Scaled(Box::new(a.duplicate()), *f),
        }
    }

    /// Compute the degree of this polynomial.
    pub fn degree(&self) -> (r: usize)
        requires
            self.spec_degree() <= usize::MAX,
        ensures
            r == self.spec_degree(),
        decreases self,
    {
        match self {
            Expression::Constant(_) => 0,
            Expression::Selector(_) => 1,
            Expression::Fixed(_) => 1,
            Expression::Advice(_) => 1,
            Expression::Instance(_) => 1,
            Expression::Challenge(_) => 0,
            Expression::Negated(poly) => poly.degree(),
            Expression::Sum(a, b) => {
                let da = a.degree();
                let db = b.degree();
                if da >= db {
                    da
                } else {
                    db
                }
            },
            Expression::Product(a, b) => a.degree() + b.degree(),
            Expression::Scaled(poly, _) => poly.degree(),
        }
    }

    /// Approximate the computational complexity of this expression.
    pub fn complexity(&self) -> (r: usize)
        requires
            self.spec_complexity() <= usize::MAX,
        ensures
            r == self.spec_complexity(),
        decreases self,
    {
        match self {
            Expression::Constant(_) => 0,
            Expression::Selector(_) => 1,
            Expression::Fixed(_) => 1,
            Expression::Advice(_) => 1,
            Expression::Instance(_) => 1,
            Expression::Challenge(_) => 0,
            Expression::Negated(poly) => poly.complexity() + 5,
            Expression::Sum(a, b) => a.complexity() + b.complexity() + 15,
            Expression::Product(a, b) => a.complexity() + b.complexity() + 30,
            Expression::Scaled(poly, _) => poly.complexity() + 30,
        }
    }

    /// Returns whether or not this expression contains a simple `Selector`.
    pub fn contains_simple_selector(&self) -> (r: bool)
        ensures
            r == self.spec_contains_simple_selector(),
        decreases self,
    {
        match self {
            Expression::Selector(selector) => selector.is_simple(),
            Expression::Negated(a) => a.contains_simple_selector(),
            Expression::Sum(a, b) => {
                let x = a.contains_simple_selector();
                let y = b.contains_simple_selector();
                x || y
            },
            Expression::Product(a, b) => {
                let x = a.contains_simple_selector();
                let y = b.contains_simple_selector();
                x || y
            },
            Expression::Scaled(a, _) => a.contains_simple_selector(),
            _ => false,
        }
    }

    /// Extracts the simple selector of this expression, if one is present.
    /// The expression may hold one simple selector only, any number of times.
    pub fn extract_simple_selector(&self) -> (r: Option<Selector>)
        requires
            self.spec_at_most_one_simple_selector(),
        ensures
            r == self.spec_extract_simple_selector(),
            r.is_some() <==> self.spec_contains_simple_selector(),
            r matches Some(s) ==> s.is_simple() && self.spec_has_selector(s),
        decreases self,
    {
        proof {
            self.lemma_extract_simple_selector();
        }
        match self {
            Expression::Selector(selector) => {
                if selector.is_simple() {
                    Some(*selector)
                } else {
                    None
                }
            },
            Expression::Negated(a) => {
                assert(a.spec_at_most_one_simple_selector()) by {
                    assert forall|s: Selector, t: Selector|
                        s.is_simple() && t.is_simple() && #[trigger] a.spec_has_selector(s)
                            && #[trigger] a.spec_has_selector(t) implies s == t by {
                        assert(self.spec_has_selector(s) && self.spec_has_selector(t));
                    }
                }
                a.extract_simple_selector()
            },
            Expression::Sum(a, b) => {
                assert(a.spec_at_most_one_simple_selector()) by {
                    assert forall|s: Selector, t: Selector|
                        s.is_simple() && t.is_simple() && #[trigger] a.spec_has_selector(s)
                            && #[trigger] a.spec_has_selector(t) implies s == t by {
                        assert(self.spec_has_selector(s) && self.spec_has_selector(t));
                    }
                }
                assert(b.spec_at_most_one_simple_selector()) by {
                    assert forall|s: Selector, t: Selector|
                        s.is_simple() && t.is_simple() && #[trigger] b.spec_has_selector(s)
                            && #[trigger] b.spec_has_selector(t) implies s == t by {
                        assert(self.spec_has_selector(s) && self.spec_has_selector(t));
                    }
                }
                let x = a.extract_simple_selector();
                let y = b.extract_simple_selector();
                match x {
                    Some(s) => Some(s),
                    None => y,
                }
            },
            Expression::Product(a, b) => {
                assert(a.spec_at_most_one_simple_selector()) by {
                    assert forall|s: Selector, t: Selector|
                        s.is_simple() && t.is_simple() && #[trigger] a.spec_has_selector(s)
                            && #[trigger] a.spec_has_selector(t) implies s == t by {
                        assert(self.spec_has_selector(s) && self.spec_has_selector(t));
                    }
                }
                assert(b.spec_at_most_one_simple_selector()) by {
                    assert forall|s: Selector, t: Selector|
                        s.is_simple() && t.is_simple() && #[trigger] b.spec_has_selector(s)
                            && #[trigger] b.spec_has_selector(t) implies s == t by {
                        assert(self.spec_has_selector(s) && self.spec_has_selector(t));
                    }
                }
                let x = a.extract_simple_selector();
                let y = b.extract_simple_selector();
                match x {
                    Some(s) => Some(s),
                    None => y,
                }
            },
            Expression::Scaled(a, _) => {
                assert(a.spec_at_most_one_simple_selector()) by {
                    assert forall|s: Selector, t: Selector|
                        s.is_simple() && t.is_simple() && #[trigger] a.spec_has_selector(s)
                            && #[trigger] a.spec_has_selector(t) implies s == t by {
                        assert(self.spec_has_selector(s) && self.spec_has_selector(t));
                    }
                }
                a.extract_simple_selector()
            },
            _ => None,
        }
    }

    /// Square this expression.
    pub fn square(self) -> (r: Self) where F: Copy
        requires
            !self.spec_contains_simple_selector(),
        ensures
            r == Expression::Product(Box::new(self), Box::new(self)),
    {
        let copy = self.duplicate();
        Expression::Product(Box::new(copy), Box::new(self))
    }

    /// The left-to-right sum of `acc` and the expressions of `rest`.
    pub open spec fn spec_sum_onto(acc: Self, rest: Seq<Self>) -> Self
        decreases rest.len(),
    {
        if rest.len() == 0 {
            acc
        } else {
            Self::spec_sum_onto(
                Expression::Sum(Box::new(acc), Box::new(rest[0])),
                rest.subrange(1, rest.len() as int),
            )
        }
    }

    /// The left-to-right sum of `exprs`; the constant `zero` if there are none.
    pub open spec fn spec_sum(exprs: Seq<Self>, zero: F) -> Self {
        if exprs.len() == 0 {
            Expression::Constant(zero)
        } else {
            Self::spec_sum_onto(exprs[0], exprs.subrange(1, exprs.len() as int))
        }
    }

    /// The left-to-right product of `acc` and the expressions of `rest`.
    pub open spec fn spec_product_onto(acc: Self, rest: Seq<Self>) -> Self
        decreases rest.len(),
    {
        if rest.len() == 0 {
            acc
        } else {
            Self::spec_product_onto(
                Expression::Product(Box::new(acc), Box::new(rest[0])),
                rest.subrange(1, rest.len() as int),
            )
        }
    }

    /// The left-to-right product of `exprs`; the constant `one` if there are
    /// none.
    pub open spec fn spec_product(exprs: Seq<Self>, one: F) -> Self {
        if exprs.len() == 0 {
            Expression::Constant(one)
        } else {
            Self::spec_product_onto(exprs[0], exprs.subrange(1, exprs.len() as int))
        }
    }

    /// Whether `exprs` can be summed: a single expression is its own sum,
    /// and two or more can be added if none holds a simple selector.
    pub open spec fn spec_summable(exprs: Seq<Self>) -> bool {
        exprs.len() >= 2 ==> forall|i: int|
            0 <= i < exprs.len() ==> !(#[trigger] exprs[i]).spec_contains_simple_selector()
    }

    /// Whether `exprs` can be multiplied: at most one of them holds a simple
    /// selector.
    pub open spec fn spec_multipliable(exprs: Seq<Self>) -> bool {
        forall|i: int, j: int|
            0 <= i < j < exprs.len() ==> !((#[trigger] exprs[i]).spec_contains_simple_selector()
                && (#[trigger] exprs[j]).spec_contains_simple_selector())
    }
}

impl<F> Expression<F> {
    /// The sum of the expressions of `exprs`, added from left to right; the
    /// constant `zero` if there are none.
    pub fn sum(exprs: Vec<Expression<F>>, zero: F) -> (r: Self)
        requires
            Self::spec_summable(exprs@),
        ensures
            r == Self::spec_sum(exprs@, zero),
    {
        let ghost all = exprs@;
        let mut acc: Option<Expression<F>> = None;
        for e in it: exprs
            invariant
                it.seq() == all,
                Self::spec_summable(all),
                it.index() == 0 <==> acc.is_none(),
                acc matches Some(a) ==> Self::spec_sum(all, zero) == Self::spec_sum_onto(
                    a,
                    all.subrange(it.index() as int, all.len() as int),
                ),
                acc matches Some(a) ==> all.len() >= 2 ==> !a.spec_contains_simple_selector(),
        {
            let ghost k = it.index() as int;
            assert(e == all[k]);
            proof {
                let rest = all.subrange(k, all.len() as int);
                assert(rest.subrange(1, rest.len() as int) =~= all.subrange(
                    k + 1,
                    all.len() as int,
                ));
                assert(rest[0] == all[k]);
            }
            acc = match acc {
                None => Some(e),
                Some(a) => Some(a + e),
            };
        }
        proof {
            assert(all.subrange(all.len() as int, all.len() as int) =~= Seq::<Self>::empty());
        }
        match acc {
            Some(a) => a,
            None => Expression::Constant(zero),
        }
    }

    /// The product of the expressions of `exprs`, multiplied from left to
    /// right; the constant `one` if there are none.
    pub fn product(exprs: Vec<Expression<F>>, one: F) -> (r: Self)
        requires
            Self::spec_multipliable(exprs@),
        ensures
            r == Self::spec_product(exprs@, one),
    {
        let ghost all = exprs@;
        let mut acc: Option<Expression<F>> = None;
        for e in it: exprs
            invariant
                it.seq() == all,
                Self::spec_multipliable(all),
                it.index() == 0 <==> acc.is_none(),
                acc matches Some(a) ==> Self::spec_product(all, one) == Self::spec_product_onto(
                    a,
                    all.subrange(it.index() as int, all.len() as int),
                ),
                acc matches Some(a) ==> (a.spec_contains_simple_selector() <==> exists|i: int|
                    0 <= i < it.index() && (#[trigger] all[i]).spec_contains_simple_selector()),
        {
            let ghost k = it.index() as int;
            assert(e == all[k]);
            proof {
                let rest = all.subrange(k, all.len() as int);
                assert(rest.subrange(1, rest.len() as int) =~= all.subrange(
                    k + 1,
                    all.len() as int,
                ));
                assert(rest[0] == all[k]);
            }
            acc = match acc {
                None => {
                    proof {
                        if e.spec_contains_simple_selector() {
                            assert(all[0].spec_contains_simple_selector());
                        }
                    }
                    Some(e)
                },
                Some(a) => {
                    proof {
                        if a.spec_contains_simple_selector() && e.spec_contains_simple_selector() {
                            let i = choose|i: int|
                                0 <= i < k && (#[trigger] all[i]).spec_contains_simple_selector();
                            assert(all[i].spec_contains_simple_selector()
                                && all[k].spec_contains_simple_selector());
                        }
                        if e.spec_contains_simple_selector() {
                            assert(all[k].spec_contains_simple_selector());
                        }
                    }
                    Some(a * e)
                },
            };
        }
        proof {
            assert(all.subrange(all.len() as int, all.len() as int) =~= Seq::<Self>::empty());
        }
        match acc {
            Some(a) => a,
            None => Expression::Constant(one),
        }
    }
}

impl Selector {
    /// Return expression from selector.
    pub fn expr<F>(&self) -> (r: Expression<F>)
        ensures
            r == Expression::<F>::Selector(*self),
    {
        Expression::Selector(*self)
    }
}

impl Challenge {
    /// Return expression from challenge.
    pub fn expr<F>(&self) -> (r: Expression<F>)
        ensures
            r == Expression::<F>::Challenge(*self),
    {
        Expression::Challenge(*self)
    }
}

impl<F: Copy> Clone for Expression<F> {
    fn clone(&self) -> (r: Self)
        ensures
            r == *self,
    {
        self.duplicate()
    }
}

impl<F> core::ops::Neg for Expression<F> {
    type Output = Expression<F>;

    fn neg(self) -> (r: Expression<F>) {
        Expression::Negated(Box::new(self))
    }
}

impl<F> NegSpecImpl for Expression<F> {
    open spec fn obeys_neg_spec() -> bool {
        true
    }

    open spec fn neg_req(self) -> bool {
        true
    }

    open spec fn neg_spec(self) -> Expression<F> {
        Expression::Negated(Box::new(self))
    }
}

impl<F> core::ops::Add for Expression<F> {
    type Output = Expression<F>;

    fn add(self, rhs: Expression<F>) -> (r: Expression<F>) {
        Expression::Sum(Box::new(self), Box::new(rhs))
    }
}

impl<F> AddSpecImpl for Expression<F> {
    open spec fn obeys_add_spec() -> bool {
        true
    }

    /// Neither term may hold a simple selector.
    open spec fn add_req(self, rhs: Expression<F>) -> bool {
        !self.spec_contains_simple_selector() && !rhs.spec_contains_simple_selector()
    }

    open spec fn add_spec(self, rhs: Expression<F>) -> Expression<F> {
        Expression::Sum(Box::new(self), Box::new(rhs))
    }
}

impl<F> core::ops::Sub for Expression<F> {
    type Output = Expression<F>;

    fn sub(self, rhs: Expression<F>) -> (r: Expression<F>) {
        Expression::Sum(Box::new(self), Box::new(Expression::Negated(Box::new(rhs))))
    }
}

impl<F> SubSpecImpl for Expression<F> {
    open spec fn obeys_sub_spec() -> bool {
        true
    }

    /// Neither term may hold a simple selector.
    open spec fn sub_req(self, rhs: Expression<F>) -> bool {
        !self.spec_contains_simple_selector() && !rhs.spec_contains_simple_selector()
    }

    open spec fn sub_spec(self, rhs: Expression<F>) -> Expression<F> {
        Expression::Sum(Box::new(self), Box::new(Expression::Negated(Box::new(rhs))))
    }
}

impl<F> core::ops::Mul for Expression<F> {
    type Output = Expression<F>;

    fn mul(self, rhs: Expression<F>) -> (r: Expression<F>) {
        Expression::Product(Box::new(self), Box::new(rhs))
    }
}

impl<F> MulSpecImpl for Expression<F> {
    open spec fn obeys_mul_spec() -> bool {
        true
    }

    /// At most one factor may hold a simple selector.
    open spec fn mul_req(self, rhs: Expression<F>) -> bool {
        !(self.spec_contains_simple_selector() && rhs.spec_contains_simple_selector())
    }

    open spec fn mul_spec(self, rhs: Expression<F>) -> Expression<F> {
        Expression::Product(Box::new(self), Box::new(rhs))
    }
}

impl<F> core::ops::Mul<F> for Expression<F> {
    type Output = Expression<F>;

    fn mul(self, rhs: F) -> (r: Expression<F>) {
        Expression::Scaled(Box::new(self), rhs)
    }
}

impl<F> MulSpecImpl<F> for Expression<F> {
    open spec fn obeys_mul_spec() -> bool {
        true
    }

    open spec fn mul_req(self, rhs: F) -> bool {
        true
    }

    open spec fn mul_spec(self, rhs: F) -> Expression<F> {
        Expression::Scaled(Box::new(self), rhs)
    }
}

} // verus!

//! Folding an expression with one callable per variant.

use super::column::{AdviceQuery, Challenge, FixedQuery, InstanceQuery, Selector};
use super::expression::Expression;
use vstd::prelude::*;
use vstd::std_specs::cmp::PartialEqSpec;

verus! {

/// The ten callables of a fold, one per variant of [`Expression`].
pub struct Evaluator<'a, CF, SF, FF, AF, IF, HF, NF, UF, PF, KF> {
    pub constant: &'a CF,
    pub selector_column: &'a SF,
    pub fixed_column: &'a FF,
    pub advice_column: &'a AF,
    pub instance_column: &'a IF,
    pub challenge: &'a HF,
    pub negated: &'a NF,
    pub sum: &'a UF,
    pub product: &'a PF,
    pub scaled: &'a KF,
}

impl<F> Expression<F> {
    /// Whether `out` is a value that the fold of the expression with the
    /// callables of `ev` can give: each node's value is a result of that
    /// node's callable on a value of each child.
    pub open spec fn spec_evaluates_to<T, CF, SF, FF, AF, IF, HF, NF, UF, PF, KF>(
        self,
        ev: Evaluator<'_, CF, SF, FF, AF, IF, HF, NF, UF, PF, KF>,
        out: T,
    ) -> bool where
        CF: Fn(F) -> T,
        SF: Fn(Selector) -> T,
        FF: Fn(FixedQuery) -> T,
        AF: Fn(AdviceQuery) -> T,
        IF: Fn(InstanceQuery) -> T,
        HF: Fn(Challenge) -> T,
        NF: Fn(T) -> T,
        UF: Fn(T, T) -> T,
        PF: Fn(T, T) -> T,
        KF: Fn(T, F) -> T,

        decreases self,
    {
        match self {
            Expression::Constant(c) => call_ensures(ev.constant, (c,), out),
            Expression::Selector(s) => call_ensures(ev.selector_column, (s,), out),
            Expression::Fixed(q) => call_ensures(ev.fixed_column, (q,), out),
            Expression::Advice(q) => call_ensures(ev.advice_column, (q,), out),
            Expression::Instance(q) => call_ensures(ev.instance_column, (q,), out),
            Expression::Challenge(c) => call_ensures(ev.challenge, (c,), out),
            Expression::Negated(a) => exists|x: T|
                a.spec_evaluates_to(ev, x) && #[trigger] call_ensures(ev.negated, (x,), out),
            Expression::Sum(a, b) => exists|x: T, y: T|
                a.spec_evaluates_to(ev, x) && b.spec_evaluates_to(ev, y) && #[trigger] call_ensures(
                    ev.sum,
                    (x, y),
                    out,
                ),
            Expression::Product(a, b) => exists|x: T, y: T|
                a.spec_evaluates_to(ev, x) && b.spec_evaluates_to(ev, y) && #[trigger] call_ensures(
                    ev.product,
                    (x, y),
                    out,
                ),
            Expression::Scaled(a, f) => exists|x: T|
                a.spec_evaluates_to(ev, x) && #[trigger] call_ensures(ev.scaled, (x, f), out),
        }
    }

    /// Whether the fold of the expression with the callables of `ev` meets
    /// the precondition of every call that it makes.
    pub open spec fn spec_evaluable<T, CF, SF, FF, AF, IF, HF, NF, UF, PF, KF>(
        self,
        ev: Evaluator<'_, CF, SF, FF, AF, IF, HF, NF, UF, PF, KF>,
    ) -> bool where
        CF: Fn(F) -> T,
        SF: Fn(Selector) -> T,
        FF: Fn(FixedQuery) -> T,
        AF: Fn(AdviceQuery) -> T,
        IF: Fn(InstanceQuery) -> T,
        HF: Fn(Challenge) -> T,
        NF: Fn(T) -> T,
        UF: Fn(T, T) -> T,
        PF: Fn(T, T) -> T,
        KF: Fn(T, F) -> T,

        decreases self,
    {
        match self {
            Expression::Constant(c) => call_requires(ev.constant, (c,)),
            Expression::Selector(s) => call_requires(ev.selector_column, (s,)),
            Expression::Fixed(q) => call_requires(ev.fixed_column, (q,)),
            Expression::Advice(q) => call_requires(ev.advice_column, (q,)),
            Expression::Instance(q) => call_requires(ev.instance_column, (q,)),
            Expression::Challenge(c) => call_requires(ev.challenge, (c,)),
            Expression::Negated(a) => a.spec_evaluable(ev) && forall|x: T|
                #[trigger] a.spec_evaluates_to(ev, x) ==> call_requires(ev.negated, (x,)),
            Expression::Sum(a, b) => a.spec_evaluable(ev) && b.spec_evaluable(ev) && forall|
                x: T,
                y: T,
            |
                #![trigger a.spec_evaluates_to(ev, x), b.spec_evaluates_to(ev, y)]
                a.spec_evaluates_to(ev, x) && b.spec_evaluates_to(ev, y) ==> call_requires(
                    ev.sum,
                    (x, y),
                ),
            Expression::Product(a, b) => a.spec_evaluable(ev) && b.spec_evaluable(ev) && forall|
                x: T,
                y: T,
            |
                #![trigger a.spec_evaluates_to(ev, x), b.spec_evaluates_to(ev, y)]
                a.spec_evaluates_to(ev, x) && b.spec_evaluates_to(ev, y) ==> call_requires(
                    ev.product,
                    (x, y),
                ),
            Expression::Scaled(a, f) => a.spec_evaluable(ev) && forall|x: T|
                #[trigger] a.spec_evaluates_to(ev, x) ==> call_requires(ev.scaled, (x, f)),
        }
    }

    /// Whether `out` is a value that the lazy fold of the expression with the
    /// callables of `ev` can give. A product evaluates its cheaper factor
    /// first; where that value compares equal to `zero`, it is the product's
    /// value and the other factor is not evaluated.
    pub open spec fn spec_lazily_evaluates_to<T, CF, SF, FF, AF, IF, HF, NF, UF, PF, KF>(
        self,
        ev: Evaluator<'_, CF, SF, FF, AF, IF, HF, NF, UF, PF, KF>,
        zero: T,
        out: T,
    ) -> bool where
        T: PartialEq,
        CF: Fn(F) -> T,
        SF: Fn(Selector) -> T,
        FF: Fn(FixedQuery) -> T,
        AF: Fn(AdviceQuery) -> T,
        IF: Fn(InstanceQuery) -> T,
        HF: Fn(Challenge) -> T,
        NF: Fn(T) -> T,
        UF: Fn(T, T) -> T,
        PF: Fn(T, T) -> T,
        KF: Fn(T, F) -> T,

        decreases self,
    {
        match self {
            Expression::Constant(c) => call_ensures(ev.constant, (c,), out),
            Expression::Selector(s) => call_ensures(ev.selector_column, (s,), out),
            Expression::Fixed(q) => call_ensures(ev.fixed_column, (q,), out),
            Expression::Advice(q) => call_ensures(ev.advice_column, (q,), out),
            Expression::Instance(q) => call_ensures(ev.instance_column, (q,), out),
            Expression::Challenge(c) => call_ensures(ev.challenge, (c,), out),
            Expression::Negated(a) => exists|x: T|
                a.spec_lazily_evaluates_to(ev, zero, x) && #[trigger] call_ensures(
                    ev.negated,
                    (x,),
                    out,
                ),
            Expression::Sum(a, b) => exists|x: T, y: T|
                a.spec_lazily_evaluates_to(ev, zero, x) && b.spec_lazily_evaluates_to(ev, zero, y)
                    && #[trigger] call_ensures(ev.sum, (x, y), out),
            Expression::Product(a, b) => if a.spec_complexity() <= b.spec_complexity() {
                ||| a.spec_lazily_evaluates_to(ev, zero, out) && (T::obeys_eq_spec()
                    ==> out.eq_spec(&zero))
                ||| exists|x: T, y: T|
                    {
                        &&& a.spec_lazily_evaluates_to(ev, zero, x)
                        &&& T::obeys_eq_spec() ==> !x.eq_spec(&zero)
                        &&& b.spec_lazily_evaluates_to(ev, zero, y)
                        &&& #[trigger] call_ensures(ev.product, (x, y), out)
                    }
            } else {
                ||| b.spec_lazily_evaluates_to(ev, zero, out) && (T::obeys_eq_spec()
                    ==> out.eq_spec(&zero))
                ||| exists|x: T, y: T|
                    {
                        &&& b.spec_lazily_evaluates_to(ev, zero, x)
                        &&& T::obeys_eq_spec() ==> !x.eq_spec(&zero)
                        &&& a.spec_lazily_evaluates_to(ev, zero, y)
                        &&& #[trigger] call_ensures(ev.product, (x, y), out)
                    }
            },
            Expression::Scaled(a, f) => exists|x: T|
                a.spec_lazily_evaluates_to(ev, zero, x) && #[trigger] call_ensures(
                    ev.scaled,
                    (x, f),
                    out,
                ),
        }
    }

    /// Whether the lazy fold of the expression with the callables of `ev`
    /// meets the precondition of every call that it makes.
    pub open spec fn spec_lazily_evaluable<T, CF, SF, FF, AF, IF, HF, NF, UF, PF, KF>(
        self,
        ev: Evaluator<'_, CF, SF, FF, AF, IF, HF, NF, UF, PF, KF>,
        zero: T,
    ) -> bool where
        T: PartialEq,
        CF: Fn(F) -> T,
        SF: Fn(Selector) -> T,
        FF: Fn(FixedQuery) -> T,
        AF: Fn(AdviceQuery) -> T,
        IF: Fn(InstanceQuery) -> T,
        HF: Fn(Challenge) -> T,
        NF: Fn(T) -> T,
        UF: Fn(T, T) -> T,
        PF: Fn(T, T) -> T,
        KF: Fn(T, F) -> T,

        decreases self,
    {
        match self {
            Expression::Constant(c) => call_requires(ev.constant, (c,)),
            Expression::Selector(s) => call_requires(ev.selector_column, (s,)),
            Expression::Fixed(q) => call_requires(ev.fixed_column, (q,)),
            Expression::Advice(q) => call_requires(ev.advice_column, (q,)),
            Expression::Instance(q) => call_requires(ev.instance_column, (q,)),
            Expression::Challenge(c) => call_requires(ev.challenge, (c,)),
            Expression::Negated(a) => a.spec_lazily_evaluable(ev, zero) && forall|x: T|
                #[trigger] a.spec_lazily_evaluates_to(ev, zero, x) ==> call_requires(
                    ev.negated,
                    (x,),
                ),
            Expression::Sum(a, b) => a.spec_lazily_evaluable(ev, zero) && b.spec_lazily_evaluable(
                ev,
                zero,
            ) && forall|x: T, y: T|
                #![trigger a.spec_lazily_evaluates_to(ev, zero, x), b.spec_lazily_evaluates_to(ev, zero, y)]
                a.spec_lazily_evaluates_to(ev, zero, x) && b.spec_lazily_evaluates_to(ev, zero, y)
                    ==> call_requires(ev.sum, (x, y)),
            Expression::Product(a, b) => if a.spec_complexity() <= b.spec_complexity() {
                a.spec_lazily_evaluable(ev, zero) && forall|x: T|
                    #[trigger] a.spec_lazily_evaluates_to(ev, zero, x) && !(T::obeys_eq_spec()
                        && x.eq_spec(&zero)) ==> b.spec_lazily_evaluable(ev, zero) && forall|y: T|
                        #[trigger] b.spec_lazily_evaluates_to(ev, zero, y) ==> call_requires(
                            ev.product,
                            (x, y),
                        )
            } else {
                b.spec_lazily_evaluable(ev, zero) && forall|x: T|
                    #[trigger] b.spec_lazily_evaluates_to(ev, zero, x) && !(T::obeys_eq_spec()
                        && x.eq_spec(&zero)) ==> a.spec_lazily_evaluable(ev, zero) && forall|y: T|
                        #[trigger] a.spec_lazily_evaluates_to(ev, zero, y) ==> call_requires(
                            ev.product,
                            (x, y),
                        )
            },
            Expression::Scaled(a, f) => a.spec_lazily_evaluable(ev, zero) && forall|x: T|
                #[trigger] a.spec_lazily_evaluates_to(ev, zero, x) ==> call_requires(
                    ev.scaled,
                    (x, f),
                ),
        }
    }

    /// Fold the expression with the callables of `ev`.
    pub fn evaluate_with<T, CF, SF, FF, AF, IF, HF, NF, UF, PF, KF>(
        &self,
        ev: &Evaluator<'_, CF, SF, FF, AF, IF, HF, NF, UF, PF, KF>,
    ) -> (out: T) where
        F: Copy,
        CF: Fn(F) -> T,
        SF: Fn(Selector) -> T,
        FF: Fn(FixedQuery) -> T,
        AF: Fn(AdviceQuery) -> T,
        IF: Fn(InstanceQuery) -> T,
        HF: Fn(Challenge) -> T,
        NF: Fn(T) -> T,
        UF: Fn(T, T) -> T,
        PF: Fn(T, T) -> T,
        KF: Fn(T, F) -> T,

        requires
            self.spec_evaluable(*ev),
        ensures
            self.spec_evaluates_to(*ev, out),
        decreases self,
    {
        match self {
            Expression::Constant(scalar) => (ev.constant)(*scalar),
            Expression::Selector(selector) => (ev.selector_column)(*selector),
            Expression::Fixed(query) => (ev.fixed_column)(*query),
            Expression::Advice(query) => (ev.advice_column)(*query),
            Expression::Instance(query) => (ev.instance_column)(*query),
            Expression::Challenge(value) => (ev.challenge)(*value),
            Expression::Negated(a) => {
                let x = a.evaluate_with(ev);
                let ghost gx = x;
                let out = (ev.negated)(x);
                assert(a.spec_evaluates_to(*ev, gx) && call_ensures(ev.negated, (gx,), out));
                out
            },
            Expression::Sum(a, b) => {
                let x = a.evaluate_with(ev);
                let y = b.evaluate_with(ev);
                let ghost gx = x;
                let ghost gy = y;
                let out = (ev.sum)(x, y);
                assert(a.spec_evaluates_to(*ev, gx) && b.spec_evaluates_to(*ev, gy) && call_ensures(
                    ev.sum,
                    (gx, gy),
                    out,
                ));
                out
            },
            Expression::Product(a, b) => {
                let x = a.evaluate_with(ev);
                let y = b.evaluate_with(ev);
                let ghost gx = x;
                let ghost gy = y;
                let out = (ev.product)(x, y);
                assert(a.spec_evaluates_to(*ev, gx) && b.spec_evaluates_to(*ev, gy) && call_ensures(
                    ev.product,
                    (gx, gy),
                    out,
                ));
                out
            },
            Expression::Scaled(a, f) => {
                let x = a.evaluate_with(ev);
                let ghost gx = x;
                let out = (ev.scaled)(x, *f);
                assert(a.spec_evaluates_to(*ev, gx) && call_ensures(ev.scaled, (gx, *f), out));
                out
            },
        }
    }

    /// Evaluate the polynomial using the provided closures to perform the
    /// operations.
    pub fn evaluate<T, CF, SF, FF, AF, IF, HF, NF, UF, PF, KF>(
        &self,
        constant: &CF,
        selector_column: &SF,
        fixed_column: &FF,
        advice_column: &AF,
        instance_column: &IF,
        challenge: &HF,
        negated: &NF,
        sum: &UF,
        product: &PF,
        scaled: &KF,
    ) -> (out: T) where
        F: Copy,
        CF: Fn(F) -> T,
        SF: Fn(Selector) -> T,
        FF: Fn(FixedQuery) -> T,
        AF: Fn(AdviceQuery) -> T,
        IF: Fn(InstanceQuery) -> T,
        HF: Fn(Challenge) -> T,
        NF: Fn(T) -> T,
        UF: Fn(T, T) -> T,
        PF: Fn(T, T) -> T,
        KF: Fn(T, F) -> T,

        requires
            self.spec_evaluable(
                (Evaluator {
                    constant,
                    selector_column,
                    fixed_column,
                    advice_column,
                    instance_column,
                    challenge,
                    negated,
                    sum,
                    product,
                    scaled,
                }),
            ),
        ensures
            self.spec_evaluates_to(
                (Evaluator {
                    constant,
                    selector_column,
                    fixed_column,
                    advice_column,
                    instance_column,
                    challenge,
                    negated,
                    sum,
                    product,
                    scaled,
                }),
                out,
            ),
    {
        let ev = Evaluator {
            constant,
            selector_column,
            fixed_column,
            advice_column,
            instance_column,
            challenge,
            negated,
            sum,
            product,
            scaled,
        };
        self.evaluate_with(&ev)
    }

    /// Fold the expression lazily with the callables of `ev`.
    pub fn evaluate_lazy_with<T, CF, SF, FF, AF, IF, HF, NF, UF, PF, KF>(
        &self,
        ev: &Evaluator<'_, CF, SF, FF, AF, IF, HF, NF, UF, PF, KF>,
        zero: &T,
    ) -> (out: T) where
        F: Copy,
        T: PartialEq,
        CF: Fn(F) -> T,
        SF: Fn(Selector) -> T,
        FF: Fn(FixedQuery) -> T,
        AF: Fn(AdviceQuery) -> T,
        IF: Fn(InstanceQuery) -> T,
        HF: Fn(Challenge) -> T,
        NF: Fn(T) -> T,
        UF: Fn(T, T) -> T,
        PF: Fn(T, T) -> T,
        KF: Fn(T, F) -> T,

        requires
            self.spec_complexity() <= usize::MAX,
            self.spec_lazily_evaluable(*ev, *zero),
        ensures
            self.spec_lazily_evaluates_to(*ev, *zero, out),
        decreases self,
    {
        match self {
            Expression::Constant(scalar) => (ev.constant)(*scalar),
            Expression::Selector(selector) => (ev.selector_column)(*selector),
            Expression::Fixed(query) => (ev.fixed_column)(*query),
            Expression::Advice(query) => (ev.advice_column)(*query),
            Expression::Instance(query) => (ev.instance_column)(*query),
            Expression::Challenge(value) => (ev.challenge)(*value),
            Expression::Negated(a) => {
                let x = a.evaluate_lazy_with(ev, zero);
                let ghost gx = x;
                let out = (ev.negated)(x);
                assert(a.spec_lazily_evaluates_to(*ev, *zero, gx) && call_ensures(
                    ev.negated,
                    (gx,),
                    out,
                ));
                out
            },
            Expression::Sum(a, b) => {
                let x = a.evaluate_lazy_with(ev, zero);
                let y = b.evaluate_lazy_with(ev, zero);
                let ghost gx = x;
                let ghost gy = y;
                let out = (ev.sum)(x, y);
                assert(a.spec_lazily_evaluates_to(*ev, *zero, gx) && b.spec_lazily_evaluates_to(
                    *ev,
                    *zero,
                    gy,
                ) && call_ensures(ev.sum, (gx, gy), out));
                out
            },
            Expression::Product(a, b) => {
                let (first, second) = if a.complexity() <= b.complexity() {
                    (a, b)
                } else {
                    (b, a)
                };
                let x = first.evaluate_lazy_with(ev, zero);
                if x == *zero {
                    x
                } else {
                    let y = second.evaluate_lazy_with(ev, zero);
                    let ghost gx = x;
                    let ghost gy = y;
                    let out = (ev.product)(x, y);
                    assert(first.spec_lazily_evaluates_to(*ev, *zero, gx)
                        && second.spec_lazily_evaluates_to(*ev, *zero, gy) && call_ensures(
                        ev.product,
                        (gx, gy),
                        out,
                    ));
                    out
                }
            },
            Expression::Scaled(a, f) => {
                let x = a.evaluate_lazy_with(ev, zero);
                let ghost gx = x;
                let out = (ev.scaled)(x, *f);
                assert(a.spec_lazily_evaluates_to(*ev, *zero, gx) && call_ensures(
                    ev.scaled,
                    (gx, *f),
                    out,
                ));
                out
            },
        }
    }

    /// Evaluate the polynomial lazily using the provided closures to perform
    /// the operations. A product evaluates its factor of lower complexity
    /// first (the left one if both have the same), and where that value
    /// equals `zero` returns it without evaluating the other factor.
    pub fn evaluate_lazy<T, CF, SF, FF, AF, IF, HF, NF, UF, PF, KF>(
        &self,
        constant: &CF,
        selector_column: &SF,
        fixed_column: &FF,
        advice_column: &AF,
        instance_column: &IF,
        challenge: &HF,
        negated: &NF,
        sum: &UF,
        product: &PF,
        scaled: &KF,
        zero: &T,
    ) -> (out: T) where
        F: Copy,
        T: PartialEq,
        CF: Fn(F) -> T,
        SF: Fn(Selector) -> T,
        FF: Fn(FixedQuery) -> T,
        AF: Fn(AdviceQuery) -> T,
        IF: Fn(InstanceQuery) -> T,
        HF: Fn(Challenge) -> T,
        NF: Fn(T) -> T,
        UF: Fn(T, T) -> T,
        PF: Fn(T, T) -> T,
        KF: Fn(T, F) -> T,

        requires
            self.spec_complexity() <= usize::MAX,
            self.spec_lazily_evaluable(
                (Evaluator {
                    constant,
                    selector_column,
                    fixed_column,
                    advice_column,
                    instance_column,
                    challenge,
                    negated,
                    sum,
                    product,
                    scaled,
                }),
                *zero,
            ),
        ensures
            self.spec_lazily_evaluates_to(
                (Evaluator {
                    constant,
                    selector_column,
                    fixed_column,
                    advice_column,
                    instance_column,
                    challenge,
                    negated,
                    sum,
                    product,
                    scaled,
                }),
                *zero,
                out,
            ),
    {
        let ev = Evaluator {
            constant,
            selector_column,
            fixed_column,
            advice_column,
            instance_column,
            challenge,
            negated,
            sum,
            product,
            scaled,
        };
        self.evaluate_lazy_with(&ev, zero)
    }
}

} // verus!

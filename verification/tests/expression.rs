use halo2_common::middleware::Rotation;
use halo2_common::plonk::circuit::sealed::Phase;
use halo2_common::plonk::circuit::{
    AdviceQuery, Challenge, Expression, FixedQuery, InstanceQuery, Selector,
};
use halo2curves::bn256::Fr;
use std::cell::Cell;

fn advice(column_index: usize, rotation: i32) -> Expression<u64> {
    Expression::Advice(AdviceQuery {
        index: None,
        column_index,
        rotation: Rotation(rotation),
        phase: Phase(0),
    })
}

fn fixed(column_index: usize) -> Expression<u64> {
    Expression::Fixed(FixedQuery { index: None, column_index, rotation: Rotation(0) })
}

fn render(f: u64) -> String {
    format!("{f}")
}

#[test]
fn iter_sum() {
    let exprs: Vec<Expression<Fr>> = vec![
        Expression::Constant(Fr::from(1u64)),
        Expression::Constant(Fr::from(2u64)),
        Expression::Constant(Fr::from(3u64)),
    ];
    let happened: Expression<Fr> = Expression::sum(exprs, Fr::zero());
    let expected: Expression<Fr> = Expression::Sum(
        Box::new(Expression::Sum(
            Box::new(Expression::Constant(Fr::from(1u64))),
            Box::new(Expression::Constant(Fr::from(2u64))),
        )),
        Box::new(Expression::Constant(Fr::from(3u64))),
    );

    assert_eq!(happened, expected);
}

#[test]
fn iter_product() {
    let exprs: Vec<Expression<Fr>> = vec![
        Expression::Constant(Fr::from(1u64)),
        Expression::Constant(Fr::from(2u64)),
        Expression::Constant(Fr::from(3u64)),
    ];
    let happened: Expression<Fr> = Expression::product(exprs, Fr::one());
    let expected: Expression<Fr> = Expression::Product(
        Box::new(Expression::Product(
            Box::new(Expression::Constant(Fr::from(1u64))),
            Box::new(Expression::Constant(Fr::from(2u64))),
        )),
        Box::new(Expression::Constant(Fr::from(3u64))),
    );

    assert_eq!(happened, expected);
}

#[test]
fn empty_sum_and_product_are_the_neutral_constants() {
    let sum: Expression<Fr> = Expression::sum(vec![], Fr::zero());
    let product: Expression<Fr> = Expression::product(vec![], Fr::one());
    assert_eq!(sum, Expression::Constant(Fr::zero()));
    assert_eq!(product, Expression::Constant(Fr::one()));
}

#[test]
fn single_element_sum_and_product_are_the_element() {
    let s = Expression::<u64>::Selector(Selector(0, true));
    assert_eq!(Expression::sum(vec![s.clone()], 0), s);
    assert_eq!(Expression::product(vec![s.clone()], 1), s);
}

#[test]
fn operators_build_the_tree() {
    let a = advice(0, 0);
    let b = fixed(1);
    assert_eq!(
        a.clone() + b.clone(),
        Expression::Sum(Box::new(a.clone()), Box::new(b.clone()))
    );
    assert_eq!(
        a.clone() - b.clone(),
        Expression::Sum(
            Box::new(a.clone()),
            Box::new(Expression::Negated(Box::new(b.clone())))
        )
    );
    assert_eq!(
        a.clone() * b.clone(),
        Expression::Product(Box::new(a.clone()), Box::new(b.clone()))
    );
    assert_eq!(-a.clone(), Expression::Negated(Box::new(a.clone())));
    assert_eq!(a.clone() * 7u64, Expression::Scaled(Box::new(a.clone()), 7));
    assert_eq!(
        a.clone().square(),
        Expression::Product(Box::new(a.clone()), Box::new(a))
    );
}

#[test]
fn degree_of_each_variant() {
    assert_eq!(Expression::<u64>::Constant(5).degree(), 0);
    assert_eq!(Expression::<u64>::Challenge(Challenge { index: 0, phase: 0 }).degree(), 0);
    assert_eq!(Expression::<u64>::Selector(Selector(0, true)).degree(), 1);
    assert_eq!(advice(0, 0).degree(), 1);
    assert_eq!(fixed(0).degree(), 1);
    assert_eq!(
        Expression::<u64>::Instance(InstanceQuery {
            index: None,
            column_index: 0,
            rotation: Rotation(0)
        })
        .degree(),
        1
    );
}

#[test]
fn degree_algebra() {
    let a = advice(0, 0) * advice(1, 0) * fixed(0);
    let b = advice(2, 1);
    assert_eq!(a.degree(), 3);
    assert_eq!(b.degree(), 1);
    assert_eq!((a.clone() + b.clone()).degree(), 3);
    assert_eq!((b.clone() + a.clone()).degree(), 3);
    assert_eq!((a.clone() - b.clone()).degree(), 3);
    assert_eq!((a.clone() * b.clone()).degree(), 4);
    assert_eq!((-a.clone()).degree(), 3);
    assert_eq!((a * 9u64).degree(), 3);
}

#[test]
fn complexity_of_each_variant() {
    let a = advice(0, 0);
    let c = Expression::<u64>::Constant(1);
    assert_eq!(c.complexity(), 0);
    assert_eq!(a.complexity(), 1);
    assert_eq!((-a.clone()).complexity(), 6);
    assert_eq!((a.clone() + c.clone()).complexity(), 16);
    assert_eq!((a.clone() * c.clone()).complexity(), 31);
    assert_eq!((a.clone() * 3u64).complexity(), 31);
    assert_eq!(((a.clone() + c) * (-a)).complexity(), 16 + 6 + 30);
}

#[test]
fn simple_selector_quarantine() {
    let s = Expression::<u64>::Selector(Selector(0, true));
    let t = Expression::<u64>::Selector(Selector(1, true));
    let complex = Expression::<u64>::Selector(Selector(2, false));
    let x = advice(0, 0);

    // A sum or a difference may hold no simple selector, and a product may
    // hold one in one factor only.
    assert!(s.contains_simple_selector());
    assert!(t.contains_simple_selector());
    assert!(!complex.contains_simple_selector());
    assert!(!x.contains_simple_selector());

    let product = s.clone() * x.clone();
    assert_eq!(product, Expression::Product(Box::new(s.clone()), Box::new(x.clone())));
    assert!(product.contains_simple_selector());
    assert!((product.clone() * 2u64).contains_simple_selector());
    assert!((-product).contains_simple_selector());

    let sum = complex.clone() + x.clone();
    assert!(!sum.contains_simple_selector());
    assert!(!(complex * x).contains_simple_selector());
}

#[test]
fn extract_simple_selector_finds_the_selector() {
    let s = Selector(3, true);
    let x = advice(0, 0);
    assert_eq!(Expression::<u64>::Selector(s).extract_simple_selector(), Some(s));
    assert_eq!((Expression::<u64>::Selector(s) * x.clone()).extract_simple_selector(), Some(s));
    assert_eq!((x.clone() * Expression::Selector(s)).extract_simple_selector(), Some(s));
    assert_eq!(x.extract_simple_selector(), None);
    assert_eq!(
        Expression::<u64>::Selector(Selector(3, false)).extract_simple_selector(),
        None
    );
    assert_eq!(
        Expression::<u64>::Negated(Box::new(Expression::Selector(s))).extract_simple_selector(),
        Some(s)
    );
}

#[test]
fn identifier_of_each_variant() {
    assert_eq!(Expression::<u64>::Constant(42).identifier(&render), "42");
    assert_eq!(Expression::<u64>::Selector(Selector(7, true)).identifier(&render), "selector[7]");
    assert_eq!(fixed(3).identifier(&render), "fixed[3][0]");
    assert_eq!(advice(12, -1).identifier(&render), "advice[12][-1]");
    assert_eq!(advice(0, 105).identifier(&render), "advice[0][105]");
    assert_eq!(
        Expression::<u64>::Instance(InstanceQuery {
            index: Some(4),
            column_index: 10,
            rotation: Rotation(i32::MIN)
        })
        .identifier(&render),
        "instance[10][-2147483648]"
    );
    assert_eq!(
        Expression::<u64>::Challenge(Challenge { index: 2, phase: 1 }).identifier(&render),
        "challenge[2]"
    );
    assert_eq!((-fixed(0)).identifier(&render), "(-fixed[0][0])");
    assert_eq!((fixed(0) + fixed(1)).identifier(&render), "(fixed[0][0]+fixed[1][0])");
    assert_eq!((fixed(0) * fixed(1)).identifier(&render), "(fixed[0][0]*fixed[1][0])");
    assert_eq!((fixed(0) * 5u64).identifier(&render), "fixed[0][0]*5");
}

#[test]
fn identifier_of_the_boolean_gate() {
    let s = Expression::<u64>::Selector(Selector(0, true));
    let a = advice(0, 0);
    let gate = s * (a.clone() * (Expression::Constant(1) - a));
    assert_eq!(
        gate.identifier(&render),
        "(selector[0]*(advice[0][0]*(1+(-advice[0][0]))))"
    );
}

#[test]
fn identifier_ignores_query_indices() {
    let a = Expression::<u64>::Fixed(FixedQuery {
        index: None,
        column_index: 1,
        rotation: Rotation(2),
    });
    let b = Expression::<u64>::Fixed(FixedQuery {
        index: Some(9),
        column_index: 1,
        rotation: Rotation(2),
    });
    assert_eq!(a.identifier(&render), b.identifier(&render));
    let mut writer = String::from("id=");
    a.write_identifier(&render, &mut writer);
    assert_eq!(writer, "id=fixed[1][2]");
}

fn eval(expr: &Expression<u64>, advice_value: i64) -> i64 {
    expr.evaluate(
        &|c| c as i64,
        &|_| 1,
        &|_| 10,
        &|_| advice_value,
        &|_| 100,
        &|_| 1000,
        &|a: i64| -a,
        &|a: i64, b: i64| a + b,
        &|a: i64, b: i64| a * b,
        &|a: i64, f: u64| a * f as i64,
    )
}

#[test]
fn expressions_with_one_identifier_have_one_value() {
    // Two trees that differ in where the scaling stands, and in what the
    // canonical text leaves out, share their text and their value.
    let left = Expression::Product(
        Box::new(Expression::Scaled(Box::new(advice(0, 0)), 2)),
        Box::new(Expression::<u64>::Constant(3)),
    );
    let right = Expression::Product(
        Box::new(Expression::Advice(AdviceQuery {
            index: Some(5),
            column_index: 0,
            rotation: Rotation(0),
            phase: Phase(1),
        })),
        Box::new(Expression::Scaled(Box::new(Expression::<u64>::Constant(2)), 3)),
    );
    assert_ne!(left, right);
    assert_eq!(left.identifier(&render), "(advice[0][0]*2*3)");
    assert_eq!(right.identifier(&render), "(advice[0][0]*2*3)");
    assert_eq!(eval(&left, 7), 42);
    assert_eq!(eval(&right, 7), 42);

    // The converse does not hold: a sum has the value of the sum the other
    // way round, and another text.
    let there = advice(0, 0) + fixed(0);
    let back = fixed(0) + advice(0, 0);
    assert_eq!(eval(&there, 7), eval(&back, 7));
    assert_ne!(there.identifier(&render), back.identifier(&render));
}

#[test]
fn evaluate_folds_the_tree() {
    let a = advice(0, 0);
    let gate = a.clone() * (Expression::Constant(1) - a.clone());
    assert_eq!(eval(&gate, 0), 0);
    assert_eq!(eval(&gate, 1), 0);
    assert_eq!(eval(&gate, 3), -6);
    assert_eq!(eval(&(fixed(0) * 4u64 + a), 5), 45);
    assert_eq!(eval(&Expression::Challenge(Challenge { index: 0, phase: 0 }), 0), 1000);
    assert_eq!(
        eval(
            &Expression::Instance(InstanceQuery {
                index: None,
                column_index: 0,
                rotation: Rotation(0)
            }),
            0
        ),
        100
    );
    assert_eq!(eval(&Expression::Selector(Selector(0, false)), 0), 1);
}

#[test]
fn evaluate_lazy_skips_the_second_factor_after_a_zero() {
    let advice_calls = Cell::new(0usize);
    let fixed_calls = Cell::new(0usize);
    // The constant is the cheaper factor, whichever side it stands on.
    for product in [
        Expression::<u64>::Constant(0) * (advice(0, 0) + fixed(0)),
        (advice(0, 0) + fixed(0)) * Expression::<u64>::Constant(0),
    ] {
        advice_calls.set(0);
        fixed_calls.set(0);
        let value = product.evaluate_lazy(
            &|c| c as i64,
            &|_| 1,
            &|_| {
                fixed_calls.set(fixed_calls.get() + 1);
                10
            },
            &|_| {
                advice_calls.set(advice_calls.get() + 1);
                7
            },
            &|_| 100,
            &|_| 1000,
            &|a: i64| -a,
            &|a: i64, b: i64| a + b,
            &|a: i64, b: i64| a * b,
            &|a: i64, f: u64| a * f as i64,
            &0,
        );
        assert_eq!(value, 0);
        assert_eq!(advice_calls.get(), 0);
        assert_eq!(fixed_calls.get(), 0);
    }
}

#[test]
fn evaluate_lazy_agrees_with_evaluate_without_zeros() {
    let expr = (advice(0, 0) + fixed(0)) * Expression::<u64>::Constant(3) + advice(1, 0) * 2u64;
    let lazy = expr.evaluate_lazy(
        &|c| c as i64,
        &|_| 1,
        &|_| 10,
        &|_| 7,
        &|_| 100,
        &|_| 1000,
        &|a: i64| -a,
        &|a: i64, b: i64| a + b,
        &|a: i64, b: i64| a * b,
        &|a: i64, f: u64| a * f as i64,
        &0,
    );
    assert_eq!(lazy, (7 + 10) * 3 + 7 * 2);
    assert_eq!(lazy, eval(&expr, 7));
}

#[test]
fn selector_and_challenge_expressions() {
    let s = Selector(2, true);
    assert!(s.is_simple());
    assert_eq!(s.index(), 2);
    assert_eq!(s.expr::<u64>(), Expression::Selector(s));
    let c = Challenge { index: 4, phase: 1 };
    assert_eq!(c.index(), 4);
    assert_eq!(c.phase(), 1);
    assert_eq!(c.expr::<u64>(), Expression::Challenge(c));
}

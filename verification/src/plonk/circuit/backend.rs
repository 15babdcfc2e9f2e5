//! Conversion between a constraint system and its selector-free form.

use super::column::{AdviceQuery, Challenge, Column, FixedQuery, InstanceQuery};
use super::expression::Expression;
use super::gate::Gate;
use super::sealed;
use super::system::{
    lemma_count_queries_bounded, spec_count_queries, spec_interned, spec_query_index,
    ConstraintSystem,
};
use crate::middleware::{
    Advice, AdviceQueryMid, Any, ChallengeMid, ColumnMid, ColumnType, ConstraintSystemV2Backend,
    ExpressionMid, Fixed, FixedQueryMid, GateV2Backend, Instance, InstanceQueryMid,
    LookupArgumentV2, PermutationArgumentV2, Rotation, ShuffleArgumentV2,
};
use crate::plonk::{lookup, permutation, shuffle};
use vstd::prelude::*;
use vstd::string::StringExecFns;

verus! {

impl<C: ColumnType> Column<C> {
    /// The query of this column at rotation `at`, without an index.
    pub open spec fn spec_query_cell<F>(self, at: Rotation) -> Expression<F> {
        match self.column_type.spec_any() {
            Any::Advice(advice) => Expression::Advice(
                AdviceQuery {
                    index: None,
                    column_index: self.index,
                    rotation: at,
                    phase: sealed::Phase(advice.phase),
                },
            ),
            Any::Fixed => Expression::Fixed(
                FixedQuery { index: None, column_index: self.index, rotation: at },
            ),
            Any::Instance => Expression::Instance(
                InstanceQuery { index: None, column_index: self.index, rotation: at },
            ),
        }
    }

    /// Return expression from column at a relative position.
    pub fn query_cell<F>(&self, at: Rotation) -> (r: Expression<F>)
        ensures
            r == self.spec_query_cell::<F>(at),
    {
        let expr_mid = self.column_type.query_cell::<F>(self.index, at);
        match expr_mid {
            ExpressionMid::Advice(q) => Expression::Advice(
                AdviceQuery {
                    index: None,
                    column_index: q.column_index,
                    rotation: q.rotation,
                    phase: sealed::Phase(q.phase),
                },
            ),
            ExpressionMid::Fixed(q) => Expression::Fixed(
                FixedQuery { index: None, column_index: q.column_index, rotation: q.rotation },
            ),
            ExpressionMid::Instance(q) => Expression::Instance(
                InstanceQuery { index: None, column_index: q.column_index, rotation: q.rotation },
            ),
            _ => {
                proof {
                    assert(false);
                }
                Expression::Fixed(FixedQuery { index: None, column_index: self.index, rotation: at })
            },
        }
    }

    /// Return expression from column at the current row.
    pub fn cur<F>(&self) -> (r: Expression<F>)
        ensures
            r == self.spec_query_cell::<F>(Rotation(0)),
    {
        self.query_cell(Rotation::cur())
    }

    /// Return expression from column at the next row.
    pub fn next<F>(&self) -> (r: Expression<F>)
        ensures
            r == self.spec_query_cell::<F>(Rotation(1)),
    {
        self.query_cell(Rotation::next())
    }

    /// Return expression from column at the previous row.
    pub fn prev<F>(&self) -> (r: Expression<F>)
        ensures
            r == self.spec_query_cell::<F>(Rotation(-1i32)),
    {
        self.query_cell(Rotation::prev())
    }

    /// Return expression from column at the specified rotation.
    pub fn rot<F>(&self, rotation: i32) -> (r: Expression<F>)
        ensures
            r == self.spec_query_cell::<F>(Rotation(rotation)),
    {
        self.query_cell(Rotation(rotation))
    }
}

impl<F> Expression<F> {
    /// Whether the expression holds no selector.
    pub open spec fn spec_selector_free(self) -> bool
        decreases self,
    {
        match self {
            Expression::Selector(_) => false,
            Expression::Negated(a) => a.spec_selector_free(),
            Expression::Sum(a, b) => a.spec_selector_free() && b.spec_selector_free(),
            Expression::Product(a, b) => a.spec_selector_free() && b.spec_selector_free(),
            Expression::Scaled(a, _) => a.spec_selector_free(),
            _ => true,
        }
    }

    /// The selector-free form of an expression without selectors: the same
    /// tree, with the queries stripped of their indices.
    pub open spec fn spec_to_mid(self) -> ExpressionMid<F>
        decreases self,
    {
        match self {
            Expression::Constant(c) => ExpressionMid::Constant(c),
            Expression::Selector(_) => arbitrary(),
            Expression::Fixed(q) => ExpressionMid::Fixed(
                FixedQueryMid { column_index: q.column_index, rotation: q.rotation },
            ),
            Expression::Advice(q) => ExpressionMid::Advice(
                AdviceQueryMid {
                    column_index: q.column_index,
                    rotation: q.rotation,
                    phase: q.phase.0,
                },
            ),
            Expression::Instance(q) => ExpressionMid::Instance(
                InstanceQueryMid { column_index: q.column_index, rotation: q.rotation },
            ),
            Expression::Challenge(c) => ExpressionMid::Challenge(
                ChallengeMid { index: c.index, phase: c.phase },
            ),
            Expression::Negated(a) => ExpressionMid::Negated(Box::new(a.spec_to_mid())),
            Expression::Sum(a, b) => ExpressionMid::Sum(
                Box::new(a.spec_to_mid()),
                Box::new(b.spec_to_mid()),
            ),
            Expression::Product(a, b) => ExpressionMid::Product(
                Box::new(a.spec_to_mid()),
                Box::new(b.spec_to_mid()),
            ),
            Expression::Scaled(a, f) => ExpressionMid::Scaled(Box::new(a.spec_to_mid()), f),
        }
    }
}

impl<F> ExpressionMid<F> {
    /// The selector-free form of `val`, which must hold no selector.
    pub fn from(val: Expression<F>) -> (r: Self)
        requires
            val.spec_selector_free(),
        ensures
            r == val.spec_to_mid(),
        decreases val,
    {
        match val {
            Expression::Constant(c) => ExpressionMid::Constant(c),
            Expression::Selector(_) => {
                proof {
                    assert(false);
                }
                ExpressionMid::Challenge(ChallengeMid { index: 0, phase: 0 })
            },
            Expression::Fixed(FixedQuery { column_index, rotation, .. }) => ExpressionMid::Fixed(
                FixedQueryMid { column_index, rotation },
            ),
            Expression::Advice(AdviceQuery { column_index, rotation, phase, .. }) => {
                ExpressionMid::Advice(AdviceQueryMid { column_index, rotation, phase: phase.0 })
            },
            Expression::Instance(InstanceQuery { column_index, rotation, .. }) => {
                ExpressionMid::Instance(InstanceQueryMid { column_index, rotation })
            },
            Expression::Challenge(c) => ExpressionMid::Challenge(
                ChallengeMid { index: c.index, phase: c.phase },
            ),
            Expression::Negated(e) => ExpressionMid::Negated(Box::new(ExpressionMid::from(*e))),
            Expression::Sum(lhs, rhs) => ExpressionMid::Sum(
                Box::new(ExpressionMid::from(*lhs)),
                Box::new(ExpressionMid::from(*rhs)),
            ),
            Expression::Product(lhs, rhs) => ExpressionMid::Product(
                Box::new(ExpressionMid::from(*lhs)),
                Box::new(ExpressionMid::from(*rhs)),
            ),
            Expression::Scaled(e, c) => ExpressionMid::Scaled(
                Box::new(ExpressionMid::from(*e)),
                c,
            ),
        }
    }
}

/// The three lists of distinct queries.
pub struct QueryLists {
    pub advice: Seq<(Column<Advice>, Rotation)>,
    pub instance: Seq<(Column<Instance>, Rotation)>,
    pub fixed: Seq<(Column<Fixed>, Rotation)>,
}

impl QueryLists {
    /// The lists without a query.
    pub open spec fn spec_empty() -> QueryLists {
        QueryLists { advice: Seq::empty(), instance: Seq::empty(), fixed: Seq::empty() }
    }

    /// The lists with a query of `column` at the current row interned.
    pub open spec fn spec_add_column(self, column: ColumnMid) -> QueryLists {
        match column.column_type {
            Any::Instance => QueryLists {
                instance: spec_interned(
                    self.instance,
                    (Column { index: column.index, column_type: Instance }, Rotation(0)),
                ),
                ..self
            },
            Any::Fixed => QueryLists {
                fixed: spec_interned(
                    self.fixed,
                    (Column { index: column.index, column_type: Fixed }, Rotation(0)),
                ),
                ..self
            },
            Any::Advice(advice) => QueryLists {
                advice: spec_interned(
                    self.advice,
                    (Column { index: column.index, column_type: advice }, Rotation(0)),
                ),
                ..self
            },
        }
    }

    /// The lists with a query of each of `columns` at the current row
    /// interned, one after the other.
    pub open spec fn spec_add_columns(self, columns: Seq<ColumnMid>) -> QueryLists
        decreases columns.len(),
    {
        if columns.len() == 0 {
            self
        } else {
            self.spec_add_columns(columns.drop_last()).spec_add_column(columns.last())
        }
    }
}

impl<F> ExpressionMid<F> {
    /// The expression with every query indexed, and the lists with the
    /// queries interned, from left to right.
    pub open spec fn spec_as_expression(self, lists: QueryLists) -> (Expression<F>, QueryLists)
        decreases self,
    {
        match self {
            ExpressionMid::Constant(c) => (Expression::Constant(c), lists),
            ExpressionMid::Fixed(query) => {
                let q = (Column { index: query.column_index, column_type: Fixed }, query.rotation);
                (
                    Expression::Fixed(
                        FixedQuery {
                            index: Some(spec_query_index(lists.fixed, q) as usize),
                            column_index: query.column_index,
                            rotation: query.rotation,
                        },
                    ),
                    QueryLists { fixed: spec_interned(lists.fixed, q), ..lists },
                )
            },
            ExpressionMid::Advice(query) => {
                let q = (
                    Column { index: query.column_index, column_type: Advice { phase: query.phase } },
                    query.rotation,
                );
                (
                    Expression::Advice(
                        AdviceQuery {
                            index: Some(spec_query_index(lists.advice, q) as usize),
                            column_index: query.column_index,
                            rotation: query.rotation,
                            phase: sealed::Phase(query.phase),
                        },
                    ),
                    QueryLists { advice: spec_interned(lists.advice, q), ..lists },
                )
            },
            ExpressionMid::Instance(query) => {
                let q = (
                    Column { index: query.column_index, column_type: Instance },
                    query.rotation,
                );
                (
                    Expression::Instance(
                        InstanceQuery {
                            index: Some(spec_query_index(lists.instance, q) as usize),
                            column_index: query.column_index,
                            rotation: query.rotation,
                        },
                    ),
                    QueryLists { instance: spec_interned(lists.instance, q), ..lists },
                )
            },
            ExpressionMid::Challenge(c) => (
                Expression::Challenge(Challenge { index: c.index, phase: c.phase }),
                lists,
            ),
            ExpressionMid::Negated(e) => {
                let (x, after) = e.spec_as_expression(lists);
                (Expression::Negated(Box::new(x)), after)
            },
            ExpressionMid::Sum(lhs, rhs) => {
                let (x, mid) = lhs.spec_as_expression(lists);
                let (y, after) = rhs.spec_as_expression(mid);
                (Expression::Sum(Box::new(x), Box::new(y)), after)
            },
            ExpressionMid::Product(lhs, rhs) => {
                let (x, mid) = lhs.spec_as_expression(lists);
                let (y, after) = rhs.spec_as_expression(mid);
                (Expression::Product(Box::new(x), Box::new(y)), after)
            },
            ExpressionMid::Scaled(e, c) => {
                let (x, after) = e.spec_as_expression(lists);
                (Expression::Scaled(Box::new(x), c), after)
            },
        }
    }
}

/// The expressions of `exprs` with their queries indexed, one expression
/// after the other, and the lists after the last.
pub open spec fn spec_as_expressions<F>(exprs: Seq<ExpressionMid<F>>, lists: QueryLists) -> (
    Seq<Expression<F>>,
    QueryLists,
)
    decreases exprs.len(),
{
    if exprs.len() == 0 {
        (Seq::empty(), lists)
    } else {
        let (done, mid) = spec_as_expressions(exprs.drop_last(), lists);
        let (expr, after) = exprs.last().spec_as_expression(mid);
        (done.push(expr), after)
    }
}

/// The lists of distinct queries, with the lookup of a query's index.
#[derive(Debug)]
pub struct QueriesMap {
    pub advice: Vec<(Column<Advice>, Rotation)>,
    pub instance: Vec<(Column<Instance>, Rotation)>,
    pub fixed: Vec<(Column<Fixed>, Rotation)>,
}

/// The distinct queries of a constraint system, and for each advice column
/// the number of distinct queries into it.
#[derive(Debug)]
pub struct Queries {
    pub advice: Vec<(Column<Advice>, Rotation)>,
    pub instance: Vec<(Column<Instance>, Rotation)>,
    pub fixed: Vec<(Column<Fixed>, Rotation)>,
    pub num_advice_queries: Vec<usize>,
}

impl QueriesMap {
    /// The three lists.
    pub open spec fn spec_lists(&self) -> QueryLists {
        QueryLists { advice: self.advice@, instance: self.instance@, fixed: self.fixed@ }
    }

    /// Index of the advice query of `col` at `rot`, which is added to the
    /// list if it is new.
    pub fn add_advice(&mut self, col: Column<Advice>, rot: Rotation) -> (r: usize)
        ensures
            r == spec_query_index(old(self).advice@, (col, rot)),
            final(self).spec_lists() == (QueryLists {
                advice: spec_interned(old(self).advice@, (col, rot)),
                ..old(self).spec_lists()
            }),
    {
        let mut index: usize = 0;
        while index < self.advice.len()
            invariant
                index <= self.advice.len(),
                *self == *old(self),
                forall|j: int| 0 <= j < index ==> self.advice@[j] != (col, rot),
            decreases self.advice.len() - index,
        {
            let query = self.advice[index];
            if query.0.same(&col) && query.1 == rot {
                proof {
                    super::system::lemma_query_index_found(self.advice@, (col, rot), index as int);
                }
                return index;
            }
            index += 1;
        }
        proof {
            super::system::lemma_query_index_found(self.advice@, (col, rot), index as int);
        }
        self.advice.push((col, rot));
        index
    }

    /// Index of the instance query of `col` at `rot`, which is added to the
    /// list if it is new.
    pub fn add_instance(&mut self, col: Column<Instance>, rot: Rotation) -> (r: usize)
        ensures
            r == spec_query_index(old(self).instance@, (col, rot)),
            final(self).spec_lists() == (QueryLists {
                instance: spec_interned(old(self).instance@, (col, rot)),
                ..old(self).spec_lists()
            }),
    {
        let mut index: usize = 0;
        while index < self.instance.len()
            invariant
                index <= self.instance.len(),
                *self == *old(self),
                forall|j: int| 0 <= j < index ==> self.instance@[j] != (col, rot),
            decreases self.instance.len() - index,
        {
            let query = self.instance[index];
            if query.0.same(&col) && query.1 == rot {
                proof {
                    super::system::lemma_query_index_found(self.instance@, (col, rot), index as int);
                }
                return index;
            }
            index += 1;
        }
        proof {
            super::system::lemma_query_index_found(self.instance@, (col, rot), index as int);
        }
        self.instance.push((col, rot));
        index
    }

    /// Index of the fixed query of `col` at `rot`, which is added to the
    /// list if it is new.
    pub fn add_fixed(&mut self, col: Column<Fixed>, rot: Rotation) -> (r: usize)
        ensures
            r == spec_query_index(old(self).fixed@, (col, rot)),
            final(self).spec_lists() == (QueryLists {
                fixed: spec_interned(old(self).fixed@, (col, rot)),
                ..old(self).spec_lists()
            }),
    {
        let mut index: usize = 0;
        while index < self.fixed.len()
            invariant
                index <= self.fixed.len(),
                *self == *old(self),
                forall|j: int| 0 <= j < index ==> self.fixed@[j] != (col, rot),
            decreases self.fixed.len() - index,
        {
            let query = self.fixed[index];
            if query.0.same(&col) && query.1 == rot {
                proof {
                    super::system::lemma_query_index_found(self.fixed@, (col, rot), index as int);
                }
                return index;
            }
            index += 1;
        }
        proof {
            super::system::lemma_query_index_found(self.fixed@, (col, rot), index as int);
        }
        self.fixed.push((col, rot));
        index
    }

    /// The expression `expr` with every query interned and indexed.
    pub fn as_expression<F: Copy>(&mut self, expr: &ExpressionMid<F>) -> (r: Expression<F>)
        ensures
            (r, final(self).spec_lists()) == expr.spec_as_expression(old(self).spec_lists()),
        decreases expr,
    {
        match expr {
            ExpressionMid::Constant(c) => Expression::Constant(*c),
            ExpressionMid::Fixed(query) => {
                let (col, rot) = (Column::new(query.column_index, Fixed), query.rotation);
                let index = self.add_fixed(col, rot);
                Expression::Fixed(
                    FixedQuery {
                        index: Some(index),
                        column_index: query.column_index,
                        rotation: query.rotation,
                    },
                )
            },
            ExpressionMid::Advice(query) => {
                let (col, rot) = (
                    Column::new(query.column_index, Advice { phase: query.phase }),
                    query.rotation,
                );
                let index = self.add_advice(col, rot);
                Expression::Advice(
                    AdviceQuery {
                        index: Some(index),
                        column_index: query.column_index,
                        rotation: query.rotation,
                        phase: sealed::Phase(query.phase),
                    },
                )
            },
            ExpressionMid::Instance(query) => {
                let (col, rot) = (Column::new(query.column_index, Instance), query.rotation);
                let index = self.add_instance(col, rot);
                Expression::Instance(
                    InstanceQuery {
                        index: Some(index),
                        column_index: query.column_index,
                        rotation: query.rotation,
                    },
                )
            },
            ExpressionMid::Challenge(c) => Expression::Challenge(
                Challenge { index: c.index, phase: c.phase },
            ),
            ExpressionMid::Negated(e) => Expression::Negated(Box::new(self.as_expression(e))),
            ExpressionMid::Sum(lhs, rhs) => {
                let x = self.as_expression(lhs);
                let y = self.as_expression(rhs);
                Expression::Sum(Box::new(x), Box::new(y))
            },
            ExpressionMid::Product(lhs, rhs) => {
                let x = self.as_expression(lhs);
                let y = self.as_expression(rhs);
                Expression::Product(Box::new(x), Box::new(y))
            },
            ExpressionMid::Scaled(e, c) => Expression::Scaled(
                Box::new(self.as_expression(e)),
                *c,
            ),
        }
    }

    /// The expressions of `exprs` with every query interned and indexed.
    pub fn as_expressions<F: Copy>(&mut self, exprs: &Vec<ExpressionMid<F>>) -> (r: Vec<
        Expression<F>,
    >)
        ensures
            (r@, final(self).spec_lists()) == spec_as_expressions(exprs@, old(self).spec_lists()),
    {
        let mut out: Vec<Expression<F>> = Vec::new();
        let mut i: usize = 0;
        while i < exprs.len()
            invariant
                i <= exprs.len(),
                (out@, self.spec_lists()) == spec_as_expressions(
                    exprs@.subrange(0, i as int),
                    old(self).spec_lists(),
                ),
            decreases exprs.len() - i,
        {
            proof {
                assert(exprs@.subrange(0, i + 1).drop_last() =~= exprs@.subrange(0, i as int));
                assert(exprs@.subrange(0, i + 1).last() == exprs@[i as int]);
            }
            let expr = self.as_expression(&exprs[i]);
            out.push(expr);
            i += 1;
        }
        proof {
            assert(exprs@.subrange(0, exprs@.len() as int) =~= exprs@);
        }
        out
    }
}

} // verus!

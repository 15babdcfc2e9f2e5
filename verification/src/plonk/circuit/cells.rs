//! Virtual cells: the handle through which a gate or an argument queries
//! columns, and the walk that interns the queries of an expression.

use super::column::{AdviceQuery, Challenge, Column, FixedQuery, InstanceQuery, Selector};
use super::expression::Expression;
use super::gate::VirtualCell;
use super::queries::spec_counted;
use super::sealed;
use super::system::{spec_interned, spec_query_index, ConstraintSystem};
use crate::middleware::{Advice, Any, ColumnType, Fixed, Instance, Rotation};
use vstd::prelude::*;

verus! {

/// Exposes the "virtual cells" that can be queried while creating a custom
/// gate or lookup table. While a gate or an argument is built, the handle
/// holds the constraint system that the queries go into.
#[derive(Debug)]
pub struct VirtualCells<F> {
    pub meta: ConstraintSystem<F>,
    pub queried_selectors: Vec<Selector>,
    pub queried_cells: Vec<VirtualCell>,
}

/// The tables that querying changes: the three query lists, the query
/// counters of the advice columns, and the selectors and cells queried so
/// far.
pub struct QueryState {
    pub fixed: Seq<(Column<Fixed>, Rotation)>,
    pub advice: Seq<(Column<Advice>, Rotation)>,
    pub counters: Seq<usize>,
    pub instance: Seq<(Column<Instance>, Rotation)>,
    pub selectors: Seq<Selector>,
    pub cells: Seq<VirtualCell>,
}

impl QueryState {
    /// The indexed query of the fixed column `column` at `at`, and the state
    /// after it: the cell is recorded and the query interned.
    pub open spec fn spec_query_fixed(self, column: Column<Fixed>, at: Rotation) -> (
        FixedQuery,
        QueryState,
    ) {
        (
            FixedQuery {
                index: Some(spec_query_index(self.fixed, (column, at)) as usize),
                column_index: column.index,
                rotation: at,
            },
            QueryState {
                fixed: spec_interned(self.fixed, (column, at)),
                cells: self.cells.push(VirtualCell { column: column.spec_any(), rotation: at }),
                ..self
            },
        )
    }

    /// The indexed query of the advice column `column` at `at`, and the
    /// state after it: the cell is recorded, the query interned and, if it
    /// is new, counted for the column.
    pub open spec fn spec_query_advice(self, column: Column<Advice>, at: Rotation) -> (
        AdviceQuery,
        QueryState,
    ) {
        (
            AdviceQuery {
                index: Some(spec_query_index(self.advice, (column, at)) as usize),
                column_index: column.index,
                rotation: at,
                phase: sealed::Phase(column.column_type.phase),
            },
            QueryState {
                advice: spec_interned(self.advice, (column, at)),
                counters: spec_counted(self.counters, self.advice, (column, at)),
                cells: self.cells.push(VirtualCell { column: column.spec_any(), rotation: at }),
                ..self
            },
        )
    }

    /// The indexed query of the instance column `column` at `at`, and the
    /// state after it: the cell is recorded and the query interned.
    pub open spec fn spec_query_instance(self, column: Column<Instance>, at: Rotation) -> (
        InstanceQuery,
        QueryState,
    ) {
        (
            InstanceQuery {
                index: Some(spec_query_index(self.instance, (column, at)) as usize),
                column_index: column.index,
                rotation: at,
            },
            QueryState {
                instance: spec_interned(self.instance, (column, at)),
                cells: self.cells.push(VirtualCell { column: column.spec_any(), rotation: at }),
                ..self
            },
        )
    }
}

impl<F> Expression<F> {
    /// Whether every advice query of the expression that has no index yet
    /// goes into one of the first `n` advice columns.
    pub open spec fn spec_advice_below(self, n: nat) -> bool
        decreases self,
    {
        match self {
            Expression::Advice(q) => q.index.is_some() || q.column_index < n,
            Expression::Negated(a) => a.spec_advice_below(n),
            Expression::Sum(a, b) => a.spec_advice_below(n) && b.spec_advice_below(n),
            Expression::Product(a, b) => a.spec_advice_below(n) && b.spec_advice_below(n),
            Expression::Scaled(a, _) => a.spec_advice_below(n),
            _ => true,
        }
    }

    /// The expression with every query indexed, and the state after the
    /// walk. The walk goes through the leaves from left to right. A selector
    /// is recorded unless it is recorded already. A query that has no index
    /// yet is recorded as a cell, interned, and given its index; a query
    /// that has an index is left alone.
    pub open spec fn spec_query_cells(self, st: QueryState) -> (Expression<F>, QueryState)
        decreases self,
    {
        match self {
            Expression::Constant(_) => (self, st),
            Expression::Selector(s) => (
                self,
                if st.selectors.contains(s) {
                    st
                } else {
                    QueryState { selectors: st.selectors.push(s), ..st }
                },
            ),
            Expression::Fixed(q) => if q.index.is_none() {
                let (query, after) = st.spec_query_fixed(
                    Column { index: q.column_index, column_type: Fixed },
                    q.rotation,
                );
                (Expression::Fixed(query), after)
            } else {
                (self, st)
            },
            Expression::Advice(q) => if q.index.is_none() {
                let (query, after) = st.spec_query_advice(
                    Column { index: q.column_index, column_type: Advice { phase: q.phase.0 } },
                    q.rotation,
                );
                (Expression::Advice(query), after)
            } else {
                (self, st)
            },
            Expression::Instance(q) => if q.index.is_none() {
                let (query, after) = st.spec_query_instance(
                    Column { index: q.column_index, column_type: Instance },
                    q.rotation,
                );
                (Expression::Instance(query), after)
            } else {
                (self, st)
            },
            Expression::Challenge(_) => (self, st),
            Expression::Negated(a) => {
                let (x, after) = a.spec_query_cells(st);
                (Expression::Negated(Box::new(x)), after)
            },
            Expression::Sum(a, b) => {
                let (x, mid) = a.spec_query_cells(st);
                let (y, after) = b.spec_query_cells(mid);
                (Expression::Sum(Box::new(x), Box::new(y)), after)
            },
            Expression::Product(a, b) => {
                let (x, mid) = a.spec_query_cells(st);
                let (y, after) = b.spec_query_cells(mid);
                (Expression::Product(Box::new(x), Box::new(y)), after)
            },
            Expression::Scaled(a, f) => {
                let (x, after) = a.spec_query_cells(st);
                (Expression::Scaled(Box::new(x), f), after)
            },
        }
    }
}

/// Whether `selector` is one of `selectors`.
pub fn contains_selector(selectors: &Vec<Selector>, selector: &Selector) -> (r: bool)
    ensures
        r == selectors@.contains(*selector),
{
    let mut i: usize = 0;
    while i < selectors.len()
        invariant
            i <= selectors.len(),
            forall|j: int| 0 <= j < i ==> selectors@[j] != *selector,
        decreases selectors.len() - i,
    {
        if selectors[i] == *selector {
            return true;
        }
        i += 1;
    }
    false
}

impl<F> VirtualCells<F> {
    /// The tables of the handle that querying changes.
    pub open spec fn spec_state(&self) -> QueryState {
        QueryState {
            fixed: self.meta.fixed_queries@,
            advice: self.meta.advice_queries@,
            counters: self.meta.num_advice_queries@,
            instance: self.meta.instance_queries@,
            selectors: self.queried_selectors@,
            cells: self.queried_cells@,
        }
    }

    /// Whether `after` differs from `self` in nothing but the tables that
    /// querying changes.
    pub open spec fn spec_frame(&self, after: &Self) -> bool {
        after.meta == (ConstraintSystem {
            fixed_queries: after.meta.fixed_queries,
            advice_queries: after.meta.advice_queries,
            num_advice_queries: after.meta.num_advice_queries,
            instance_queries: after.meta.instance_queries,
            ..self.meta
        })
    }

    /// Whether the handle is as it is made for `meta`: it holds `meta`, and
    /// no selector or cell was queried through it.
    pub open spec fn spec_is_fresh(&self, meta: ConstraintSystem<F>) -> bool {
        &&& self.meta == meta
        &&& self.queried_selectors@.len() == 0
        &&& self.queried_cells@.len() == 0
    }

    /// A handle for querying into `meta`.
    pub fn new(meta: ConstraintSystem<F>) -> (r: Self)
        ensures
            r.spec_is_fresh(meta),
    {
        VirtualCells { meta, queried_selectors: Vec::new(), queried_cells: Vec::new() }
    }

    /// Query a selector at the current position.
    pub fn query_selector(&mut self, selector: Selector) -> (r: Expression<F>)
        ensures
            r == Expression::<F>::Selector(selector),
            final(self).queried_selectors@ == old(self).queried_selectors@.push(selector),
            *final(self) == (VirtualCells {
                queried_selectors: final(self).queried_selectors,
                ..*old(self)
            }),
    {
        self.queried_selectors.push(selector);
        Expression::Selector(selector)
    }

    /// Query a fixed column at a relative position.
    pub fn query_fixed(&mut self, column: Column<Fixed>, at: Rotation) -> (r: Expression<F>)
        ensures
            r == Expression::<F>::Fixed(old(self).spec_state().spec_query_fixed(column, at).0),
            final(self).spec_state() == old(self).spec_state().spec_query_fixed(column, at).1,
            old(self).spec_frame(final(self)),
            old(self).meta.spec_wf() ==> final(self).meta.spec_wf(),
    {
        self.queried_cells.push(
            VirtualCell { column: Column { index: column.index, column_type: Any::Fixed }, rotation: at },
        );
        Expression::Fixed(
            FixedQuery {
                index: Some(self.meta.query_fixed_index(column, at)),
                column_index: column.index,
                rotation: at,
            },
        )
    }

    /// Query an advice column at a relative position. The column must be
    /// one that was allocated.
    pub fn query_advice(&mut self, column: Column<Advice>, at: Rotation) -> (r: Expression<F>)
        requires
            old(self).meta.spec_wf(),
            column.index < old(self).meta.num_advice_columns,
        ensures
            r == Expression::<F>::Advice(old(self).spec_state().spec_query_advice(column, at).0),
            final(self).spec_state() == old(self).spec_state().spec_query_advice(column, at).1,
            old(self).spec_frame(final(self)),
            final(self).meta.spec_wf(),
    {
        self.queried_cells.push(
            VirtualCell {
                column: Column { index: column.index, column_type: Any::Advice(column.column_type) },
                rotation: at,
            },
        );
        Expression::Advice(
            AdviceQuery {
                index: Some(self.meta.query_advice_index(column, at)),
                column_index: column.index,
                rotation: at,
                phase: sealed::Phase(column.column_type.phase),
            },
        )
    }

    /// Query an instance column at a relative position.
    pub fn query_instance(&mut self, column: Column<Instance>, at: Rotation) -> (r: Expression<F>)
        ensures
            r == Expression::<F>::Instance(
                old(self).spec_state().spec_query_instance(column, at).0,
            ),
            final(self).spec_state() == old(self).spec_state().spec_query_instance(column, at).1,
            old(self).spec_frame(final(self)),
            old(self).meta.spec_wf() ==> final(self).meta.spec_wf(),
    {
        self.queried_cells.push(
            VirtualCell {
                column: Column { index: column.index, column_type: Any::Instance },
                rotation: at,
            },
        );
        Expression::Instance(
            InstanceQuery {
                index: Some(self.meta.query_instance_index(column, at)),
                column_index: column.index,
                rotation: at,
            },
        )
    }

    /// The query of a column of any kind at `at`, and the state after it.
    pub open spec fn spec_query_any(st: QueryState, column: Column<Any>, at: Rotation) -> (
        Expression<F>,
        QueryState,
    ) {
        match column.column_type {
            Any::Advice(advice) => {
                let (q, after) = st.spec_query_advice(
                    Column { index: column.index, column_type: advice },
                    at,
                );
                (Expression::Advice(q), after)
            },
            Any::Fixed => {
                let (q, after) = st.spec_query_fixed(
                    Column { index: column.index, column_type: Fixed },
                    at,
                );
                (Expression::Fixed(q), after)
            },
            Any::Instance => {
                let (q, after) = st.spec_query_instance(
                    Column { index: column.index, column_type: Instance },
                    at,
                );
                (Expression::Instance(q), after)
            },
        }
    }

    /// Query an Any column at a relative position. An advice column must be
    /// one that was allocated.
    pub fn query_any(&mut self, column: Column<Any>, at: Rotation) -> (r: Expression<F>)
        requires
            old(self).meta.spec_can_query(column),
        ensures
            r == Self::spec_query_any(old(self).spec_state(), column, at).0,
            final(self).spec_state() == Self::spec_query_any(old(self).spec_state(), column, at).1,
            old(self).spec_frame(final(self)),
            old(self).meta.spec_wf() ==> final(self).meta.spec_wf(),
    {
        match column.column_type {
            Any::Advice(advice) => self.query_advice(
                Column { index: column.index, column_type: advice },
                at,
            ),
            Any::Fixed => self.query_fixed(Column { index: column.index, column_type: Fixed }, at),
            Any::Instance => self.query_instance(
                Column { index: column.index, column_type: Instance },
                at,
            ),
        }
    }

    /// Query a challenge.
    pub fn query_challenge(&mut self, challenge: Challenge) -> (r: Expression<F>)
        ensures
            r == Expression::<F>::Challenge(challenge),
            *final(self) == *old(self),
    {
        Expression::Challenge(challenge)
    }
}

impl<F> Expression<F> {
    /// Make side effects: walks the expression, records the selectors and
    /// cells that it queries in `cells`, interns its queries and gives each
    /// query its index. An advice query without an index must go into an
    /// allocated column.
    pub fn query_cells(&mut self, cells: &mut VirtualCells<F>)
        requires
            old(cells).meta.spec_wf(),
            old(self).spec_advice_below(old(cells).meta.num_advice_columns as nat),
        ensures
            (*final(self), final(cells).spec_state()) == old(self).spec_query_cells(
                old(cells).spec_state(),
            ),
            old(cells).spec_frame(final(cells)),
            final(cells).meta.spec_wf(),
        decreases *old(self),
    {
        match self {
            Expression::Constant(_) => (),
            Expression::Selector(selector) => {
                if !contains_selector(&cells.queried_selectors, selector) {
                    cells.queried_selectors.push(*selector);
                }
            },
            Expression::Fixed(query) => {
                if query.index.is_none() {
                    let col = Column { index: query.column_index, column_type: Fixed };
                    cells.queried_cells.push(
                        VirtualCell {
                            column: Column { index: col.index, column_type: Any::Fixed },
                            rotation: query.rotation,
                        },
                    );
                    query.index = Some(cells.meta.query_fixed_index(col, query.rotation));
                }
            },
            Expression::Advice(query) => {
                if query.index.is_none() {
                    let col = Column {
                        index: query.column_index,
                        column_type: Advice { phase: query.phase.0 },
                    };
                    cells.queried_cells.push(
                        VirtualCell {
                            column: Column {
                                index: col.index,
                                column_type: Any::Advice(col.column_type),
                            },
                            rotation: query.rotation,
                        },
                    );
                    query.index = Some(cells.meta.query_advice_index(col, query.rotation));
                }
            },
            Expression::Instance(query) => {
                if query.index.is_none() {
                    let col = Column { index: query.column_index, column_type: Instance };
                    cells.queried_cells.push(
                        VirtualCell {
                            column: Column { index: col.index, column_type: Any::Instance },
                            rotation: query.rotation,
                        },
                    );
                    query.index = Some(cells.meta.query_instance_index(col, query.rotation));
                }
            },
            Expression::Challenge(_) => (),
            Expression::Negated(a) => a.query_cells(cells),
            Expression::Sum(a, b) => {
                a.query_cells(cells);
                b.query_cells(cells);
            },
            Expression::Product(a, b) => {
                a.query_cells(cells);
                b.query_cells(cells);
            },
            Expression::Scaled(a, _) => a.query_cells(cells),
        };
    }
}

} // verus!

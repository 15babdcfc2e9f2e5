//! Interning of column queries, equality-enabled columns and annotations.

use super::column::{Column, TableColumn};
use super::system::{
    lemma_count_queries_bounded, lemma_query_index_found, spec_count_queries, spec_interned,
    spec_query_index, ConstraintSystem,
};
use crate::middleware::{Advice, Any, Fixed, Instance, MetadataColumn, Rotation};
use vstd::prelude::*;

verus! {

/// The query counters after a query into the advice column `column_index`
/// was interned: the column's counter is one higher if the query is new.
pub open spec fn spec_counted(
    counters: Seq<usize>,
    queries: Seq<(Column<Advice>, Rotation)>,
    query: (Column<Advice>, Rotation),
) -> Seq<usize> {
    if queries.contains(query) {
        counters
    } else {
        counters.update(query.0.index as int, (counters[query.0.index as int] + 1) as usize)
    }
}

/// The text that `entries` holds for `key`, if any.
pub open spec fn spec_annotation(entries: Seq<(MetadataColumn, String)>, key: MetadataColumn) -> Option<
    Seq<char>,
>
    decreases entries.len(),
{
    if entries.len() == 0 {
        None
    } else if entries[0].0 == key {
        Some(entries[0].1@)
    } else {
        spec_annotation(entries.subrange(1, entries.len() as int), key)
    }
}

impl<F> ConstraintSystem<F> {
    /// Index of the query of `column` at `at` among the fixed queries; the
    /// query is added to them if it is new.
    pub fn query_fixed_index(&mut self, column: Column<Fixed>, at: Rotation) -> (r: usize)
        ensures
            r == spec_query_index(old(self).fixed_queries@, (column, at)),
            final(self).fixed_queries@ == spec_interned(old(self).fixed_queries@, (column, at)),
            *final(self) == (ConstraintSystem {
                fixed_queries: final(self).fixed_queries,
                ..*old(self)
            }),
            old(self).spec_wf() ==> final(self).spec_wf(),
    {
        let mut index: usize = 0;
        while index < self.fixed_queries.len()
            invariant
                index <= self.fixed_queries.len(),
                *self == *old(self),
                forall|j: int| 0 <= j < index ==> self.fixed_queries@[j] != (column, at),
            decreases self.fixed_queries.len() - index,
        {
            let query = self.fixed_queries[index];
            if query.0.same(&column) && query.1 == at {
                proof {
                    lemma_query_index_found(self.fixed_queries@, (column, at), index as int);
                }
                return index;
            }
            index += 1;
        }
        proof {
            lemma_query_index_found(self.fixed_queries@, (column, at), index as int);
        }
        self.fixed_queries.push((column, at));
        index
    }

    /// Index of the query of `column` at `at` among the advice queries; the
    /// query is added to them, and counted for its column, if it is new.
    pub fn query_advice_index(&mut self, column: Column<Advice>, at: Rotation) -> (r: usize)
        requires
            old(self).spec_wf(),
            column.index < old(self).num_advice_columns,
        ensures
            r == spec_query_index(old(self).advice_queries@, (column, at)),
            final(self).advice_queries@ == spec_interned(old(self).advice_queries@, (column, at)),
            final(self).num_advice_queries@ == spec_counted(
                old(self).num_advice_queries@,
                old(self).advice_queries@,
                (column, at),
            ),
            *final(self) == (ConstraintSystem {
                advice_queries: final(self).advice_queries,
                num_advice_queries: final(self).num_advice_queries,
                ..*old(self)
            }),
            final(self).spec_wf(),
    {
        let mut index: usize = 0;
        while index < self.advice_queries.len()
            invariant
                index <= self.advice_queries.len(),
                *self == *old(self),
                self.spec_wf(),
                forall|j: int| 0 <= j < index ==> self.advice_queries@[j] != (column, at),
            decreases self.advice_queries.len() - index,
        {
            let query = self.advice_queries[index];
            if query.0.same(&column) && query.1 == at {
                proof {
                    lemma_query_index_found(self.advice_queries@, (column, at), index as int);
                }
                return index;
            }
            index += 1;
        }
        proof {
            lemma_query_index_found(self.advice_queries@, (column, at), index as int);
            lemma_count_queries_bounded(self.advice_queries@, column.index as int);
        }
        self.advice_queries.push((column, at));
        let total = self.advice_queries.len();
        let count = self.num_advice_queries[column.index];
        self.num_advice_queries[column.index] = count + 1;
        proof {
            let before = old(self).advice_queries@;
            let after = self.advice_queries@;
            assert(after.drop_last() =~= before);
            assert forall|c: int| 0 <= c < self.num_advice_columns implies (
            #[trigger] self.num_advice_queries@[c]) == spec_count_queries(after, c) by {
                assert(old(self).num_advice_queries@[c] == spec_count_queries(before, c));
            }
        }
        index
    }

    /// Index of the query of `column` at `at` among the instance queries;
    /// the query is added to them if it is new.
    pub fn query_instance_index(&mut self, column: Column<Instance>, at: Rotation) -> (r: usize)
        ensures
            r == spec_query_index(old(self).instance_queries@, (column, at)),
            final(self).instance_queries@ == spec_interned(
                old(self).instance_queries@,
                (column, at),
            ),
            *final(self) == (ConstraintSystem {
                instance_queries: final(self).instance_queries,
                ..*old(self)
            }),
            old(self).spec_wf() ==> final(self).spec_wf(),
    {
        let mut index: usize = 0;
        while index < self.instance_queries.len()
            invariant
                index <= self.instance_queries.len(),
                *self == *old(self),
                forall|j: int| 0 <= j < index ==> self.instance_queries@[j] != (column, at),
            decreases self.instance_queries.len() - index,
        {
            let query = self.instance_queries[index];
            if query.0.same(&column) && query.1 == at {
                proof {
                    lemma_query_index_found(self.instance_queries@, (column, at), index as int);
                }
                return index;
            }
            index += 1;
        }
        proof {
            lemma_query_index_found(self.instance_queries@, (column, at), index as int);
        }
        self.instance_queries.push((column, at));
        index
    }

    /// The index that interning a query of `column` at `at` gives.
    pub open spec fn spec_any_query_index(&self, column: Column<Any>, at: Rotation) -> int {
        match column.column_type {
            Any::Advice(advice) => spec_query_index(
                self.advice_queries@,
                (Column { index: column.index, column_type: advice }, at),
            ),
            Any::Fixed => spec_query_index(
                self.fixed_queries@,
                (Column { index: column.index, column_type: Fixed }, at),
            ),
            Any::Instance => spec_query_index(
                self.instance_queries@,
                (Column { index: column.index, column_type: Instance }, at),
            ),
        }
    }

    /// Whether `after` is `self` after a query of `column` at `at` was
    /// interned: the query is in the list of its kind, an advice query is
    /// counted, and nothing else differs.
    pub open spec fn spec_any_query_interned(
        &self,
        after: &Self,
        column: Column<Any>,
        at: Rotation,
    ) -> bool {
        match column.column_type {
            Any::Advice(advice) => {
                let query = (Column { index: column.index, column_type: advice }, at);
                &&& after.advice_queries@ == spec_interned(self.advice_queries@, query)
                &&& after.num_advice_queries@ == spec_counted(
                    self.num_advice_queries@,
                    self.advice_queries@,
                    query,
                )
                &&& *after == (ConstraintSystem {
                    advice_queries: after.advice_queries,
                    num_advice_queries: after.num_advice_queries,
                    ..*self
                })
            },
            Any::Fixed => {
                let query = (Column { index: column.index, column_type: Fixed }, at);
                &&& after.fixed_queries@ == spec_interned(self.fixed_queries@, query)
                &&& *after == (ConstraintSystem { fixed_queries: after.fixed_queries, ..*self })
            },
            Any::Instance => {
                let query = (Column { index: column.index, column_type: Instance }, at);
                &&& after.instance_queries@ == spec_interned(self.instance_queries@, query)
                &&& *after == (ConstraintSystem {
                    instance_queries: after.instance_queries,
                    ..*self
                })
            },
        }
    }

    /// Whether a query of `column` can be interned: an advice column must be
    /// allocated, and the system well formed.
    pub open spec fn spec_can_query(&self, column: Column<Any>) -> bool {
        column.column_type is Advice ==> self.spec_wf() && column.index < self.num_advice_columns
    }

    /// Index of the query of `column` at `at` among the queries of its kind;
    /// the query is added to them if it is new.
    pub fn query_any_index(&mut self, column: Column<Any>, at: Rotation) -> (r: usize)
        requires
            old(self).spec_can_query(column),
        ensures
            r == old(self).spec_any_query_index(column, at),
            old(self).spec_any_query_interned(final(self), column, at),
            old(self).spec_wf() ==> final(self).spec_wf(),
    {
        match column.column_type {
            Any::Advice(advice) => self.query_advice_index(
                Column { index: column.index, column_type: advice },
                at,
            ),
            Any::Fixed => self.query_fixed_index(
                Column { index: column.index, column_type: Fixed },
                at,
            ),
            Any::Instance => self.query_instance_index(
                Column { index: column.index, column_type: Instance },
                at,
            ),
        }
    }

    /// Index of the query of `column` at `at` among the advice queries.
    /// The query must be one of them.
    pub fn get_advice_query_index(&self, column: Column<Advice>, at: Rotation) -> (r: usize)
        requires
            self.advice_queries@.contains((column, at)),
        ensures
            r == spec_query_index(self.advice_queries@, (column, at)),
            r < self.advice_queries@.len(),
            self.advice_queries@[r as int] == (column, at),
    {
        let mut index: usize = 0;
        while index < self.advice_queries.len()
            invariant
                index <= self.advice_queries.len(),
                forall|j: int| 0 <= j < index ==> self.advice_queries@[j] != (column, at),
            decreases self.advice_queries.len() - index,
        {
            let query = self.advice_queries[index];
            if query.0.same(&column) && query.1 == at {
                proof {
                    lemma_query_index_found(self.advice_queries@, (column, at), index as int);
                }
                return index;
            }
            index += 1;
        }
        proof {
            lemma_query_index_found(self.advice_queries@, (column, at), index as int);
        }
        index
    }

    /// Index of the query of `column` at `at` among the fixed queries. The
    /// query must be one of them.
    pub fn get_fixed_query_index(&self, column: Column<Fixed>, at: Rotation) -> (r: usize)
        requires
            self.fixed_queries@.contains((column, at)),
        ensures
            r == spec_query_index(self.fixed_queries@, (column, at)),
            r < self.fixed_queries@.len(),
            self.fixed_queries@[r as int] == (column, at),
    {
        let mut index: usize = 0;
        while index < self.fixed_queries.len()
            invariant
                index <= self.fixed_queries.len(),
                forall|j: int| 0 <= j < index ==> self.fixed_queries@[j] != (column, at),
            decreases self.fixed_queries.len() - index,
        {
            let query = self.fixed_queries[index];
            if query.0.same(&column) && query.1 == at {
                proof {
                    lemma_query_index_found(self.fixed_queries@, (column, at), index as int);
                }
                return index;
            }
            index += 1;
        }
        proof {
            lemma_query_index_found(self.fixed_queries@, (column, at), index as int);
        }
        index
    }

    /// Index of the query of `column` at `at` among the instance queries.
    /// The query must be one of them.
    pub fn get_instance_query_index(&self, column: Column<Instance>, at: Rotation) -> (r: usize)
        requires
            self.instance_queries@.contains((column, at)),
        ensures
            r == spec_query_index(self.instance_queries@, (column, at)),
            r < self.instance_queries@.len(),
            self.instance_queries@[r as int] == (column, at),
    {
        let mut index: usize = 0;
        while index < self.instance_queries.len()
            invariant
                index <= self.instance_queries.len(),
                forall|j: int| 0 <= j < index ==> self.instance_queries@[j] != (column, at),
            decreases self.instance_queries.len() - index,
        {
            let query = self.instance_queries[index];
            if query.0.same(&column) && query.1 == at {
                proof {
                    lemma_query_index_found(self.instance_queries@, (column, at), index as int);
                }
                return index;
            }
            index += 1;
        }
        proof {
            lemma_query_index_found(self.instance_queries@, (column, at), index as int);
        }
        index
    }

    /// Whether the query of `column` at `at` is among the queries of its
    /// kind.
    pub open spec fn spec_has_any_query(&self, column: Column<Any>, at: Rotation) -> bool {
        match column.column_type {
            Any::Advice(advice) => self.advice_queries@.contains(
                (Column { index: column.index, column_type: advice }, at),
            ),
            Any::Fixed => self.fixed_queries@.contains(
                (Column { index: column.index, column_type: Fixed }, at),
            ),
            Any::Instance => self.instance_queries@.contains(
                (Column { index: column.index, column_type: Instance }, at),
            ),
        }
    }

    /// Index of the query of `column` at `at` among the queries of its kind.
    /// The query must be one of them.
    pub fn get_any_query_index(&self, column: Column<Any>, at: Rotation) -> (r: usize)
        requires
            self.spec_has_any_query(column, at),
        ensures
            r == self.spec_any_query_index(column, at),
    {
        match column.column_type {
            Any::Advice(advice) => self.get_advice_query_index(
                Column { index: column.index, column_type: advice },
                at,
            ),
            Any::Fixed => self.get_fixed_query_index(
                Column { index: column.index, column_type: Fixed },
                at,
            ),
            Any::Instance => self.get_instance_query_index(
                Column { index: column.index, column_type: Instance },
                at,
            ),
        }
    }

    /// Enable the ability to enforce equality over cells in this column:
    /// the column is queried at the current row and added to the
    /// permutation argument.
    pub fn enable_equality(&mut self, column: Column<Any>)
        requires
            old(self).spec_can_query(column),
        ensures
            exists|mid: Self|
                {
                    &&& #[trigger] old(self).spec_any_query_interned(&mid, column, Rotation(0))
                    &&& final(self).permutation.columns@ == spec_interned(
                        mid.permutation.columns@,
                        column,
                    )
                    &&& *final(self) == (ConstraintSystem {
                        permutation: final(self).permutation,
                        ..mid
                    })
                },
            old(self).spec_wf() ==> final(self).spec_wf(),
    {
        self.query_any_index(column, Rotation::cur());
        let ghost mid = *self;
        self.permutation.add_column(column);
        proof {
            assert(old(self).spec_any_query_interned(&mid, column, Rotation(0)));
        }
    }

    /// Whether `column` is among the columns that can hold constants.
    pub fn is_constant_column(&self, column: &Column<Fixed>) -> (r: bool)
        ensures
            r == self.constants@.contains(*column),
    {
        let mut i: usize = 0;
        while i < self.constants.len()
            invariant
                i <= self.constants.len(),
                forall|j: int| 0 <= j < i ==> self.constants@[j] != *column,
            decreases self.constants.len() - i,
        {
            if self.constants[i].same(column) {
                return true;
            }
            i += 1;
        }
        false
    }

    /// Enables this fixed column to be used for global constant
    /// assignments. The column will be equality-enabled. A column that is
    /// enabled already is left as it is.
    pub fn enable_constant(&mut self, column: Column<Fixed>)
        ensures
            old(self).constants@.contains(column) ==> *final(self) == *old(self),
            !old(self).constants@.contains(column) ==> exists|mid: Self|
                {
                    &&& #[trigger] old(self).spec_any_query_interned(
                        &mid,
                        column.spec_any(),
                        Rotation(0),
                    )
                    &&& final(self).permutation.columns@ == spec_interned(
                        mid.permutation.columns@,
                        column.spec_any(),
                    )
                    &&& final(self).constants@ == old(self).constants@.push(column)
                    &&& *final(self) == (ConstraintSystem {
                        permutation: final(self).permutation,
                        constants: final(self).constants,
                        ..mid
                    })
                },
            old(self).spec_wf() ==> final(self).spec_wf(),
    {
        if !self.is_constant_column(&column) {
            self.constants.push(column);
            let any = Column { index: column.index, column_type: Any::Fixed };
            let ghost pushed = *self;
            self.query_any_index(any, Rotation::cur());
            let ghost queried = *self;
            self.permutation.add_column(any);
            proof {
                let mid = ConstraintSystem {
                    fixed_queries: queried.fixed_queries,
                    ..*old(self)
                };
                assert(old(self).spec_any_query_interned(&mid, column.spec_any(), Rotation(0)));
            }
        }
    }
}

} // verus!

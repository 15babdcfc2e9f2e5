//! Assigning the fixed columns of a lookup table.

use super::value::Value;
use crate::plonk::circuit::TableColumn;
use crate::plonk::{Assigned, Assignment, Error, SinkCall, TableError};
use vstd::prelude::*;

verus! {

/// What was assigned to a column of a table: the default value of the
/// column, which is the value of its first row, and for each row whether
/// it was assigned.
#[derive(Debug)]
pub struct TableEntry<F> {
    pub column: TableColumn,
    pub default: Option<Value<Assigned<F>>>,
    pub assigned: Vec<bool>,
}

impl<F> TableEntry<F> {
    /// Whether the column has a default value and at least one row, and
    /// every row up to its last was assigned.
    pub open spec fn spec_complete(&self) -> bool {
        &&& self.default.is_some()
        &&& self.assigned@.len() > 0
        &&& forall|row: int| 0 <= row < self.assigned@.len() ==> #[trigger] self.assigned@[row]
    }

    /// Whether the column has a default value and at least one row, and
    /// every row up to its last was assigned.
    pub fn complete(&self) -> (r: bool)
        ensures
            r == self.spec_complete(),
    {
        if self.default.is_none() || self.assigned.len() == 0 {
            return false;
        }
        let mut row: usize = 0;
        while row < self.assigned.len()
            invariant
                row <= self.assigned.len(),
                forall|k: int| 0 <= k < row ==> #[trigger] self.assigned@[k],
            decreases self.assigned.len() - row,
        {
            if !self.assigned[row] {
                return false;
            }
            row += 1;
        }
        true
    }
}

/// Whether the pair of a column and its length `a` comes before the pair
/// `b`: by the index of the column, and for the same index by the length.
pub open spec fn spec_pair_before(a: (TableColumn, usize), b: (TableColumn, usize)) -> bool {
    a.0.inner().index < b.0.inner().index || (a.0.inner().index == b.0.inner().index && a.1 <= b.1)
}

/// Whether the entry `k` is the first of `entries` that is not complete.
pub open spec fn spec_first_incomplete<F>(entries: Seq<TableEntry<F>>, k: int) -> bool {
    &&& 0 <= k < entries.len()
    &&& !entries[k].spec_complete()
    &&& forall|j: int| 0 <= j < k ==> (#[trigger] entries[j]).spec_complete()
}

/// Whether every one of `entries` is complete.
pub open spec fn spec_all_complete<F>(entries: Seq<TableEntry<F>>) -> bool {
    forall|j: int| 0 <= j < entries.len() ==> (#[trigger] entries[j]).spec_complete()
}

/// Whether the entry `k` is the first of `entries` that is not as long as
/// the entries before it.
pub open spec fn spec_first_uneven<F>(entries: Seq<TableEntry<F>>, k: int) -> bool {
    &&& 1 <= k < entries.len()
    &&& entries[k].assigned@.len() != entries[0].assigned@.len()
    &&& forall|j: int|
        0 <= j < k ==> (#[trigger] entries[j]).assigned@.len() == entries[0].assigned@.len()
}

/// Whether all of `entries` have the same length.
pub open spec fn spec_all_even<F>(entries: Seq<TableEntry<F>>) -> bool {
    forall|j: int|
        0 <= j < entries.len() ==> (#[trigger] entries[j]).assigned@.len()
            == entries[0].assigned@.len()
}

/// Whether `a` and `b` are the columns `k - 1` and `k` with their lengths,
/// in the order of [`spec_pair_before`].
pub open spec fn spec_uneven_pair<F>(
    entries: Seq<TableEntry<F>>,
    k: int,
    a: (TableColumn, usize),
    b: (TableColumn, usize),
) -> bool {
    let here = (entries[k].column, entries[k].assigned@.len() as usize);
    let before = (entries[k - 1].column, entries[k - 1].assigned@.len() as usize);
    if spec_pair_before(here, before) {
        a == here && b == before
    } else {
        a == before && b == here
    }
}

/// Whether `r` is what checking the columns `entries` of a table gives: the
/// length of the columns where every column is complete and all have the
/// same length, zero for no columns; the first column that is not complete
/// where there is one; else the first column that is not as long as the
/// one before it, with that one.
pub open spec fn spec_table_checked<F>(entries: Seq<TableEntry<F>>, r: Result<usize, Error>) -> bool {
    match r {
        Ok(length) => spec_all_complete(entries) && spec_all_even(entries) && length == if entries.len()
            == 0 {
            0
        } else {
            entries[0].assigned@.len() as int
        },
        Err(Error::TableError(TableError::ColumnNotAssigned(c))) => exists|k: int| #[trigger]
            spec_first_incomplete(entries, k) && c == entries[k].column,
        Err(Error::TableError(TableError::UnevenColumnLengths(a, b))) => spec_all_complete(entries)
            && exists|k: int| #[trigger] spec_first_uneven(entries, k) && spec_uneven_pair(entries, k, a, b),
        _ => false,
    }
}

/// Checks that all table columns have the same length and that all cells
/// up to that length are assigned. Returns the length: the first row that
/// is unused in every column.
pub fn compute_table_lengths<F>(default_and_assigned: &Vec<TableEntry<F>>) -> (r: Result<
    usize,
    Error,
>)
    ensures
        spec_table_checked(default_and_assigned@, r),
{
    let entries = default_and_assigned;
    let mut k: usize = 0;
    while k < entries.len()
        invariant
            k <= entries.len(),
            entries == default_and_assigned,
            forall|j: int| 0 <= j < k ==> (#[trigger] entries@[j]).spec_complete(),
        decreases entries.len() - k,
    {
        if !entries[k].complete() {
            proof {
                assert(spec_first_incomplete(entries@, k as int));
            }
            return Err(Error::TableError(TableError::ColumnNotAssigned(entries[k].column)));
        }
        k += 1;
    }
    if entries.len() == 0 {
        return Ok(0);
    }
    let length = entries[0].assigned.len();
    let mut k: usize = 1;
    while k < entries.len()
        invariant
            1 <= k <= entries.len(),
            entries == default_and_assigned,
            length == entries@[0].assigned@.len(),
            spec_all_complete(entries@),
            forall|j: int| 0 <= j < k ==> (#[trigger] entries@[j]).assigned@.len() == length,
        decreases entries.len() - k,
    {
        let here = (entries[k].column, entries[k].assigned.len());
        let before = (entries[k - 1].column, entries[k - 1].assigned.len());
        if here.1 != length {
            proof {
                assert(spec_first_uneven(entries@, k as int));
            }
            let first = here.0.inner().index < before.0.inner().index || (here.0.inner().index
                == before.0.inner().index && here.1 <= before.1);
            if first {
                proof {
                    assert(spec_uneven_pair(entries@, k as int, here, before));
                }
                return Err(Error::TableError(TableError::UnevenColumnLengths(here, before)));
            } else {
                proof {
                    assert(spec_uneven_pair(entries@, k as int, before, here));
                }
                return Err(Error::TableError(TableError::UnevenColumnLengths(before, here)));
            }
        }
        k += 1;
    }
    Ok(length)
}

/// The table layouter: assigns the cells of the fixed columns of a table,
/// and keeps for each column what was assigned to it.
pub struct SimpleTableLayouter<F, CS: Assignment<F>> {
    pub cs: CS,
    /// The table columns that are in use by earlier tables.
    pub used_columns: Vec<TableColumn>,
    /// For each column of this table, in the order in which the columns
    /// were first assigned to, what was assigned to it.
    pub default_and_assigned: Vec<TableEntry<F>>,
}

/// Whether `column` is one of `columns`.
pub fn contains_table_column(columns: &Vec<TableColumn>, column: &TableColumn) -> (r: bool)
    ensures
        r == columns@.contains(*column),
{
    let mut i: usize = 0;
    while i < columns.len()
        invariant
            i <= columns.len(),
            forall|j: int| 0 <= j < i ==> columns@[j] != *column,
        decreases columns.len() - i,
    {
        proof {
            TableColumn::lemma_inner_injective(columns@[i as int], *column);
        }
        if columns[i].inner().same(&column.inner()) {
            return true;
        }
        i += 1;
    }
    false
}

/// The place of the entry of `column` among the first `upto` of `entries`,
/// or `upto` if it has none there.
pub open spec fn spec_entry_index<F>(entries: Seq<TableEntry<F>>, column: TableColumn, upto: int) -> int
    decreases upto,
{
    if upto <= 0 {
        0
    } else if spec_entry_index(entries, column, upto - 1) < upto - 1 {
        spec_entry_index(entries, column, upto - 1)
    } else if entries[upto - 1].column == column {
        upto - 1
    } else {
        upto
    }
}

/// The rows after the row `offset` was assigned: the row is marked, and
/// the rows up to it are there.
pub open spec fn spec_marked(assigned: Seq<bool>, offset: int) -> Seq<bool> {
    Seq::new(
        if assigned.len() > offset {
            assigned.len()
        } else {
            (offset + 1) as nat
        },
        |row: int| row == offset || (row < assigned.len() && assigned[row]),
    )
}

impl<F: Copy, CS: Assignment<F>> SimpleTableLayouter<F, CS> {
    /// Returns a new table layouter, which assigns through `cs` and may not
    /// assign to a column of `used_columns`.
    pub fn new(cs: CS, used_columns: Vec<TableColumn>) -> (r: Self)
        ensures
            r.cs == cs,
            r.used_columns == used_columns,
            r.default_and_assigned@.len() == 0,
    {
        SimpleTableLayouter { cs, used_columns, default_and_assigned: Vec::new() }
    }

    /// The place of the entry of `column`, which is added if there is
    /// none.
    fn entry(&mut self, column: TableColumn) -> (r: usize)
        ensures
            r == spec_entry_index(
                old(self).default_and_assigned@,
                column,
                old(self).default_and_assigned@.len() as int,
            ),
            r < final(self).default_and_assigned@.len(),
            final(self).default_and_assigned@[r as int].column == column,
            final(self).cs == old(self).cs,
            final(self).used_columns == old(self).used_columns,
            r < old(self).default_and_assigned@.len() ==> final(self).default_and_assigned == old(
                self,
            ).default_and_assigned,
            r == old(self).default_and_assigned@.len() ==> final(self).default_and_assigned@.len()
                == r + 1 && final(self).default_and_assigned@.drop_last() == old(
                self,
            ).default_and_assigned@ && final(self).default_and_assigned@[r as int].default.is_none()
                && final(self).default_and_assigned@[r as int].assigned@.len() == 0,
    {
        let mut i: usize = 0;
        while i < self.default_and_assigned.len()
            invariant
                i <= self.default_and_assigned.len(),
                *self == *old(self),
                spec_entry_index(self.default_and_assigned@, column, i as int) == i,
            decreases self.default_and_assigned.len() - i,
        {
            proof {
                TableColumn::lemma_inner_injective(self.default_and_assigned@[i as int].column, column);
            }
            if self.default_and_assigned[i].column.inner().same(&column.inner()) {
                proof {
                    lemma_entry_index_found(
                        self.default_and_assigned@,
                        column,
                        i as int,
                        self.default_and_assigned@.len() as int,
                    );
                }
                return i;
            }
            i += 1;
        }
        self.default_and_assigned.push(TableEntry { column, default: None, assigned: Vec::new() });
        proof {
            assert(self.default_and_assigned@.drop_last() =~= old(self).default_and_assigned@);
        }
        i
    }

    /// Whether `after` holds the entries `before` after a cell of `column`
    /// was assigned at `offset`: the column has an entry, which is new if
    /// it had none; where the assignment went through (`done`), the row is
    /// marked, and the value of the first row is the default value.
    pub open spec fn spec_cell_assigned(
        before: Seq<TableEntry<F>>,
        after: Seq<TableEntry<F>>,
        column: TableColumn,
        offset: usize,
        to: Value<Assigned<F>>,
        done: bool,
    ) -> bool {
        let index = spec_entry_index(before, column, before.len() as int);
        let fresh = index == before.len();
        let marks = if fresh {
            Seq::empty()
        } else {
            before[index].assigned@
        };
        let default = if fresh {
            None
        } else {
            before[index].default
        };
        &&& 0 <= index < after.len()
        &&& after.len() == if fresh {
            before.len() as int + 1
        } else {
            before.len() as int
        }
        &&& forall|k: int| 0 <= k < before.len() && k != index ==> #[trigger] after[k] == before[k]
        &&& after[index].column == column
        &&& after[index].assigned@ == if done {
            spec_marked(marks, offset as int)
        } else {
            marks
        }
        &&& after[index].default == if done && offset == 0 {
            Some(to)
        } else {
            default
        }
        &&& done ==> !(offset == 0 && default.is_some())
    }

    /// Whether a cell at `offset` of `column` would overwrite the default
    /// value of the column: it is the first cell of a column that has
    /// a default value among `before`.
    pub open spec fn spec_overwrites(
        before: Seq<TableEntry<F>>,
        column: TableColumn,
        offset: usize,
    ) -> bool {
        let index = spec_entry_index(before, column, before.len() as int);
        offset == 0 && index < before.len() && before[index].default.is_some()
    }

    /// What assigning a cell gives, where the sink answered `answer`: the
    /// error of the sink; else the error of overwriting a default value,
    /// if the cell `overwrites` one; else success.
    pub open spec fn spec_cell_result(
        answer: Result<(), Error>,
        column: TableColumn,
        overwrites: bool,
    ) -> Result<(), Error> {
        match answer {
            Err(e) => Err(e),
            Ok(_) => if overwrites {
                Err(Error::TableError(TableError::OverwriteDefault(column)))
            } else {
                Ok(())
            },
        }
    }

    /// Assigns `to` to the cell at `offset` of the table column `column`.
    ///
    /// A column that an earlier table uses is refused, and nothing is
    /// assigned. The value of the first row of a column is the default
    /// value of the column, and can be assigned once: a second assignment
    /// to the first row goes to the sink and is then refused.
    pub fn assign_cell(
        &mut self,
        annotation: &str,
        column: TableColumn,
        offset: usize,
        to: Value<Assigned<F>>,
    ) -> (r: Result<(), Error>)
        requires
            offset < usize::MAX,
        ensures
            final(self).used_columns == old(self).used_columns,
            old(self).used_columns@.contains(column) ==> (r matches Err(
                Error::TableError(TableError::UsedColumn(c)),
            ) && c == column && *final(self) == *old(self)),
            !old(self).used_columns@.contains(column) ==> final(self).cs.calls() == old(
                self,
            ).cs.calls().push(SinkCall::AssignFixed(annotation@, column.inner(), offset, to))
                && Self::spec_cell_assigned(
                old(self).default_and_assigned@,
                final(self).default_and_assigned@,
                column,
                offset,
                to,
                r is Ok,
            ),
            !old(self).used_columns@.contains(column) ==> final(self).cs.answers().len() == old(
                self,
            ).cs.answers().len() + 1 && final(self).cs.answers().drop_last() == old(
                self,
            ).cs.answers(),
            !old(self).used_columns@.contains(column) ==> r == Self::spec_cell_result(
                final(self).cs.answers().last(),
                column,
                Self::spec_overwrites(old(self).default_and_assigned@, column, offset),
            ),
    {
        if contains_table_column(&self.used_columns, &column) {
            return Err(Error::TableError(TableError::UsedColumn(column)));
        }
        let index = self.entry(column);
        let ghost start = old(self).default_and_assigned@;
        let ghost with_entry = self.default_and_assigned@;
        proof {
            assert forall|k: int| 0 <= k < start.len() && k != index implies #[trigger] with_entry[k]
                == start[k] by {
                if index == start.len() {
                    assert(with_entry.drop_last()[k] == start[k]);
                }
            }
            if index == start.len() {
                assert(with_entry[index as int].assigned@ =~= Seq::<bool>::empty());
            }
            assert(Self::spec_cell_assigned(start, with_entry, column, offset, to, false));
        }
        let answer = self.cs.assign_fixed(annotation, column.inner(), offset, to);
        proof {
            assert(self.cs.answers().drop_last() =~= old(self).cs.answers());
        }
        match answer {
            Ok(()) => {},
            Err(e) => {
                return Err(e);
            },
        }
        if offset == 0 {
            if self.default_and_assigned[index].default.is_none() {
                // Use the value at offset 0 as the default value for this
                // table column.
                self.default_and_assigned[index].default = Some(to);
            } else {
                // Since there is already an existing default value for this
                // table column, the caller should not be attempting to
                // assign another value at offset 0.
                return Err(Error::TableError(TableError::OverwriteDefault(column)));
            }
        }
        let ghost before = self.default_and_assigned@[index as int].assigned@;
        let mut marks: Vec<bool> = Vec::new();
        core::mem::swap(&mut marks, &mut self.default_and_assigned[index].assigned);
        while marks.len() <= offset
            invariant
                offset < usize::MAX,
                before.len() <= marks@.len(),
                marks@.len() <= offset + 1 || marks@.len() == before.len(),
                forall|row: int| 0 <= row < before.len() ==> marks@[row] == before[row],
                forall|row: int| before.len() <= row < marks@.len() ==> !marks@[row],
            decreases offset + 1 - marks.len(),
        {
            marks.push(false);
        }
        marks[offset] = true;
        proof {
            assert(marks@ =~= spec_marked(before, offset as int));
        }
        self.default_and_assigned[index].assigned = marks;
        proof {
            let after = self.default_and_assigned@;
            assert forall|k: int| 0 <= k < start.len() && k != index implies #[trigger] after[k]
                == start[k] by {
                assert(after[k] == with_entry[k]);
            }
        }
        Ok(())
    }
}

/// An entry that is found in a search from the front is where the search
/// over more entries finds it.
pub proof fn lemma_entry_index_found<F>(
    entries: Seq<TableEntry<F>>,
    column: TableColumn,
    i: int,
    upto: int,
)
    requires
        0 <= i < upto <= entries.len(),
        spec_entry_index(entries, column, i) == i,
        entries[i].column == column,
    ensures
        spec_entry_index(entries, column, upto) == i,
    decreases upto - i,
{
    if upto > i + 1 {
        lemma_entry_index_found(entries, column, i, upto - 1);
    }
}

} // verus!

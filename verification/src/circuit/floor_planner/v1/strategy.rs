//! Placing regions in columns, first fit.

use crate::circuit::cell::RegionStart;
use crate::circuit::layouter::{RegionColumn, RegionShape};
use vstd::prelude::*;

verus! {

/// A region allocated within a column.
#[derive(Clone, Copy, Debug, PartialEq, Eq, Structural)]
pub struct AllocatedRegion {
    /// The starting position of the region.
    pub start: usize,
    /// The length of the region.
    pub length: usize,
}

/// Allocated rows within a column.
#[derive(Debug)]
pub struct Allocations(pub Vec<AllocatedRegion>);

/// Whether the rows from `start` on, `length` of them, meet the rows from
/// `other_start` on, `other_length` of them.
pub open spec fn spec_overlap(start: int, length: int, other_start: int, other_length: int) -> bool {
    length > 0 && other_length > 0 && start < other_start + other_length && other_start < start
        + length
}

impl Allocations {
    /// Whether every region ends at a row that is a number of the machine.
    pub open spec fn spec_wf(&self) -> bool {
        forall|i: int|
            0 <= i < self.0@.len() ==> (#[trigger] self.0@[i]).start + self.0@[i].length
                <= usize::MAX
    }

    /// Whether `row` lies in an allocated region.
    pub open spec fn spec_occupied(&self, row: int) -> bool {
        exists|i: int|
            0 <= i < self.0@.len() && (#[trigger] self.0@[i]).start <= row < self.0@[i].start
                + self.0@[i].length
    }

    /// Whether the rows from `start` on, `length` of them, meet no
    /// allocated region.
    pub open spec fn spec_free(&self, start: int, length: int) -> bool {
        forall|i: int|
            0 <= i < self.0@.len() ==> !spec_overlap(
                start,
                length,
                (#[trigger] self.0@[i]).start as int,
                self.0@[i].length as int,
            )
    }

    /// The row after the last allocated row, zero if no row is allocated.
    pub open spec fn spec_unbounded_interval_start(&self) -> int {
        spec_end(self.0@)
    }

    /// No allocations.
    pub fn new() -> (r: Self)
        ensures
            r.0@.len() == 0,
            r.spec_wf(),
    {
        Allocations(Vec::new())
    }

    /// Returns the row that forms the unbounded unallocated interval
    /// `[row, None)`.
    pub fn unbounded_interval_start(&self) -> (r: usize)
        requires
            self.spec_wf(),
        ensures
            r == self.spec_unbounded_interval_start(),
    {
        let mut end: usize = 0;
        let mut i: usize = 0;
        while i < self.0.len()
            invariant
                i <= self.0.len(),
                self.spec_wf(),
                end == spec_end(self.0@.subrange(0, i as int)),
            decreases self.0.len() - i,
        {
            proof {
                assert(self.0@.subrange(0, i + 1).drop_last() =~= self.0@.subrange(0, i as int));
                assert(self.0@.subrange(0, i + 1).last() == self.0@[i as int]);
            }
            let region = self.0[i];
            if region.length > 0 && region.start + region.length > end {
                end = region.start + region.length;
            }
            i += 1;
        }
        proof {
            assert(self.0@.subrange(0, self.0@.len() as int) =~= self.0@);
        }
        end
    }

    /// The end of an allocated region that meets the rows from `start` on,
    /// `length` of them, if there is one.
    pub fn conflict(&self, start: usize, length: usize) -> (r: Option<usize>)
        requires
            self.spec_wf(),
            start + length <= usize::MAX,
        ensures
            r.is_none() <==> self.spec_free(start as int, length as int),
            r matches Some(end) ==> start < end <= self.spec_unbounded_interval_start()
                && forall|s: int| start <= s < end ==> !self.spec_free(s, length as int),
    {
        let mut i: usize = 0;
        while i < self.0.len()
            invariant
                i <= self.0.len(),
                self.spec_wf(),
                start + length <= usize::MAX,
                forall|j: int|
                    0 <= j < i ==> !spec_overlap(
                        start as int,
                        length as int,
                        (#[trigger] self.0@[j]).start as int,
                        self.0@[j].length as int,
                    ),
            decreases self.0.len() - i,
        {
            let region = self.0[i];
            if length > 0 && region.length > 0 && start < region.start + region.length
                && region.start < start + length {
                let end = region.start + region.length;
                proof {
                    lemma_end_bounds(self.0@, i as int);
                    assert forall|s: int| start <= s < end implies !self.spec_free(
                        s,
                        length as int,
                    ) by {
                        assert(spec_overlap(
                            s,
                            length as int,
                            self.0@[i as int].start as int,
                            self.0@[i as int].length as int,
                        ));
                    }
                    assert(spec_overlap(
                        start as int,
                        length as int,
                        self.0@[i as int].start as int,
                        self.0@[i as int].length as int,
                    ));
                }
                return Some(end);
            }
            i += 1;
        }
        None
    }

    /// Allocates the rows from `start` on, `length` of them, which must be
    /// free.
    pub fn insert(&mut self, start: usize, length: usize)
        requires
            old(self).spec_wf(),
            start + length <= usize::MAX,
        ensures
            final(self).0@ == old(self).0@.push(AllocatedRegion { start, length }),
            final(self).spec_wf(),
    {
        self.0.push(AllocatedRegion { start, length });
    }
}

/// The row after the last row of `regions`, zero if they hold no row.
pub open spec fn spec_end(regions: Seq<AllocatedRegion>) -> int
    decreases regions.len(),
{
    if regions.len() == 0 {
        0
    } else {
        let before = spec_end(regions.drop_last());
        if regions.last().length > 0 && regions.last().start + regions.last().length > before {
            regions.last().start + regions.last().length
        } else {
            before
        }
    }
}

/// Every region that holds a row ends at the row after the last row, or
/// before it.
pub proof fn lemma_end_bounds(regions: Seq<AllocatedRegion>, i: int)
    requires
        0 <= i < regions.len(),
        regions[i].length > 0,
    ensures
        regions[i].start + regions[i].length <= spec_end(regions),
        spec_end(regions) >= 0,
    decreases regions.len(),
{
    if i < regions.len() - 1 {
        lemma_end_bounds(regions.drop_last(), i);
    } else {
        lemma_end_nonnegative(regions.drop_last());
    }
}

/// The row after the last row is not negative.
pub proof fn lemma_end_nonnegative(regions: Seq<AllocatedRegion>)
    ensures
        spec_end(regions) >= 0,
    decreases regions.len(),
{
    if regions.len() > 0 {
        lemma_end_nonnegative(regions.drop_last());
    }
}

/// Allocated rows within a circuit: the columns that a region touches,
/// each once, and for each its allocated rows.
#[derive(Debug)]
pub struct CircuitAllocations {
    pub columns: Vec<RegionColumn>,
    pub allocations: Vec<Allocations>,
}

impl CircuitAllocations {
    /// Whether there are allocations for every column, no column is listed
    /// twice, and every allocated region ends at a row that is a number of
    /// the machine.
    pub open spec fn spec_wf(&self) -> bool {
        &&& self.columns@.len() == self.allocations@.len()
        &&& self.columns@.no_duplicates()
        &&& forall|p: int| 0 <= p < self.allocations@.len() ==> (#[trigger] self.allocations@[p]).spec_wf()
    }

    /// No allocations.
    pub fn new() -> (r: Self)
        ensures
            r.columns@.len() == 0,
            r.allocations@.len() == 0,
            r.spec_wf(),
    {
        CircuitAllocations { columns: Vec::new(), allocations: Vec::new() }
    }

    /// The place of `column` among the columns, if it is one of them.
    pub fn position(&self, column: &RegionColumn) -> (r: Option<usize>)
        ensures
            r.is_some() <==> self.columns@.contains(*column),
            r matches Some(p) ==> p < self.columns@.len() && self.columns@[p as int] == *column,
    {
        let mut p: usize = 0;
        while p < self.columns.len()
            invariant
                p <= self.columns.len(),
                forall|j: int| 0 <= j < p ==> self.columns@[j] != *column,
            decreases self.columns.len() - p,
        {
            if self.columns[p].same(column) {
                return Some(p);
            }
            p += 1;
        }
        None
    }

    /// The allocations of `column`, if a region touches it.
    pub fn get(&self, column: &RegionColumn) -> (r: Option<&Allocations>)
        requires
            self.spec_wf(),
        ensures
            r.is_some() <==> self.columns@.contains(*column),
            r matches Some(a) ==> exists|p: int|
                0 <= p < self.columns@.len() && self.columns@[p] == *column
                    && #[trigger] self.allocations@[p] == *a,
    {
        match self.position(column) {
            Some(p) => Some(&self.allocations[p]),
            None => None,
        }
    }

    /// The first row of the circuit that is allocated in no column: the
    /// largest of the rows that follow the allocated rows of the columns,
    /// zero if there is no column.
    pub open spec fn spec_first_unassigned_row(&self) -> int {
        spec_largest_end(self.allocations@)
    }

    /// The first row of the circuit that is allocated in no column.
    pub fn first_unassigned_row(&self) -> (r: usize)
        requires
            self.spec_wf(),
        ensures
            r == self.spec_first_unassigned_row(),
    {
        let mut row: usize = 0;
        let mut p: usize = 0;
        while p < self.allocations.len()
            invariant
                p <= self.allocations.len(),
                self.spec_wf(),
                row == spec_largest_end(self.allocations@.subrange(0, p as int)),
            decreases self.allocations.len() - p,
        {
            proof {
                assert(self.allocations@.subrange(0, p + 1).drop_last()
                    =~= self.allocations@.subrange(0, p as int));
                assert(self.allocations@.subrange(0, p + 1).last() == self.allocations@[p as int]);
            }
            let end = self.allocations[p].unbounded_interval_start();
            if end > row {
                row = end;
            }
            p += 1;
        }
        proof {
            assert(self.allocations@.subrange(0, self.allocations@.len() as int)
                =~= self.allocations@);
        }
        row
    }
}

/// The largest of the rows that follow the allocated rows of `columns`,
/// zero if there is no column.
pub open spec fn spec_largest_end(columns: Seq<Allocations>) -> int
    decreases columns.len(),
{
    if columns.len() == 0 {
        0
    } else {
        let before = spec_largest_end(columns.drop_last());
        if columns.last().spec_unbounded_interval_start() > before {
            columns.last().spec_unbounded_interval_start()
        } else {
            before
        }
    }
}

/// Number of advice columns among `columns`.
pub open spec fn spec_advice_count(columns: Seq<RegionColumn>) -> nat
    decreases columns.len(),
{
    if columns.len() == 0 {
        0
    } else {
        spec_advice_count(columns.drop_last()) + if columns.last().spec_is_advice() {
            1nat
        } else {
            0nat
        }
    }
}

/// The advice area of a region: the number of its advice columns times the
/// number of its rows.
pub open spec fn spec_area(shape: RegionShape) -> nat {
    spec_advice_count(shape.columns@) * (shape.row_count as nat)
}

/// Whether the region `j` is placed before the region `i`: regions are
/// placed by falling advice area, and regions of the same area in the
/// order in which they were measured.
pub open spec fn spec_before(shapes: Seq<RegionShape>, j: int, i: int) -> bool {
    spec_area(shapes[j]) > spec_area(shapes[i]) || (spec_area(shapes[j]) == spec_area(shapes[i])
        && j < i)
}

/// Whether the two lists of columns have a column in common.
pub open spec fn spec_shares(a: Seq<RegionColumn>, b: Seq<RegionColumn>) -> bool {
    exists|k: int| 0 <= k < a.len() && b.contains(#[trigger] a[k])
}

/// Whether the region `i` fits at the row `row`: it meets no region that
/// is placed before it and shares a column with it.
pub open spec fn spec_fits(
    shapes: Seq<RegionShape>,
    starts: Seq<RegionStart>,
    i: int,
    row: int,
) -> bool {
    forall|j: int|
        0 <= j < shapes.len() && #[trigger] spec_before(shapes, j, i) && spec_shares(
            shapes[j].columns@,
            shapes[i].columns@,
        ) ==> !spec_overlap(
            row,
            shapes[i].row_count as int,
            starts[j].0 as int,
            shapes[j].row_count as int,
        )
}

/// Whether `starts` places every region at the first row at which it
/// fits.
pub open spec fn spec_placed(shapes: Seq<RegionShape>, starts: Seq<RegionStart>) -> bool {
    &&& starts.len() == shapes.len()
    &&& forall|i: int| 0 <= i < shapes.len() ==> #[trigger] spec_fits(shapes, starts, i, starts[i].0 as int)
    &&& forall|i: int, row: int|
        0 <= i < shapes.len() && 0 <= row < starts[i].0 ==> !#[trigger] spec_fits(
            shapes,
            starts,
            i,
            row,
        )
}

/// A region before which no region is placed starts at the first row: so
/// does the region of the largest advice area that was measured first, and
/// so does a region that is alone.
pub proof fn lemma_first_placed_at_zero(shapes: Seq<RegionShape>, starts: Seq<RegionStart>, i: int)
    requires
        spec_placed(shapes, starts),
        0 <= i < shapes.len(),
        forall|j: int| 0 <= j < shapes.len() ==> !#[trigger] spec_before(shapes, j, i),
    ensures
        starts[i].0 == 0,
{
    assert(spec_fits(shapes, starts, i, 0));
}

/// A region that shares no column with a region that is placed before it
/// starts at the first row.
pub proof fn lemma_apart_placed_at_zero(shapes: Seq<RegionShape>, starts: Seq<RegionStart>, i: int)
    requires
        spec_placed(shapes, starts),
        0 <= i < shapes.len(),
        forall|j: int|
            0 <= j < shapes.len() && #[trigger] spec_before(shapes, j, i) ==> !spec_shares(
                shapes[j].columns@,
                shapes[i].columns@,
            ),
    ensures
        starts[i].0 == 0,
{
    assert(spec_fits(shapes, starts, i, 0));
}

/// The number of rows of all of `shapes` together.
pub open spec fn spec_total_rows(shapes: Seq<RegionShape>) -> nat
    decreases shapes.len(),
{
    if shapes.len() == 0 {
        0
    } else {
        spec_total_rows(shapes.drop_last()) + shapes.last().row_count as nat
    }
}

/// Whether the fit of the region `i` at a row is the same under `a` and
/// `b`: the two agree on the start of every region that is placed before
/// `i`.
pub proof fn lemma_fits_depends(
    shapes: Seq<RegionShape>,
    a: Seq<RegionStart>,
    b: Seq<RegionStart>,
    i: int,
    row: int,
)
    requires
        forall|j: int| 0 <= j < shapes.len() && #[trigger] spec_before(shapes, j, i) ==> a[j] == b[j],
    ensures
        spec_fits(shapes, a, i, row) == spec_fits(shapes, b, i, row),
{
    if spec_fits(shapes, a, i, row) {
        assert forall|j: int|
            0 <= j < shapes.len() && #[trigger] spec_before(shapes, j, i) && spec_shares(
                shapes[j].columns@,
                shapes[i].columns@,
            ) implies !spec_overlap(
            row,
            shapes[i].row_count as int,
            b[j].0 as int,
            shapes[j].row_count as int,
        ) by {
            assert(a[j] == b[j]);
        }
    }
    if spec_fits(shapes, b, i, row) {
        assert forall|j: int|
            0 <= j < shapes.len() && #[trigger] spec_before(shapes, j, i) && spec_shares(
                shapes[j].columns@,
                shapes[i].columns@,
            ) implies !spec_overlap(
            row,
            shapes[i].row_count as int,
            a[j].0 as int,
            shapes[j].row_count as int,
        ) by {
            assert(a[j] == b[j]);
        }
    }
}

/// Two placements of the same regions are the same: the first row at which
/// a region fits is determined by the regions that are placed before it.
pub proof fn lemma_layout_unique(
    shapes: Seq<RegionShape>,
    a: Seq<RegionStart>,
    b: Seq<RegionStart>,
)
    requires
        spec_placed(shapes, a),
        spec_placed(shapes, b),
    ensures
        a == b,
{
    assert forall|i: int| 0 <= i < shapes.len() implies a[i] == b[i] by {
        lemma_layout_unique_at(shapes, a, b, i, spec_rank(shapes, i));
    }
    assert(a =~= b);
}

/// The number of regions that are placed before the region `i`.
pub open spec fn spec_rank(shapes: Seq<RegionShape>, i: int) -> nat {
    spec_count_before(shapes, i, shapes.len() as int)
}

/// The number of regions among the first `upto` that are placed before the
/// region `i`.
pub open spec fn spec_count_before(shapes: Seq<RegionShape>, i: int, upto: int) -> nat
    decreases upto,
{
    if upto <= 0 {
        0
    } else {
        spec_count_before(shapes, i, upto - 1) + if spec_before(shapes, upto - 1, i) {
            1nat
        } else {
            0nat
        }
    }
}

/// A region that is placed before another has fewer regions placed before
/// it.
pub proof fn lemma_count_before_monotonic(shapes: Seq<RegionShape>, j: int, i: int, upto: int)
    requires
        0 <= j < shapes.len(),
        0 <= i < shapes.len(),
        spec_before(shapes, j, i),
        0 <= upto <= shapes.len(),
    ensures
        spec_count_before(shapes, j, upto) + (if j < upto {
            1nat
        } else {
            0nat
        }) <= spec_count_before(shapes, i, upto),
    decreases upto,
{
    if upto > 0 {
        lemma_count_before_monotonic(shapes, j, i, upto - 1);
    }
}

/// Two placements of the same regions agree on the region `i`, which has
/// `rank` regions placed before it.
pub proof fn lemma_layout_unique_at(
    shapes: Seq<RegionShape>,
    a: Seq<RegionStart>,
    b: Seq<RegionStart>,
    i: int,
    rank: nat,
)
    requires
        spec_placed(shapes, a),
        spec_placed(shapes, b),
        0 <= i < shapes.len(),
        rank == spec_rank(shapes, i),
    ensures
        a[i] == b[i],
    decreases rank,
{
    assert forall|j: int| 0 <= j < shapes.len() && #[trigger] spec_before(shapes, j, i) implies a[j]
        == b[j] by {
        lemma_count_before_monotonic(shapes, j, i, shapes.len() as int);
        lemma_layout_unique_at(shapes, a, b, j, spec_rank(shapes, j));
    }
    lemma_fits_depends(shapes, a, b, i, a[i].0 as int);
    lemma_fits_depends(shapes, a, b, i, b[i].0 as int);
    assert(spec_fits(shapes, a, i, a[i].0 as int));
    assert(spec_fits(shapes, b, i, b[i].0 as int));
    if a[i].0 < b[i].0 {
        assert(!spec_fits(shapes, b, i, a[i].0 as int));
    }
    if b[i].0 < a[i].0 {
        assert(!spec_fits(shapes, a, i, b[i].0 as int));
    }
}

/// Number of advice columns among `columns`.
pub fn advice_count(columns: &Vec<RegionColumn>) -> (r: usize)
    ensures
        r == spec_advice_count(columns@),
{
    let mut count: usize = 0;
    let mut k: usize = 0;
    while k < columns.len()
        invariant
            k <= columns.len(),
            count <= k,
            count == spec_advice_count(columns@.subrange(0, k as int)),
        decreases columns.len() - k,
    {
        proof {
            assert(columns@.subrange(0, k + 1).drop_last() =~= columns@.subrange(0, k as int));
            assert(columns@.subrange(0, k + 1).last() == columns@[k as int]);
        }
        if columns[k].is_advice() {
            count += 1;
        }
        k += 1;
    }
    proof {
        assert(columns@.subrange(0, columns@.len() as int) =~= columns@);
    }
    count
}

/// The advice area of a region.
pub fn advice_area(shape: &RegionShape) -> (r: u128)
    ensures
        r == spec_area(*shape),
{
    let count = advice_count(&shape.columns);
    assert(count * shape.row_count <= u128::MAX) by (nonlinear_arith)
        requires
            count <= usize::MAX,
            shape.row_count <= usize::MAX,
            usize::MAX <= 0xffff_ffff_ffff_ffff,
    ;
    (count as u128) * (shape.row_count as u128)
}

impl CircuitAllocations {
    /// Whether the rows from `start` on, `length` of them, are free in
    /// every one of `columns`.
    pub open spec fn spec_free_in_all(
        &self,
        columns: Seq<RegionColumn>,
        start: int,
        length: int,
    ) -> bool {
        forall|k: int, p: int|
            0 <= k < columns.len() && 0 <= p < self.columns@.len() && #[trigger] self.columns@[p]
                == #[trigger] columns[k] ==> self.allocations@[p].spec_free(start, length)
    }

    /// Whether no column has an allocated row from `bound` on.
    pub open spec fn spec_below(&self, bound: int) -> bool {
        forall|p: int|
            0 <= p < self.allocations@.len() ==> (
            #[trigger] self.allocations@[p]).spec_unbounded_interval_start() <= bound
    }

    /// The first row from which on `length` rows are free in every one of
    /// `columns`. `bound` is a row from which on no row is allocated.
    pub fn first_fit(&self, columns: &Vec<RegionColumn>, length: usize, bound: usize) -> (r: usize)
        requires
            self.spec_wf(),
            self.spec_below(bound as int),
            bound + length <= usize::MAX,
        ensures
            r <= bound,
            self.spec_free_in_all(columns@, r as int, length as int),
            forall|row: int|
                0 <= row < r ==> !self.spec_free_in_all(columns@, row, length as int),
    {
        let mut row: usize = 0;
        let mut k: usize = 0;
        while k < columns.len()
            invariant
                k <= columns.len(),
                self.spec_wf(),
                self.spec_below(bound as int),
                bound + length <= usize::MAX,
                row <= bound,
                forall|j: int, p: int|
                    0 <= j < k && 0 <= p < self.columns@.len() && #[trigger] self.columns@[p]
                        == #[trigger] columns@[j] ==> self.allocations@[p].spec_free(
                        row as int,
                        length as int,
                    ),
                forall|earlier: int|
                    0 <= earlier < row ==> !self.spec_free_in_all(columns@, earlier, length as int),
            decreases bound - row, columns.len() - k,
        {
            match self.position(&columns[k]) {
                Some(p) => {
                    match self.allocations[p].conflict(row, length) {
                        Some(end) => {
                            proof {
                                assert(self.allocations@[p as int].spec_unbounded_interval_start()
                                    <= bound);
                                assert forall|earlier: int| 0 <= earlier < end implies
                                    !self.spec_free_in_all(columns@, earlier, length as int) by {
                                    if earlier >= row {
                                        assert(!self.allocations@[p as int].spec_free(
                                            earlier,
                                            length as int,
                                        ));
                                        assert(self.columns@[p as int] == columns@[k as int]);
                                    }
                                }
                            }
                            row = end;
                            k = 0;
                        },
                        None => {
                            proof {
                                assert forall|j: int, q: int|
                                    0 <= j < k + 1 && 0 <= q < self.columns@.len()
                                        && #[trigger] self.columns@[q] == #[trigger] columns@[j]
                                    implies self.allocations@[q].spec_free(
                                    row as int,
                                    length as int,
                                ) by {
                                    if j == k {
                                        assert(q == p);
                                    }
                                }
                            }
                            k += 1;
                        },
                    }
                },
                None => {
                    k += 1;
                },
            }
        }
        row
    }

    /// Whether `after` is `self` with the rows from `start` on, `length` of
    /// them, allocated in every one of `columns`: a column that is new is
    /// appended, and every other column is left as it is.
    pub open spec fn spec_reserved(
        &self,
        after: &Self,
        columns: Seq<RegionColumn>,
        start: usize,
        length: usize,
    ) -> bool {
        &&& after.spec_wf()
        &&& self.columns@.len() <= after.columns@.len()
        &&& forall|p: int| 0 <= p < self.columns@.len() ==> #[trigger] after.columns@[p] == self.columns@[p]
        &&& forall|p: int|
            self.columns@.len() <= p < after.columns@.len() ==> columns.contains(
                #[trigger] after.columns@[p],
            )
        &&& forall|k: int| 0 <= k < columns.len() ==> after.columns@.contains(#[trigger] columns[k])
        &&& forall|p: int|
            0 <= p < after.columns@.len() ==> (#[trigger] after.allocations@[p]).0@ == {
                let before = if p < self.columns@.len() {
                    self.allocations@[p].0@
                } else {
                    Seq::empty()
                };
                if columns.contains(after.columns@[p]) {
                    before.push(AllocatedRegion { start, length })
                } else {
                    before
                }
            }
    }

    /// Allocates the rows from `start` on, `length` of them, in every one
    /// of `columns`.
    pub fn reserve(&mut self, columns: &Vec<RegionColumn>, start: usize, length: usize)
        requires
            old(self).spec_wf(),
            columns@.no_duplicates(),
            start + length <= usize::MAX,
        ensures
            old(self).spec_reserved(final(self), columns@, start, length),
    {
        let mut k: usize = 0;
        while k < columns.len()
            invariant
                k <= columns.len(),
                columns@.no_duplicates(),
                start + length <= usize::MAX,
                old(self).spec_reserved(self, columns@.subrange(0, k as int), start, length),
            decreases columns.len() - k,
        {
            let column = columns[k];
            let ghost before = *self;
            let ghost done = columns@.subrange(0, k as int);
            proof {
                assert(!done.contains(column)) by {
                    if done.contains(column) {
                        let j = choose|j: int| 0 <= j < done.len() && done[j] == column;
                        assert(columns@[j] == columns@[k as int]);
                    }
                }
                assert(columns@.subrange(0, k + 1) =~= done.push(column));
            }
            match self.position(&column) {
                Some(p) => {
                    self.allocations[p].insert(start, length);
                    proof {
                        assert(p < old(self).columns@.len()) by {
                            if p >= old(self).columns@.len() {
                                assert(done.contains(before.columns@[p as int]));
                            }
                        }
                        assert forall|q: int| 0 <= q < self.columns@.len() implies (
                        #[trigger] self.allocations@[q]).0@ == {
                            let prior = if q < old(self).columns@.len() {
                                old(self).allocations@[q].0@
                            } else {
                                Seq::empty()
                            };
                            if done.push(column).contains(self.columns@[q]) {
                                prior.push(AllocatedRegion { start, length })
                            } else {
                                prior
                            }
                        } by {
                            lemma_contains_push(done, column, self.columns@[q]);
                            if q != p {
                                assert(self.allocations@[q] == before.allocations@[q]);
                                assert(self.columns@[q] != column);
                            }
                        }
                        assert forall|j: int| 0 <= j < done.push(column).len() implies self.columns@.contains(
                            #[trigger] done.push(column)[j],
                        ) by {
                            if j < done.len() {
                                assert(before.columns@.contains(done[j]));
                            }
                        }
                        assert forall|q: int|
                            old(self).columns@.len() <= q < self.columns@.len() implies done.push(
                            column,
                        ).contains(#[trigger] self.columns@[q]) by {
                            lemma_contains_push(done, column, self.columns@[q]);
                            assert(done.contains(before.columns@[q]));
                        }
                    }
                },
                None => {
                    self.columns.push(column);
                    let mut allocations = Allocations::new();
                    allocations.insert(start, length);
                    self.allocations.push(allocations);
                    proof {
                        let last = before.columns@.len() as int;
                        assert(self.columns@[last] == column);
                        assert forall|q: int| 0 <= q < self.columns@.len() implies (
                        #[trigger] self.allocations@[q]).0@ == {
                            let prior = if q < old(self).columns@.len() {
                                old(self).allocations@[q].0@
                            } else {
                                Seq::empty()
                            };
                            if done.push(column).contains(self.columns@[q]) {
                                prior.push(AllocatedRegion { start, length })
                            } else {
                                prior
                            }
                        } by {
                            lemma_contains_push(done, column, self.columns@[q]);
                            if q < last {
                                assert(self.allocations@[q] == before.allocations@[q]);
                                assert(before.columns@.contains(before.columns@[q]));
                                assert(self.columns@[q] != column);
                            } else {
                                assert(!old(self).columns@.contains(column)) by {
                                    if old(self).columns@.contains(column) {
                                        let t = choose|t: int|
                                            0 <= t < old(self).columns@.len() && old(
                                                self,
                                            ).columns@[t] == column;
                                        assert(before.columns@[t] == column);
                                    }
                                }
                                assert(self.allocations@[q].0@ =~= Seq::<AllocatedRegion>::empty().push(
                                    AllocatedRegion { start, length },
                                ));
                            }
                        }
                        assert forall|j: int| 0 <= j < done.push(column).len() implies self.columns@.contains(
                            #[trigger] done.push(column)[j],
                        ) by {
                            if j < done.len() {
                                assert(before.columns@.contains(done[j]));
                                let t = choose|t: int|
                                    0 <= t < before.columns@.len() && before.columns@[t] == done[j];
                                assert(self.columns@[t] == done[j]);
                            } else {
                                assert(self.columns@[last] == column);
                            }
                        }
                        assert forall|q: int|
                            old(self).columns@.len() <= q < self.columns@.len() implies done.push(
                            column,
                        ).contains(#[trigger] self.columns@[q]) by {
                            lemma_contains_push(done, column, self.columns@[q]);
                            if q < last {
                                assert(done.contains(before.columns@[q]));
                            }
                        }
                        assert(self.columns@.no_duplicates()) by {
                            assert forall|a: int, b: int|
                                0 <= a < self.columns@.len() && 0 <= b < self.columns@.len() && a
                                    != b implies self.columns@[a] != self.columns@[b] by {
                                if a == last {
                                    assert(before.columns@.contains(before.columns@[b]));
                                }
                                if b == last {
                                    assert(before.columns@.contains(before.columns@[a]));
                                }
                            }
                        }
                    }
                },
            }
            k += 1;
        }
        proof {
            assert(columns@.subrange(0, columns@.len() as int) =~= columns@);
        }
    }
}

/// A sequence with one more element holds what it held before, and the
/// element.
pub proof fn lemma_contains_push<A>(s: Seq<A>, x: A, y: A)
    ensures
        s.push(x).contains(y) <==> s.contains(y) || y == x,
{
    if s.contains(y) {
        let j = choose|j: int| 0 <= j < s.len() && s[j] == y;
        assert(s.push(x)[j] == y);
    }
    if y == x {
        assert(s.push(x)[s.len() as int] == y);
    }
    if s.push(x).contains(y) {
        let j = choose|j: int| 0 <= j < s.push(x).len() && s.push(x)[j] == y;
        if j < s.len() {
            assert(s[j] == y);
        }
    }
}

/// The allocated region of the region `j`.
pub open spec fn spec_region_of(shapes: Seq<RegionShape>, starts: Seq<RegionStart>, j: int) -> AllocatedRegion {
    AllocatedRegion { start: starts[j].0, length: shapes[j].row_count }
}

/// Whether `entry` is the allocated region of a placed region that touches
/// `column`.
pub open spec fn spec_entry_owned(
    shapes: Seq<RegionShape>,
    starts: Seq<RegionStart>,
    placed: Seq<bool>,
    column: RegionColumn,
    entry: AllocatedRegion,
) -> bool {
    exists|j: int|
        0 <= j < shapes.len() && #[trigger] placed[j] && shapes[j].columns@.contains(column)
            && entry == spec_region_of(shapes, starts, j)
}

impl CircuitAllocations {
    /// Whether `entry` is allocated in `column`.
    pub open spec fn spec_has_entry(&self, column: RegionColumn, entry: AllocatedRegion) -> bool {
        exists|p: int, t: int|
            0 <= p < self.columns@.len() && self.columns@[p] == column && 0 <= t
                < self.allocations@[p].0@.len() && #[trigger] self.allocations@[p].0@[t] == entry
    }

    /// Whether the allocations are those of the placed regions: every
    /// allocated region of a column is the region of a placed region that
    /// touches the column, and the region of every placed region is
    /// allocated in every column that it touches.
    pub open spec fn spec_reflects(
        &self,
        shapes: Seq<RegionShape>,
        starts: Seq<RegionStart>,
        placed: Seq<bool>,
    ) -> bool {
        &&& forall|p: int, t: int|
            0 <= p < self.columns@.len() && 0 <= t < self.allocations@[p].0@.len()
                ==> spec_entry_owned(
                shapes,
                starts,
                placed,
                self.columns@[p],
                #[trigger] self.allocations@[p].0@[t],
            )
        &&& forall|j: int, k: int|
            0 <= j < shapes.len() && placed[j] && 0 <= k < shapes[j].columns@.len()
                ==> self.spec_has_entry(
                #[trigger] shapes[j].columns@[k],
                spec_region_of(shapes, starts, j),
            )
    }
}

/// Whether every region is placed.
pub open spec fn spec_all(shapes: Seq<RegionShape>) -> Seq<bool> {
    Seq::new(shapes.len(), |j: int| true)
}

/// Where the allocations are those of the regions that are placed before
/// the region `i`, the region fits at a row exactly if its rows are free
/// in all of its columns.
pub proof fn lemma_free_is_fit(
    allocations: CircuitAllocations,
    shapes: Seq<RegionShape>,
    starts: Seq<RegionStart>,
    placed: Seq<bool>,
    i: int,
    row: int,
)
    requires
        0 <= i < shapes.len(),
        placed.len() == shapes.len(),
        starts.len() == shapes.len(),
        allocations.spec_wf(),
        allocations.spec_reflects(shapes, starts, placed),
        forall|j: int| 0 <= j < shapes.len() ==> (#[trigger] placed[j] <==> spec_before(shapes, j, i)),
    ensures
        allocations.spec_free_in_all(shapes[i].columns@, row, shapes[i].row_count as int)
            <==> spec_fits(shapes, starts, i, row),
{
    let mine = shapes[i].columns@;
    let length = shapes[i].row_count as int;
    if allocations.spec_free_in_all(mine, row, length) {
        assert forall|j: int|
            0 <= j < shapes.len() && #[trigger] spec_before(shapes, j, i) && spec_shares(
                shapes[j].columns@,
                mine,
            ) implies !spec_overlap(row, length, starts[j].0 as int, shapes[j].row_count as int) by {
            let k = choose|k: int|
                0 <= k < shapes[j].columns@.len() && mine.contains(#[trigger] shapes[j].columns@[k]);
            let c = shapes[j].columns@[k];
            assert(placed[j]);
            assert(allocations.spec_has_entry(c, spec_region_of(shapes, starts, j)));
            let (p, t) = choose|p: int, t: int|
                0 <= p < allocations.columns@.len() && allocations.columns@[p] == c && 0 <= t
                    < allocations.allocations@[p].0@.len()
                    && #[trigger] allocations.allocations@[p].0@[t] == spec_region_of(
                    shapes,
                    starts,
                    j,
                );
            let k2 = choose|k2: int| 0 <= k2 < mine.len() && mine[k2] == c;
            assert(allocations.columns@[p] == mine[k2]);
            assert(allocations.allocations@[p].spec_free(row, length));
            assert(!spec_overlap(
                row,
                length,
                allocations.allocations@[p].0@[t].start as int,
                allocations.allocations@[p].0@[t].length as int,
            ));
        }
    }
    if spec_fits(shapes, starts, i, row) {
        assert forall|k: int, p: int|
            0 <= k < mine.len() && 0 <= p < allocations.columns@.len()
                && #[trigger] allocations.columns@[p] == #[trigger] mine[k] implies allocations.allocations@[p].spec_free(
            row,
            length,
        ) by {
            assert forall|t: int| 0 <= t < allocations.allocations@[p].0@.len() implies !spec_overlap(
                row,
                length,
                (#[trigger] allocations.allocations@[p].0@[t]).start as int,
                allocations.allocations@[p].0@[t].length as int,
            ) by {
                let entry = allocations.allocations@[p].0@[t];
                assert(spec_entry_owned(shapes, starts, placed, allocations.columns@[p], entry));
                let j = choose|j: int|
                    0 <= j < shapes.len() && #[trigger] placed[j] && shapes[j].columns@.contains(
                        allocations.columns@[p],
                    ) && entry == spec_region_of(shapes, starts, j);
                assert(spec_before(shapes, j, i));
                let k1 = choose|k1: int|
                    0 <= k1 < shapes[j].columns@.len() && shapes[j].columns@[k1]
                        == allocations.columns@[p];
                assert(mine.contains(shapes[j].columns@[k1]));
                assert(spec_shares(shapes[j].columns@, mine));
            }
        }
    }
}

/// Placing one more region, and allocating its rows in its columns, leaves
/// the allocations those of the placed regions.
pub proof fn lemma_reserve_reflects(
    before: CircuitAllocations,
    after: CircuitAllocations,
    shapes: Seq<RegionShape>,
    starts: Seq<RegionStart>,
    placed: Seq<bool>,
    i: int,
    start: usize,
)
    requires
        0 <= i < shapes.len(),
        placed.len() == shapes.len(),
        starts.len() == shapes.len(),
        !placed[i],
        before.spec_wf(),
        before.spec_reflects(shapes, starts, placed),
        before.spec_reserved(&after, shapes[i].columns@, start, shapes[i].row_count),
    ensures
        after.spec_reflects(shapes, starts.update(i, RegionStart(start)), placed.update(i, true)),
{
    let starts2 = starts.update(i, RegionStart(start));
    let placed2 = placed.update(i, true);
    let mine = shapes[i].columns@;
    let region = AllocatedRegion { start, length: shapes[i].row_count };
    assert forall|p: int, t: int|
        0 <= p < after.columns@.len() && 0 <= t < after.allocations@[p].0@.len() implies spec_entry_owned(
        shapes,
        starts2,
        placed2,
        after.columns@[p],
        #[trigger] after.allocations@[p].0@[t],
    ) by {
        let entry = after.allocations@[p].0@[t];
        let prior = if p < before.columns@.len() {
            before.allocations@[p].0@
        } else {
            Seq::empty()
        };
        assert(after.allocations@[p].0@ == if mine.contains(after.columns@[p]) {
            prior.push(region)
        } else {
            prior
        });
        if t < prior.len() {
            assert(spec_entry_owned(
                shapes,
                starts,
                placed,
                before.columns@[p],
                before.allocations@[p].0@[t],
            ));
            let j = choose|j: int|
                0 <= j < shapes.len() && #[trigger] placed[j] && shapes[j].columns@.contains(
                    before.columns@[p],
                ) && before.allocations@[p].0@[t] == spec_region_of(shapes, starts, j);
            assert(placed2[j] && entry == spec_region_of(shapes, starts2, j));
        } else {
            assert(placed2[i] && entry == spec_region_of(shapes, starts2, i));
        }
    }
    assert forall|j: int, k: int|
        0 <= j < shapes.len() && placed2[j] && 0 <= k < shapes[j].columns@.len() implies after.spec_has_entry(
        #[trigger] shapes[j].columns@[k],
        spec_region_of(shapes, starts2, j),
    ) by {
        let c = shapes[j].columns@[k];
        if j == i {
            assert(after.columns@.contains(mine[k]));
            let p = choose|p: int| 0 <= p < after.columns@.len() && after.columns@[p] == c;
            assert(mine.contains(after.columns@[p]));
            let prior = if p < before.columns@.len() {
                before.allocations@[p].0@
            } else {
                Seq::empty()
            };
            assert(after.allocations@[p].0@ == prior.push(region));
            assert(after.allocations@[p].0@[prior.len() as int] == region);
        } else {
            assert(before.spec_has_entry(c, spec_region_of(shapes, starts, j)));
            let (p, t) = choose|p: int, t: int|
                0 <= p < before.columns@.len() && before.columns@[p] == c && 0 <= t
                    < before.allocations@[p].0@.len()
                    && #[trigger] before.allocations@[p].0@[t] == spec_region_of(shapes, starts, j);
            assert(after.columns@[p] == c);
            assert(after.allocations@[p].0@[t] == spec_region_of(shapes, starts2, j));
        }
    }
}

/// Allocating rows that end at `bound + length` or before it, in
/// allocations without an allocated row from `bound` on, leaves no
/// allocated row from `bound + length` on.
pub proof fn lemma_reserve_below(
    before: CircuitAllocations,
    after: CircuitAllocations,
    columns: Seq<RegionColumn>,
    start: usize,
    length: usize,
    bound: int,
)
    requires
        before.spec_wf(),
        before.spec_below(bound),
        before.spec_reserved(&after, columns, start, length),
        start <= bound,
    ensures
        after.spec_below(bound + length),
{
    assert forall|p: int| 0 <= p < after.allocations@.len() implies (
    #[trigger] after.allocations@[p]).spec_unbounded_interval_start() <= bound + length by {
        let prior = if p < before.columns@.len() {
            before.allocations@[p].0@
        } else {
            Seq::empty()
        };
        if p < before.columns@.len() {
            assert(before.allocations@[p].spec_unbounded_interval_start() <= bound);
        }
        lemma_end_nonnegative(prior);
        if columns.contains(after.columns@[p]) {
            assert(prior.push(AllocatedRegion { start, length }).drop_last() =~= prior);
        }
    }
}

/// Number of rows of the placed regions among the first `upto`.
pub open spec fn spec_placed_rows(shapes: Seq<RegionShape>, placed: Seq<bool>, upto: int) -> nat
    decreases upto,
{
    if upto <= 0 {
        0
    } else {
        spec_placed_rows(shapes, placed, upto - 1) + if placed[upto - 1] {
            shapes[upto - 1].row_count as nat
        } else {
            0nat
        }
    }
}

/// Number of the regions among the first `upto` that are not placed.
pub open spec fn spec_unplaced(placed: Seq<bool>, upto: int) -> nat
    decreases upto,
{
    if upto <= 0 {
        0
    } else {
        spec_unplaced(placed, upto - 1) + if placed[upto - 1] {
            0nat
        } else {
            1nat
        }
    }
}

/// Placing the region `i` adds its rows to the rows of the placed regions,
/// and leaves one region less to place.
pub proof fn lemma_place(shapes: Seq<RegionShape>, placed: Seq<bool>, i: int, upto: int)
    requires
        0 <= i < placed.len(),
        placed.len() == shapes.len(),
        0 <= upto <= shapes.len(),
        !placed[i],
    ensures
        spec_placed_rows(shapes, placed.update(i, true), upto) == spec_placed_rows(
            shapes,
            placed,
            upto,
        ) + if i < upto {
            shapes[i].row_count as nat
        } else {
            0nat
        },
        spec_unplaced(placed.update(i, true), upto) + (if i < upto {
            1nat
        } else {
            0nat
        }) == spec_unplaced(placed, upto),
        spec_placed_rows(shapes, placed, upto) <= spec_total_rows(shapes.subrange(0, upto)),
    decreases upto,
{
    if upto > 0 {
        lemma_place(shapes, placed, i, upto - 1);
        assert(shapes.subrange(0, upto).drop_last() =~= shapes.subrange(0, upto - 1));
    }
}

/// The placed regions have at most as many rows as all regions together.
pub proof fn lemma_placed_rows_bounded(shapes: Seq<RegionShape>, placed: Seq<bool>, upto: int)
    requires
        placed.len() == shapes.len(),
        0 <= upto <= shapes.len(),
    ensures
        spec_placed_rows(shapes, placed, upto) <= spec_total_rows(shapes.subrange(0, upto)),
    decreases upto,
{
    if upto > 0 {
        lemma_placed_rows_bounded(shapes, placed, upto - 1);
        assert(shapes.subrange(0, upto).drop_last() =~= shapes.subrange(0, upto - 1));
    }
}

/// The region to place next: among the regions that are not placed, the
/// one of the largest advice area, and the first of these.
fn next_region(areas: &Vec<u128>, placed: &Vec<bool>, shapes: Ghost<Seq<RegionShape>>) -> (r:
    Option<usize>)
    requires
        areas@.len() == shapes@.len(),
        placed@.len() == shapes@.len(),
        forall|j: int| 0 <= j < shapes@.len() ==> #[trigger] areas@[j] == spec_area(shapes@[j]),
    ensures
        r.is_none() <==> forall|j: int| 0 <= j < placed@.len() ==> #[trigger] placed@[j],
        r matches Some(i) ==> i < placed@.len() && !placed@[i as int] && forall|j: int|
            0 <= j < placed@.len() && !#[trigger] placed@[j] && j != i ==> spec_before(
                shapes@,
                i as int,
                j,
            ),
{
    let mut best: Option<usize> = None;
    let mut j: usize = 0;
    while j < placed.len()
        invariant
            j <= placed.len(),
            areas@.len() == shapes@.len(),
            placed@.len() == shapes@.len(),
            forall|t: int| 0 <= t < shapes@.len() ==> #[trigger] areas@[t] == spec_area(shapes@[t]),
            best.is_none() <==> forall|t: int| 0 <= t < j ==> #[trigger] placed@[t],
            best matches Some(i) ==> i < j && !placed@[i as int] && forall|t: int|
                0 <= t < j && !#[trigger] placed@[t] && t != i ==> spec_before(
                    shapes@,
                    i as int,
                    t,
                ),
        decreases placed.len() - j,
    {
        if !placed[j] {
            match best {
                None => {
                    best = Some(j);
                },
                Some(i) => {
                    if areas[j] > areas[i] {
                        best = Some(j);
                    }
                },
            }
        }
        j += 1;
    }
    best
}

/// Whether the regions can be placed: no region lists a column twice, and
/// the rows of all regions together are a number of the machine.
pub open spec fn spec_placeable(shapes: Seq<RegionShape>) -> bool {
    &&& spec_total_rows(shapes) <= usize::MAX
    &&& forall|i: int| 0 <= i < shapes.len() ==> (#[trigger] shapes[i]).columns@.no_duplicates()
}

/// Sorts the regions by advice area and then lays them out, first fit.
///
/// The regions are placed by falling advice area, regions of the same area
/// in the order in which they were measured. Each region starts at the
/// first row from which on its rows are free in all of its columns.
/// Returns the start of each region, in the order of `region_shapes`, and
/// the allocated rows of each column.
pub fn slot_in_biggest_advice_first(region_shapes: Vec<RegionShape>) -> (r: (
    Vec<RegionStart>,
    CircuitAllocations,
))
    requires
        spec_placeable(region_shapes@),
    ensures
        spec_placed(region_shapes@, r.0@),
        r.1.spec_wf(),
        r.1.spec_reflects(region_shapes@, r.0@, spec_all(region_shapes@)),
        r.1.spec_below(spec_total_rows(region_shapes@) as int),
{
    let ghost shapes = region_shapes@;
    let n = region_shapes.len();
    let mut areas: Vec<u128> = Vec::new();
    let mut placed: Vec<bool> = Vec::new();
    let mut starts: Vec<RegionStart> = Vec::new();
    let mut j: usize = 0;
    while j < n
        invariant
            j <= n,
            n == shapes.len(),
            shapes == region_shapes@,
            areas@.len() == j,
            placed@.len() == j,
            starts@.len() == j,
            forall|t: int| 0 <= t < j ==> #[trigger] areas@[t] == spec_area(shapes[t]),
            forall|t: int| 0 <= t < j ==> !#[trigger] placed@[t],
            spec_placed_rows(shapes, placed@, j as int) == 0,
            spec_unplaced(placed@, j as int) == j,
        decreases n - j,
    {
        let ghost before = placed@;
        areas.push(advice_area(&region_shapes[j]));
        placed.push(false);
        starts.push(RegionStart(0));
        proof {
            lemma_same_counts(shapes, before, placed@, j as int);
        }
        j += 1;
    }
    let mut allocations = CircuitAllocations::new();
    let mut total: usize = 0;
    proof {
        assert(shapes.subrange(0, n as int) =~= shapes);
    }
    loop
        invariant
            n == shapes.len(),
            shapes == region_shapes@,
            spec_placeable(shapes),
            areas@.len() == n,
            placed@.len() == n,
            starts@.len() == n,
            forall|t: int| 0 <= t < n ==> #[trigger] areas@[t] == spec_area(shapes[t]),
            forall|a: int, b: int|
                0 <= a < n && 0 <= b < n && #[trigger] placed@[a] && !#[trigger] placed@[b]
                    ==> spec_before(shapes, a, b),
            forall|i: int|
                0 <= i < n && placed@[i] ==> #[trigger] spec_fits(
                    shapes,
                    starts@,
                    i,
                    starts@[i].0 as int,
                ),
            forall|i: int, row: int|
                0 <= i < n && placed@[i] && 0 <= row < starts@[i].0 ==> !#[trigger] spec_fits(
                    shapes,
                    starts@,
                    i,
                    row,
                ),
            allocations.spec_wf(),
            allocations.spec_reflects(shapes, starts@, placed@),
            allocations.spec_below(total as int),
            total == spec_placed_rows(shapes, placed@, n as int),
        ensures
            forall|t: int| 0 <= t < n ==> #[trigger] placed@[t],
        decreases spec_unplaced(placed@, n as int),
    {
        let i = match next_region(&areas, &placed, Ghost(shapes)) {
            None => {
                break ;
            },
            Some(i) => i,
        };
        let ghost placed0 = placed@;
        let ghost starts0 = starts@;
        let ghost allocations0 = allocations;
        let shape = &region_shapes[i];
        proof {
            lemma_place(shapes, placed0, i as int, n as int);
            lemma_placed_rows_bounded(shapes, placed0.update(i as int, true), n as int);
            assert(shapes.subrange(0, n as int) =~= shapes);
            assert forall|t: int| 0 <= t < n implies (#[trigger] placed0[t] <==> spec_before(
                shapes,
                t,
                i as int,
            )) by {
                if !placed0[t] && t != i {
                    assert(spec_before(shapes, i as int, t));
                }
            }
        }
        let start = allocations.first_fit(&shape.columns, shape.row_count, total);
        allocations.reserve(&shape.columns, start, shape.row_count);
        starts[i] = RegionStart(start);
        placed[i] = true;
        total = total + shape.row_count;
        proof {
            lemma_reserve_reflects(allocations0, allocations, shapes, starts0, placed0, i as int, start);
            lemma_reserve_below(
                allocations0,
                allocations,
                shape.columns@,
                start,
                shape.row_count,
                (total - shape.row_count) as int,
            );
            assert forall|k: int| 0 <= k < n && placed@[k] implies #[trigger] spec_fits(
                shapes,
                starts@,
                k,
                starts@[k].0 as int,
            ) by {
                if k != i {
                    assert(spec_before(shapes, k, i as int));
                    assert forall|t: int| 0 <= t < n && #[trigger] spec_before(
                        shapes,
                        t,
                        k,
                    ) implies starts0[t] == starts@[t] by {}
                    lemma_fits_depends(shapes, starts0, starts@, k, starts@[k].0 as int);
                    assert(spec_fits(shapes, starts0, k, starts0[k].0 as int));
                } else {
                    assert forall|t: int| 0 <= t < n && #[trigger] spec_before(
                        shapes,
                        t,
                        k,
                    ) implies starts0[t] == starts@[t] by {}
                    lemma_fits_depends(shapes, starts0, starts@, k, start as int);
                    lemma_free_is_fit(allocations0, shapes, starts0, placed0, i as int, start as int);
                }
            }
            assert forall|k: int, row: int|
                0 <= k < n && placed@[k] && 0 <= row < starts@[k].0 implies !#[trigger] spec_fits(
                shapes,
                starts@,
                k,
                row,
            ) by {
                assert forall|t: int| 0 <= t < n && #[trigger] spec_before(
                    shapes,
                    t,
                    k,
                ) implies starts0[t] == starts@[t] by {
                    if k != i {
                        assert(spec_before(shapes, k, i as int));
                    }
                }
                lemma_fits_depends(shapes, starts0, starts@, k, row);
                if k != i {
                    assert(!spec_fits(shapes, starts0, k, row));
                } else {
                    lemma_free_is_fit(allocations0, shapes, starts0, placed0, i as int, row);
                }
            }
            assert forall|a: int, b: int|
                0 <= a < n && 0 <= b < n && #[trigger] placed@[a] && !#[trigger] placed@[b] implies spec_before(
                shapes,
                a,
                b,
            ) by {
                assert(!placed0[b]);
                if a != i {
                    assert(placed0[a]);
                }
            }
        }
    }
    proof {
        assert(placed@ =~= spec_all(shapes));
        lemma_placed_rows_bounded(shapes, placed@, n as int);
        assert(shapes.subrange(0, n as int) =~= shapes);
    }
    (starts, allocations)
}

/// Counting over flags that agree on the first `upto` regions gives the
/// same.
pub proof fn lemma_same_counts(shapes: Seq<RegionShape>, a: Seq<bool>, b: Seq<bool>, upto: int)
    requires
        0 <= upto <= a.len(),
        upto <= b.len(),
        forall|t: int| 0 <= t < upto ==> a[t] == b[t],
    ensures
        spec_placed_rows(shapes, a, upto) == spec_placed_rows(shapes, b, upto),
        spec_unplaced(a, upto) == spec_unplaced(b, upto),
    decreases upto,
{
    if upto > 0 {
        lemma_same_counts(shapes, a, b, upto - 1);
    }
}

} // verus!

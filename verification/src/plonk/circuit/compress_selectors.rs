//! Combining selectors into fixed columns.
//!
//! Selectors whose activations never meet in a row can share one fixed
//! column: the column holds a different non-zero value for each of them, and
//! zero where none is active. Each selector is then replaced by a product
//! that is non-zero on its own value only. The product of a combination of
//! `m` selectors has degree `m`, so a combination is kept small enough that
//! the gates it appears in stay within the degree of the constraint system.

use super::column::FixedQuery;
use super::expression::Expression;
use vstd::prelude::*;

verus! {

/// Whether no row is active in both `a` and `b`.
pub open spec fn spec_disjoint(a: Seq<bool>, b: Seq<bool>) -> bool {
    forall|r: int| 0 <= r < a.len() && r < b.len() ==> !(#[trigger] a[r] && b[r])
}

/// Whether the combination `g` has a selector of rank `r`.
pub open spec fn spec_has_member(group: Seq<usize>, rank: Seq<usize>, g: int, r: int) -> bool {
    exists|i: int| 0 <= i < group.len() && #[trigger] group[i] == g && rank[i] == r
}

/// Whether all of `activations` have `rows` rows.
pub open spec fn spec_uniform(activations: Seq<Vec<bool>>, rows: nat) -> bool {
    forall|i: int| 0 <= i < activations.len() ==> (#[trigger] activations[i])@.len() == rows
}

/// A grouping of selectors into combinations: for each selector the
/// combination that it is in and its rank in that combination, and for each
/// combination its size.
#[derive(Debug)]
pub struct Combinations {
    pub group: Vec<usize>,
    pub rank: Vec<usize>,
    pub sizes: Vec<usize>,
}

impl Combinations {
    /// Whether the grouping is a grouping of the selectors by their rows:
    /// every selector is in one combination, no combination is empty, and
    /// the selectors of a combination have the ranks from zero up to its
    /// size, each once, and are active in different rows.
    pub open spec fn spec_grouped(&self, activations: Seq<Vec<bool>>) -> bool {
        let n = activations.len();
        &&& self.group@.len() == n
        &&& self.rank@.len() == n
        &&& forall|i: int|
            0 <= i < n ==> (#[trigger] self.group@[i]) < self.sizes@.len() && self.rank@[i]
                < self.sizes@[self.group@[i] as int]
        &&& forall|i: int, j: int|
            0 <= i < n && 0 <= j < n && i != j && (#[trigger] self.group@[i]) == (
            #[trigger] self.group@[j]) ==> self.rank@[i] != self.rank@[j] && spec_disjoint(
                activations[i]@,
                activations[j]@,
            )
        &&& forall|g: int, r: int|
            0 <= g < self.sizes@.len() && 0 <= r < self.sizes@[g] ==> #[trigger] spec_has_member(
                self.group@,
                self.rank@,
                g,
                r,
            )
        &&& forall|g: int| 0 <= g < self.sizes@.len() ==> (#[trigger] self.sizes@[g]) >= 1
    }

    /// Whether the grouping is the one that taking the selectors in order
    /// gives. The selectors of degree zero have the first combinations, one
    /// each, in their order. The other combinations are in the order of
    /// their first selectors. A selector of a combination has the rank of
    /// its place among the selectors of the combination. Each selector of
    /// non-zero degree is in the first combination that it can join, and
    /// starts a combination if it can join none: it can join a combination
    /// if it is active in no row of an earlier selector of the combination,
    /// and the combination stays within `max_degree` with it.
    pub open spec fn spec_greedy(
        &self,
        activations: Seq<Vec<bool>>,
        degrees: Seq<usize>,
        max_degree: usize,
    ) -> bool {
        let n = activations.len() as int;
        let zeros = spec_zeros(degrees, n);
        &&& forall|i: int|
            0 <= i < n && (#[trigger] degrees[i]) == 0 ==> self.group@[i] == spec_zeros(degrees, i)
                && self.rank@[i] == 0
        &&& forall|i: int|
            0 <= i < n && (#[trigger] degrees[i]) > 0 ==> self.group@[i] >= zeros && self.rank@[i]
                == spec_members_below(self.group@, self.group@[i] as int, i)
        &&& forall|i: int, g: int|
            0 <= i < n && degrees[i] > 0 && zeros <= g < self.group@[i]
                && #[trigger] spec_members_below(self.group@, g, i) > 0 ==> !spec_joins(
                self.group@,
                activations,
                degrees,
                max_degree,
                g,
                i,
            )
        &&& forall|i: int|
            0 <= i < n && degrees[i] > 0 && (#[trigger] self.rank@[i]) > 0 ==> spec_joins(
                self.group@,
                activations,
                degrees,
                max_degree,
                self.group@[i] as int,
                i,
            )
        &&& forall|a: int, b: int|
            0 <= a < n && 0 <= b < n && degrees[a] > 0 && degrees[b] > 0 && self.rank@[a] == 0
                && self.rank@[b] == 0 && (#[trigger] self.group@[a]) < (#[trigger] self.group@[b])
                ==> a < b
    }

    /// Whether the grouping is one that the selectors can be compressed by:
    /// it groups the selectors by their rows; a selector of degree zero is
    /// alone in its combination, and for every other selector the degree of
    /// its gates without the selector, and the size of its combination,
    /// stay together within `max_degree`.
    pub open spec fn spec_valid(
        &self,
        activations: Seq<Vec<bool>>,
        degrees: Seq<usize>,
        max_degree: usize,
    ) -> bool {
        let n = activations.len();
        &&& self.spec_grouped(activations)
        &&& forall|i: int|
            0 <= i < n ==> if degrees[i] == 0 {
                self.sizes@[(#[trigger] self.group@[i]) as int] == 1
            } else {
                degrees[i] - 1 + self.sizes@[self.group@[i] as int] <= max_degree
            }
    }
}

/// Whether no row is active in both `a` and `b`.
pub fn disjoint(a: &Vec<bool>, b: &Vec<bool>) -> (r: bool)
    ensures
        r == spec_disjoint(a@, b@),
{
    let mut row: usize = 0;
    while row < a.len() && row < b.len()
        invariant
            forall|k: int| 0 <= k < row && k < a@.len() && k < b@.len() ==> !(#[trigger] a@[k] && b@[k]),
        decreases a.len() - row,
    {
        if a[row] && b[row] {
            return false;
        }
        row += 1;
    }
    true
}

/// Groups the selectors into combinations. `activations` holds the rows in
/// which each selector is active and `degrees` the largest degree of a gate
/// polynomial that each selector appears in, zero for a selector that
/// appears in none or is not simple.
///
/// A selector of degree zero gets a combination of its own. The others are
/// taken in order: a selector that is in no combination yet starts one, and
/// each later selector joins it if it is in none yet, is active in no row
/// in which a selector of the combination is active, and the combination
/// with it stays within `max_degree`.
pub fn combine(activations: &Vec<Vec<bool>>, degrees: &Vec<usize>, max_degree: usize) -> (r:
    Combinations)
    requires
        degrees@.len() == activations@.len(),
        forall|i: int| 0 <= i < degrees@.len() ==> #[trigger] degrees@[i] <= max_degree,
    ensures
        r.spec_valid(activations@, degrees@, max_degree),
        r.spec_greedy(activations@, degrees@, max_degree),
        r.sizes@.len() <= activations@.len(),
{
    let n = activations.len();
    let mut added: Vec<bool> = Vec::new();
    let mut group: Vec<usize> = Vec::new();
    let mut rank: Vec<usize> = Vec::new();
    let mut sizes: Vec<usize> = Vec::new();

    let mut i: usize = 0;
    while i < n
        invariant
            i <= n,
            added@.len() == i,
            group@.len() == i,
            rank@.len() == i,
            forall|k: int| 0 <= k < i ==> !#[trigger] added@[k],
            forall|k: int| 0 <= k < i ==> #[trigger] group@[k] == usize::MAX,
        decreases n - i,
    {
        added.push(false);
        group.push(usize::MAX);
        rank.push(0);
        i += 1;
    }

    // Selectors of degree zero are complex selectors, or appear in no gate:
    // each gets a column of its own.
    let mut i: usize = 0;
    while i < n
        invariant
            i <= n,
            n == activations@.len(),
            degrees@.len() == n,
            added@.len() == n,
            group@.len() == n,
            rank@.len() == n,
            forall|k: int| 0 <= k < n ==> (#[trigger] added@[k] == (k < i && degrees@[k] == 0)),
            spec_partial(added@, group@, rank@, sizes@, activations@, degrees@, max_degree),
            sizes@.len() == spec_zeros(degrees@, i as int),
            forall|k: int| 0 <= k < n && !added@[k] ==> #[trigger] group@[k] == usize::MAX,
            forall|k: int|
                0 <= k < n && added@[k] ==> #[trigger] group@[k] == spec_zeros(degrees@, k)
                    && rank@[k] == 0,
        decreases n - i,
    {
        if degrees[i] == 0 {
            let g = sizes.len();
            proof {
                lemma_single(
                    added@,
                    group@,
                    rank@,
                    sizes@,
                    activations@,
                    degrees@,
                    max_degree,
                    i as int,
                );
            }
            added[i] = true;
            group[i] = g;
            rank[i] = 0;
            sizes.push(1);
        }
        i += 1;
    }

    // The other selectors are simple: combine those that are compatible.
    let zeros = sizes.len();
    proof {
        lemma_zeros_monotonic(degrees@, 0, n as int);
        assert forall|k: int, g: int|
            0 <= k < n && degrees@[k] > 0 && zeros <= g && g < zeros && (added@[k] ==> g
                < group@[k]) && #[trigger] spec_members_below(group@, g, k) > 0 implies !spec_joins(
            group@,
            activations@,
            degrees@,
            max_degree,
            g,
            k,
        ) by {}
    }
    let mut i: usize = 0;
    while i < n
        invariant
            i <= n,
            n == activations@.len(),
            degrees@.len() == n,
            added@.len() == n,
            group@.len() == n,
            rank@.len() == n,
            zeros == spec_zeros(degrees@, n as int),
            zeros <= sizes@.len(),
            forall|k: int| 0 <= k < n ==> #[trigger] degrees@[k] <= max_degree,
            forall|k: int| 0 <= k < i ==> #[trigger] added@[k],
            forall|k: int| 0 <= k < n && degrees@[k] == 0 ==> #[trigger] added@[k],
            spec_partial(added@, group@, rank@, sizes@, activations@, degrees@, max_degree),
            sizes@.len() <= spec_zeros(degrees@, n as int) + i - spec_zeros(degrees@, i as int),
            spec_greedy_upto(
                added@,
                group@,
                rank@,
                activations@,
                degrees@,
                max_degree,
                sizes@.len() as int,
                zeros as int,
            ),
            forall|k: int|
                0 <= k < n && added@[k] && degrees@[k] > 0 && rank@[k] == 0 ==> k < i,
        decreases n - i,
    {
        if !added[i] {
            let g = sizes.len();
            proof {
                lemma_zeros_monotonic(degrees@, i as int + 1, n as int);
                lemma_start(
                    added@,
                    group@,
                    rank@,
                    sizes@,
                    activations@,
                    degrees@,
                    max_degree,
                    i as int,
                );
                lemma_greedy_start(
                    added@,
                    group@,
                    rank@,
                    activations@,
                    degrees@,
                    max_degree,
                    g as int,
                    zeros as int,
                    i as int,
                );
            }
            added[i] = true;
            group[i] = g;
            rank[i] = 0;
            // The largest degree of a gate of the combination, without the
            // selector, which the caller substitutes.
            let mut d: usize = degrees[i] - 1;
            let mut members: Vec<usize> = Vec::new();
            members.push(i);
            let mut j: usize = i + 1;
            while j < n && d + members.len() < max_degree
                invariant
                    i < j <= n,
                    n == activations@.len(),
                    degrees@.len() == n,
                    added@.len() == n,
                    group@.len() == n,
                    rank@.len() == n,
                    g == sizes@.len(),
                    g < usize::MAX,
                    zeros == spec_zeros(degrees@, n as int),
                    zeros <= g,
                    forall|k: int| 0 <= k < n ==> #[trigger] degrees@[k] <= max_degree,
                    forall|k: int| 0 <= k <= i ==> #[trigger] added@[k],
                    forall|k: int| 0 <= k < n && degrees@[k] == 0 ==> #[trigger] added@[k],
                    spec_open(
                        added@,
                        group@,
                        rank@,
                        sizes@,
                        members@,
                        d,
                        activations@,
                        degrees@,
                        max_degree,
                    ),
                    spec_greedy_open(
                        added@,
                        group@,
                        rank@,
                        activations@,
                        degrees@,
                        max_degree,
                        g as int,
                        zeros as int,
                        i as int,
                        j as int,
                        members@.len() as int,
                        d as int,
                    ),
                    forall|k: int|
                        0 <= k < n && added@[k] && degrees@[k] > 0 && rank@[k] == 0 ==> k <= i,
                decreases n - j,
            {
                if !added[j] {
                    // Is this selector active in a row in which a selector
                    // of the combination is active?
                    let mut compatible = true;
                    let mut m: usize = 0;
                    while m < members.len() && compatible
                        invariant
                            m <= members@.len(),
                            j < n,
                            n == activations@.len(),
                            forall|t: int|
                                0 <= t < members@.len() ==> 0 <= #[trigger] members@[t] < n,
                            compatible ==> forall|t: int|
                                0 <= t < m ==> spec_disjoint(
                                    activations@[j as int]@,
                                    activations@[(#[trigger] members@[t]) as int]@,
                                ),
                            !compatible ==> exists|t: int|
                                0 <= t < members@.len() && !spec_disjoint(
                                    activations@[j as int]@,
                                    activations@[(#[trigger] members@[t]) as int]@,
                                ),
                        decreases members.len() - m + if compatible { 1nat } else { 0nat },
                    {
                        if !disjoint(&activations[j], &activations[members[m]]) {
                            compatible = false;
                        } else {
                            m += 1;
                        }
                    }
                    let dj = degrees[j] - 1;
                    let new_d = if d >= dj {
                        d
                    } else {
                        dj
                    };
                    // Can the selector join the combination? The
                    // combination with it has one factor more.
                    let joins = compatible && members.len() < max_degree - new_d;
                    proof {
                        lemma_joins_decided(
                            added@,
                            group@,
                            rank@,
                            members@,
                            d as int,
                            activations@,
                            degrees@,
                            max_degree,
                            g as int,
                            j as int,
                            compatible,
                        );
                    }
                    if joins {
                        proof {
                            lemma_join(
                                added@,
                                group@,
                                rank@,
                                sizes@,
                                members@,
                                d,
                                activations@,
                                degrees@,
                                max_degree,
                                j as int,
                            );
                            lemma_greedy_join(
                                added@,
                                group@,
                                rank@,
                                activations@,
                                degrees@,
                                max_degree,
                                g as int,
                                zeros as int,
                                i as int,
                                j as int,
                                members@.len() as int,
                                d as int,
                            );
                        }
                        d = new_d;
                        added[j] = true;
                        group[j] = g;
                        rank[j] = members.len();
                        members.push(j);
                    } else {
                        proof {
                            lemma_greedy_skip(
                                added@,
                                group@,
                                rank@,
                                activations@,
                                degrees@,
                                max_degree,
                                g as int,
                                zeros as int,
                                i as int,
                                j as int,
                                members@.len() as int,
                                d as int,
                            );
                        }
                    }
                } else {
                    proof {
                        lemma_greedy_pass(
                            added@,
                            group@,
                            rank@,
                            activations@,
                            degrees@,
                            max_degree,
                            g as int,
                            zeros as int,
                            i as int,
                            j as int,
                            members@.len() as int,
                            d as int,
                        );
                    }
                }
                j += 1;
            }
            proof {
                lemma_close(
                    added@,
                    group@,
                    rank@,
                    sizes@,
                    members@,
                    d,
                    activations@,
                    degrees@,
                    max_degree,
                );
                lemma_greedy_close(
                    added@,
                    group@,
                    rank@,
                    activations@,
                    degrees@,
                    max_degree,
                    g as int,
                    zeros as int,
                    i as int,
                    j as int,
                    members@.len() as int,
                    d as int,
                );
            }
            sizes.push(members.len());
        }
        i += 1;
    }
    proof {
        lemma_partial_done(added@, group@, rank@, sizes@, activations@, degrees@, max_degree);
    }
    Combinations { group, rank, sizes }
}

/// Number of selectors of degree zero among the first `k`.
pub open spec fn spec_zeros(degrees: Seq<usize>, k: int) -> int
    decreases k,
{
    if k <= 0 {
        0
    } else {
        spec_zeros(degrees, k - 1) + if degrees[k - 1] == 0 {
            1int
        } else {
            0int
        }
    }
}

/// Whether the grouping is valid as far as it goes: what holds of a valid
/// grouping holds of the selectors that are in a combination already.
pub open spec fn spec_partial(
    added: Seq<bool>,
    group: Seq<usize>,
    rank: Seq<usize>,
    sizes: Seq<usize>,
    activations: Seq<Vec<bool>>,
    degrees: Seq<usize>,
    max_degree: usize,
) -> bool {
    let n = activations.len();
    &&& forall|i: int|
        0 <= i < n && added[i] ==> (#[trigger] group[i]) < sizes.len() && rank[i]
            < sizes[group[i] as int]
    &&& forall|i: int, j: int|
        0 <= i < n && 0 <= j < n && i != j && added[i] && added[j] && (#[trigger] group[i]) == (
        #[trigger] group[j]) ==> rank[i] != rank[j] && spec_disjoint(
            activations[i]@,
            activations[j]@,
        )
    &&& forall|g: int, r: int|
        0 <= g < sizes.len() && 0 <= r < sizes[g] ==> #[trigger] spec_has_added_member(
            added,
            group,
            rank,
            g,
            r,
        )
    &&& forall|i: int|
        0 <= i < n && added[i] ==> if degrees[i] == 0 {
            sizes[(#[trigger] group[i]) as int] == 1
        } else {
            degrees[i] - 1 + sizes[group[i] as int] <= max_degree
        }
    &&& forall|g: int| 0 <= g < sizes.len() ==> (#[trigger] sizes[g]) >= 1
}

/// Whether the combination `g` has a selector of rank `r` among those that
/// are in a combination already.
pub open spec fn spec_has_added_member(
    added: Seq<bool>,
    group: Seq<usize>,
    rank: Seq<usize>,
    g: int,
    r: int,
) -> bool {
    exists|i: int| 0 <= i < group.len() && added[i] && #[trigger] group[i] == g && rank[i] == r
}

/// Whether the grouping is valid as far as it goes while one more
/// combination is open: `members` are its selectors in the order of their
/// ranks, none of degree zero, and `d` is the largest degree of their gates
/// without the selector.
pub open spec fn spec_open(
    added: Seq<bool>,
    group: Seq<usize>,
    rank: Seq<usize>,
    sizes: Seq<usize>,
    members: Seq<usize>,
    d: usize,
    activations: Seq<Vec<bool>>,
    degrees: Seq<usize>,
    max_degree: usize,
) -> bool {
    let n = activations.len();
    let g = sizes.len();
    &&& members.len() >= 1
    &&& d + members.len() <= max_degree
    &&& forall|t: int|
        0 <= t < members.len() ==> 0 <= (#[trigger] members[t]) < n && added[members[t] as int]
            && group[members[t] as int] == g && rank[members[t] as int] == t
            && degrees[members[t] as int] > 0 && degrees[members[t] as int] - 1 <= d
    &&& forall|t: int, u: int|
        0 <= t < members.len() && 0 <= u < members.len() && t != u ==> spec_disjoint(
            activations[(#[trigger] members[t]) as int]@,
            activations[(#[trigger] members[u]) as int]@,
        )
    &&& forall|i: int|
        0 <= i < n && added[i] ==> (#[trigger] group[i]) <= g && (group[i] == g ==> rank[i]
            < members.len() && members[rank[i] as int] == i) && (group[i] < g ==> rank[i]
            < sizes[group[i] as int])
    &&& forall|i: int, j: int|
        0 <= i < n && 0 <= j < n && i != j && added[i] && added[j] && (#[trigger] group[i]) == (
        #[trigger] group[j]) && group[i] < g ==> rank[i] != rank[j] && spec_disjoint(
            activations[i]@,
            activations[j]@,
        )
    &&& forall|h: int, r: int|
        0 <= h < sizes.len() && 0 <= r < sizes[h] ==> #[trigger] spec_has_added_member(
            added,
            group,
            rank,
            h,
            r,
        )
    &&& forall|i: int|
        0 <= i < n && added[i] && (#[trigger] group[i]) < g ==> if degrees[i] == 0 {
            sizes[group[i] as int] == 1
        } else {
            degrees[i] - 1 + sizes[group[i] as int] <= max_degree
        }
    &&& forall|h: int| 0 <= h < sizes.len() ==> (#[trigger] sizes[h]) >= 1
}

/// A selector of non-zero degree that is in no combination can open a new
/// combination.
pub proof fn lemma_start(
    added: Seq<bool>,
    group: Seq<usize>,
    rank: Seq<usize>,
    sizes: Seq<usize>,
    activations: Seq<Vec<bool>>,
    degrees: Seq<usize>,
    max_degree: usize,
    i: int,
)
    requires
        spec_partial(added, group, rank, sizes, activations, degrees, max_degree),
        added.len() == activations.len(),
        group.len() == activations.len(),
        rank.len() == activations.len(),
        degrees.len() == activations.len(),
        0 <= i < activations.len(),
        activations.len() <= usize::MAX,
        sizes.len() <= usize::MAX,
        !added[i],
        0 < degrees[i] <= max_degree,
    ensures
        spec_open(
            added.update(i, true),
            group.update(i, sizes.len() as usize),
            rank.update(i, 0),
            sizes,
            seq![i as usize],
            (degrees[i] - 1) as usize,
            activations,
            degrees,
            max_degree,
        ),
{
    let added2 = added.update(i, true);
    let group2 = group.update(i, sizes.len() as usize);
    let rank2 = rank.update(i, 0);
    let members = seq![i as usize];
    let n = activations.len();
    let g = sizes.len();
    assert forall|h: int, r: int|
        0 <= h < sizes.len() && 0 <= r < sizes[h] implies #[trigger] spec_has_added_member(
        added2,
        group2,
        rank2,
        h,
        r,
    ) by {
        assert(spec_has_added_member(added, group, rank, h, r));
        let k = choose|k: int|
            0 <= k < group.len() && added[k] && #[trigger] group[k] == h && rank[k] == r;
        assert(added2[k] && group2[k] == h && rank2[k] == r);
    }
    assert forall|k: int| 0 <= k < n && added2[k] implies (#[trigger] group2[k]) <= g && (group2[k]
        == g ==> rank2[k] < members.len() && members[rank2[k] as int] == k) && (group2[k] < g
        ==> rank2[k] < sizes[group2[k] as int]) by {
        if k != i {
            assert(group[k] < g);
        }
    }
    assert forall|k: int, l: int|
        0 <= k < n && 0 <= l < n && k != l && added2[k] && added2[l] && (#[trigger] group2[k]) == (
        #[trigger] group2[l]) && group2[k] < g implies rank2[k] != rank2[l] && spec_disjoint(
        activations[k]@,
        activations[l]@,
    ) by {
        if l != i {
            assert(group[l] < g);
        }
        assert(group[k] == group[l]);
    }
    assert forall|k: int| 0 <= k < n && added2[k] && (#[trigger] group2[k]) < g implies if degrees[k]
        == 0 {
        sizes[group2[k] as int] == 1
    } else {
        degrees[k] - 1 + sizes[group2[k] as int] <= max_degree
    } by {
        assert(group[k] < g);
    }
}

/// A selector that is in no combination, is active in no row of a selector
/// of the open combination, and fits the degree, can join the open
/// combination.
pub proof fn lemma_join(
    added: Seq<bool>,
    group: Seq<usize>,
    rank: Seq<usize>,
    sizes: Seq<usize>,
    members: Seq<usize>,
    d: usize,
    activations: Seq<Vec<bool>>,
    degrees: Seq<usize>,
    max_degree: usize,
    j: int,
)
    requires
        spec_open(added, group, rank, sizes, members, d, activations, degrees, max_degree),
        added.len() == activations.len(),
        group.len() == activations.len(),
        rank.len() == activations.len(),
        degrees.len() == activations.len(),
        0 <= j < activations.len(),
        activations.len() <= usize::MAX,
        sizes.len() <= usize::MAX,
        members.len() <= usize::MAX,
        !added[j],
        degrees[j] > 0,
        forall|t: int|
            0 <= t < members.len() ==> spec_disjoint(
                activations[j]@,
                activations[(#[trigger] members[t]) as int]@,
            ),
        spec_larger(d, (degrees[j] - 1) as usize) + members.len() + 1 <= max_degree,
    ensures
        spec_open(
            added.update(j, true),
            group.update(j, sizes.len() as usize),
            rank.update(j, members.len() as usize),
            sizes,
            members.push(j as usize),
            spec_larger(d, (degrees[j] - 1) as usize),
            activations,
            degrees,
            max_degree,
        ),
{
    let added2 = added.update(j, true);
    let group2 = group.update(j, sizes.len() as usize);
    let rank2 = rank.update(j, members.len() as usize);
    let members2 = members.push(j as usize);
    let n = activations.len();
    let g = sizes.len();
    assert forall|t: int| 0 <= t < members.len() implies (#[trigger] members[t]) != j by {
        assert(added[members[t] as int]);
    }
    assert forall|t: int, u: int|
        0 <= t < members2.len() && 0 <= u < members2.len() && t != u implies spec_disjoint(
        activations[(#[trigger] members2[t]) as int]@,
        activations[(#[trigger] members2[u]) as int]@,
    ) by {
        if t == members.len() {
            assert(spec_disjoint(activations[j]@, activations[members[u] as int]@));
        } else if u == members.len() {
            assert(spec_disjoint(activations[j]@, activations[members[t] as int]@));
            lemma_disjoint_symmetric(activations[j]@, activations[members[t] as int]@);
        } else {
            assert(spec_disjoint(
                activations[members[t] as int]@,
                activations[members[u] as int]@,
            ));
        }
    }
    assert forall|h: int, r: int|
        0 <= h < sizes.len() && 0 <= r < sizes[h] implies #[trigger] spec_has_added_member(
        added2,
        group2,
        rank2,
        h,
        r,
    ) by {
        assert(spec_has_added_member(added, group, rank, h, r));
        let i = choose|i: int|
            0 <= i < group.len() && added[i] && #[trigger] group[i] == h && rank[i] == r;
        assert(added2[i] && group2[i] == h && rank2[i] == r);
    }
    assert forall|i: int| 0 <= i < n && added2[i] implies (#[trigger] group2[i]) <= g && (group2[i]
        == g ==> rank2[i] < members2.len() && members2[rank2[i] as int] == i) && (group2[i] < g
        ==> rank2[i] < sizes[group2[i] as int]) by {
        if i != j {
            assert(group[i] <= g);
        }
    }
    assert forall|i: int, k: int|
        0 <= i < n && 0 <= k < n && i != k && added2[i] && added2[k] && (#[trigger] group2[i]) == (
        #[trigger] group2[k]) && group2[i] < g implies rank2[i] != rank2[k] && spec_disjoint(
        activations[i]@,
        activations[k]@,
    ) by {
        assert(group[i] == group[k]);
    }
    assert forall|i: int| 0 <= i < n && added2[i] && (#[trigger] group2[i]) < g implies if degrees[i]
        == 0 {
        sizes[group2[i] as int] == 1
    } else {
        degrees[i] - 1 + sizes[group2[i] as int] <= max_degree
    } by {
        assert(group[i] < g);
    }
}

/// The larger of two numbers.
pub open spec fn spec_larger(a: usize, b: usize) -> usize {
    if a >= b {
        a
    } else {
        b
    }
}

/// Rows that are not shared one way are not shared the other way.
pub proof fn lemma_disjoint_symmetric(a: Seq<bool>, b: Seq<bool>)
    requires
        spec_disjoint(a, b),
    ensures
        spec_disjoint(b, a),
{
    assert forall|r: int| 0 <= r < b.len() && r < a.len() implies !(#[trigger] b[r] && a[r]) by {
        assert(!(a[r] && b[r]));
    }
}

/// Closing the open combination, with the number of its selectors as its
/// size, leaves a grouping that is valid as far as it goes.
pub proof fn lemma_close(
    added: Seq<bool>,
    group: Seq<usize>,
    rank: Seq<usize>,
    sizes: Seq<usize>,
    members: Seq<usize>,
    d: usize,
    activations: Seq<Vec<bool>>,
    degrees: Seq<usize>,
    max_degree: usize,
)
    requires
        spec_open(added, group, rank, sizes, members, d, activations, degrees, max_degree),
        added.len() == activations.len(),
        group.len() == activations.len(),
        rank.len() == activations.len(),
        degrees.len() == activations.len(),
        members.len() <= usize::MAX,
    ensures
        spec_partial(
            added,
            group,
            rank,
            sizes.push(members.len() as usize),
            activations,
            degrees,
            max_degree,
        ),
{
    let sizes2 = sizes.push(members.len() as usize);
    let n = activations.len();
    let g = sizes.len();
    assert forall|i: int| 0 <= i < n && added[i] implies (#[trigger] group[i]) < sizes2.len()
        && rank[i] < sizes2[group[i] as int] by {
        assert(group[i] <= g);
    }
    assert forall|i: int, j: int|
        0 <= i < n && 0 <= j < n && i != j && added[i] && added[j] && (#[trigger] group[i]) == (
        #[trigger] group[j]) implies rank[i] != rank[j] && spec_disjoint(
        activations[i]@,
        activations[j]@,
    ) by {
        assert(group[i] <= g);
        if group[i] == g {
            assert(members[rank[i] as int] == i && members[rank[j] as int] == j);
            assert(spec_disjoint(
                activations[members[rank[i] as int] as int]@,
                activations[members[rank[j] as int] as int]@,
            ));
        }
    }
    assert forall|h: int, r: int|
        0 <= h < sizes2.len() && 0 <= r < sizes2[h] implies #[trigger] spec_has_added_member(
        added,
        group,
        rank,
        h,
        r,
    ) by {
        if h == g {
            let i = members[r] as int;
            assert(added[i] && group[i] == h && rank[i] == r);
        } else {
            assert(spec_has_added_member(added, group, rank, h, r));
        }
    }
    assert forall|i: int| 0 <= i < n && added[i] implies if degrees[i] == 0 {
        sizes2[(#[trigger] group[i]) as int] == 1
    } else {
        degrees[i] - 1 + sizes2[group[i] as int] <= max_degree
    } by {
        assert(group[i] <= g);
        if group[i] == g {
            assert(members[rank[i] as int] == i);
            assert(degrees[members[rank[i] as int] as int] > 0);
        }
    }
}

/// A selector of degree zero that is in no combination can get a new
/// combination of its own.
pub proof fn lemma_single(
    added: Seq<bool>,
    group: Seq<usize>,
    rank: Seq<usize>,
    sizes: Seq<usize>,
    activations: Seq<Vec<bool>>,
    degrees: Seq<usize>,
    max_degree: usize,
    i: int,
)
    requires
        spec_partial(added, group, rank, sizes, activations, degrees, max_degree),
        added.len() == activations.len(),
        group.len() == activations.len(),
        rank.len() == activations.len(),
        degrees.len() == activations.len(),
        0 <= i < activations.len(),
        sizes.len() <= usize::MAX,
        !added[i],
        degrees[i] == 0,
    ensures
        spec_partial(
            added.update(i, true),
            group.update(i, sizes.len() as usize),
            rank.update(i, 0),
            sizes.push(1),
            activations,
            degrees,
            max_degree,
        ),
{
    let added2 = added.update(i, true);
    let group2 = group.update(i, sizes.len() as usize);
    let rank2 = rank.update(i, 0);
    let sizes2 = sizes.push(1);
    let n = activations.len();
    let g = sizes.len();
    assert forall|k: int| 0 <= k < n && added2[k] implies (#[trigger] group2[k]) < sizes2.len()
        && rank2[k] < sizes2[group2[k] as int] by {
        if k != i {
            assert(group[k] < g);
        }
    }
    assert forall|k: int, l: int|
        0 <= k < n && 0 <= l < n && k != l && added2[k] && added2[l] && (#[trigger] group2[k]) == (
        #[trigger] group2[l]) implies rank2[k] != rank2[l] && spec_disjoint(
        activations[k]@,
        activations[l]@,
    ) by {
        if k != i {
            assert(group[k] < g);
        }
        if l != i {
            assert(group[l] < g);
        }
        assert(group[k] == group[l]);
    }
    assert forall|h: int, r: int|
        0 <= h < sizes2.len() && 0 <= r < sizes2[h] implies #[trigger] spec_has_added_member(
        added2,
        group2,
        rank2,
        h,
        r,
    ) by {
        if h == g {
            assert(added2[i] && group2[i] == h && rank2[i] == r);
        } else {
            assert(spec_has_added_member(added, group, rank, h, r));
            let k = choose|k: int|
                0 <= k < group.len() && added[k] && #[trigger] group[k] == h && rank[k] == r;
            assert(added2[k] && group2[k] == h && rank2[k] == r);
        }
    }
    assert forall|k: int| 0 <= k < n && added2[k] implies if degrees[k] == 0 {
        sizes2[(#[trigger] group2[k]) as int] == 1
    } else {
        degrees[k] - 1 + sizes2[group2[k] as int] <= max_degree
    } by {
        if k != i {
            assert(group[k] < g);
        }
    }
}

/// Once every selector is in a combination, a grouping that is valid as far
/// as it goes is valid.
pub proof fn lemma_partial_done(
    added: Seq<bool>,
    group: Seq<usize>,
    rank: Seq<usize>,
    sizes: Seq<usize>,
    activations: Seq<Vec<bool>>,
    degrees: Seq<usize>,
    max_degree: usize,
)
    requires
        spec_partial(added, group, rank, sizes, activations, degrees, max_degree),
        added.len() == activations.len(),
        group.len() == activations.len(),
        rank.len() == activations.len(),
        forall|k: int| 0 <= k < added.len() ==> #[trigger] added[k],
    ensures
        forall|g: int, r: int|
            0 <= g < sizes.len() && 0 <= r < sizes[g] ==> #[trigger] spec_has_member(
                group,
                rank,
                g,
                r,
            ),
        forall|g: int| 0 <= g < sizes.len() ==> (#[trigger] sizes[g]) >= 1,
{
    assert forall|g: int, r: int|
        0 <= g < sizes.len() && 0 <= r < sizes[g] implies #[trigger] spec_has_member(
        group,
        rank,
        g,
        r,
    ) by {
        assert(spec_has_added_member(added, group, rank, g, r));
    }
}

/// The expression that stands for the selector of rank `rank` in
/// a combination whose column is queried by `query`, with the factors for
/// the ranks below `upto` multiplied on: the query, times one factor
/// `scalars[r + 1] - query` for each other rank `r`, from the lowest on.
pub open spec fn spec_selector_product<F>(
    query: Expression<F>,
    rank: int,
    upto: nat,
    scalars: Seq<F>,
) -> Expression<F>
    decreases upto,
{
    if upto == 0 {
        query
    } else {
        let before = spec_selector_product(query, rank, (upto - 1) as nat, scalars);
        if upto - 1 == rank {
            before
        } else {
            Expression::Product(
                Box::new(before),
                Box::new(
                    Expression::Sum(
                        Box::new(Expression::Constant(scalars[upto as int])),
                        Box::new(Expression::Negated(Box::new(query))),
                    ),
                ),
            )
        }
    }
}

/// The expression that stands for the selector of rank `rank` in
/// a combination of `size` selectors whose column is queried by `query`. It
/// is zero where the column holds zero or the value of another selector of
/// the combination.
pub open spec fn spec_selector_expression<F>(
    query: Expression<F>,
    rank: int,
    size: nat,
    scalars: Seq<F>,
) -> Expression<F> {
    spec_selector_product(query, rank, size, scalars)
}

/// A product of factors without simple selectors has none.
pub proof fn lemma_selector_product_simple_free<F>(
    query: Expression<F>,
    rank: int,
    upto: nat,
    scalars: Seq<F>,
)
    requires
        !query.spec_contains_simple_selector(),
    ensures
        !spec_selector_product(query, rank, upto, scalars).spec_contains_simple_selector(),
    decreases upto,
{
    if upto > 0 {
        lemma_selector_product_simple_free(query, rank, (upto - 1) as nat, scalars);
        reveal_with_fuel(Expression::spec_contains_simple_selector, 4);
    }
}

/// The expression that stands for the selector of rank `rank` in
/// a combination of `size` selectors whose column is queried by `query`.
/// `scalars` holds the field elements zero, one, two and so on.
pub fn selector_expression<F: Copy>(
    query: &Expression<F>,
    rank: usize,
    size: usize,
    scalars: &Vec<F>,
) -> (r: Expression<F>)
    requires
        !query.spec_contains_simple_selector(),
        size < scalars@.len(),
    ensures
        r == spec_selector_expression(*query, rank as int, size as nat, scalars@),
        !r.spec_contains_simple_selector(),
{
    let mut expression = query.duplicate();
    let mut root: usize = 0;
    while root < size
        invariant
            root <= size,
            size < scalars@.len(),
            !query.spec_contains_simple_selector(),
            expression == spec_selector_product(*query, rank as int, root as nat, scalars@),
        decreases size - root,
    {
        proof {
            lemma_selector_product_simple_free(*query, rank as int, root as nat, scalars@);
        }
        if root != rank {
            let factor = Expression::Constant(scalars[root + 1]) - query.duplicate();
            proof {
                reveal_with_fuel(Expression::spec_contains_simple_selector, 3);
            }
            expression = expression * factor;
        }
        root += 1;
    }
    proof {
        lemma_selector_product_simple_free(*query, rank as int, size as nat, scalars@);
    }
    expression
}

/// Whether `values` holds the cells of the columns of the combinations:
/// one column per combination and one cell per row, which holds the value
/// `scalars[rank + 1]` of the selector that is active in the row, and
/// `scalars[0]` if none of the combination is.
pub open spec fn spec_column_values<F>(
    values: Seq<Vec<F>>,
    activations: Seq<Vec<bool>>,
    group: Seq<usize>,
    rank: Seq<usize>,
    combinations: nat,
    rows: nat,
    scalars: Seq<F>,
) -> bool {
    &&& values.len() == combinations
    &&& forall|g: int| 0 <= g < combinations ==> (#[trigger] values[g])@.len() == rows
    &&& forall|i: int, r: int|
        0 <= i < activations.len() && 0 <= r < rows && (#[trigger] activations[i]@[r])
            ==> values[group[i] as int]@[r] == scalars[rank[i] + 1]
    &&& forall|g: int, r: int|
        0 <= g < combinations && 0 <= r < rows && (forall|i: int|
            0 <= i < activations.len() && group[i] == g ==> !(#[trigger] activations[i]@[r]))
            ==> (#[trigger] values[g]@[r]) == scalars[0]
}

/// The cells of the columns of the combinations: see
/// [`spec_column_values`].
pub fn column_values<F: Copy>(
    activations: &Vec<Vec<bool>>,
    plan: &Combinations,
    rows: usize,
    scalars: &Vec<F>,
) -> (r: Vec<Vec<F>>)
    requires
        plan.spec_grouped(activations@),
        spec_uniform(activations@, rows as nat),
        scalars@.len() >= 1,
        forall|g: int| 0 <= g < plan.sizes@.len() ==> (#[trigger] plan.sizes@[g]) < scalars@.len(),
    ensures
        spec_column_values(
            r@,
            activations@,
            plan.group@,
            plan.rank@,
            plan.sizes@.len(),
            rows as nat,
            scalars@,
        ),
{
    let combinations = plan.sizes.len();
    let n = activations.len();
    let mut values: Vec<Vec<F>> = Vec::new();
    let mut g: usize = 0;
    while g < combinations
        invariant
            g <= combinations,
            combinations == plan.sizes@.len(),
            n == activations@.len(),
            plan.spec_grouped(activations@),
            spec_uniform(activations@, rows as nat),
            scalars@.len() >= 1,
            forall|h: int|
                0 <= h < plan.sizes@.len() ==> (#[trigger] plan.sizes@[h]) < scalars@.len(),
            values@.len() == g,
            forall|h: int| 0 <= h < g ==> (#[trigger] values@[h])@.len() == rows,
            forall|i: int, r: int|
                0 <= i < n && 0 <= r < rows && plan.group@[i] < g && (
                #[trigger] activations@[i]@[r]) ==> values@[plan.group@[i] as int]@[r]
                    == scalars@[plan.rank@[i] + 1],
            forall|h: int, r: int|
                0 <= h < g && 0 <= r < rows && (forall|i: int|
                    0 <= i < n && plan.group@[i] == h ==> !(#[trigger] activations@[i]@[r])) ==> (
                #[trigger] values@[h]@[r]) == scalars@[0],
        decreases combinations - g,
    {
        let mut column: Vec<F> = Vec::new();
        let mut row: usize = 0;
        while row < rows
            invariant
                row <= rows,
                column@.len() == row,
                forall|r: int| 0 <= r < row ==> #[trigger] column@[r] == scalars@[0],
                scalars@.len() >= 1,
            decreases rows - row,
        {
            column.push(scalars[0]);
            row += 1;
        }
        let mut i: usize = 0;
        while i < n
            invariant
                i <= n,
                g < combinations,
                combinations == plan.sizes@.len(),
                n == activations@.len(),
                plan.spec_grouped(activations@),
                spec_uniform(activations@, rows as nat),
                scalars@.len() >= 1,
                forall|h: int|
                    0 <= h < plan.sizes@.len() ==> (#[trigger] plan.sizes@[h]) < scalars@.len(),
                column@.len() == rows,
                forall|k: int, r: int|
                    0 <= k < i && 0 <= r < rows && plan.group@[k] == g && (
                    #[trigger] activations@[k]@[r]) ==> column@[r] == scalars@[plan.rank@[k] + 1],
                forall|r: int|
                    0 <= r < rows && (forall|k: int|
                        0 <= k < i && plan.group@[k] == g ==> !(#[trigger] activations@[k]@[r]))
                        ==> (#[trigger] column@[r]) == scalars@[0],
            decreases n - i,
        {
            if plan.group[i] == g {
                let value = scalars[plan.rank[i] + 1];
                let ghost before = column@;
                let mut row: usize = 0;
                assert(activations@[i as int]@.len() == rows);
                while row < rows
                    invariant
                        row <= rows,
                        i < n,
                        n == activations@.len(),
                        activations@[i as int]@.len() == rows,
                        column@.len() == rows,
                        before.len() == rows,
                        forall|r: int|
                            0 <= r < rows ==> #[trigger] column@[r] == if r < row
                                && activations@[i as int]@[r] {
                                value
                            } else {
                                before[r]
                            },
                    decreases rows - row,
                {
                    if activations[i][row] {
                        column[row] = value;
                    }
                    row += 1;
                }
                proof {
                    assert forall|k: int, r: int|
                        0 <= k < i + 1 && 0 <= r < rows && plan.group@[k] == g && (
                        #[trigger] activations@[k]@[r]) implies column@[r] == scalars@[plan.rank@[k]
                        + 1] by {
                        if k < i {
                            assert(before[r] == scalars@[plan.rank@[k] + 1]);
                            if activations@[i as int]@[r] {
                                assert(plan.group@[k] == plan.group@[i as int]);
                                assert(spec_disjoint(activations@[k]@, activations@[i as int]@));
                                assert(!(activations@[k]@[r] && activations@[i as int]@[r]));
                            }
                        }
                    }
                    assert forall|r: int|
                        0 <= r < rows && (forall|k: int|
                            0 <= k < i + 1 && plan.group@[k] == g ==> !(
                            #[trigger] activations@[k]@[r])) implies (#[trigger] column@[r])
                        == scalars@[0] by {
                        assert(!activations@[i as int]@[r]);
                        assert(forall|k: int|
                            0 <= k < i && plan.group@[k] == g ==> !(#[trigger] activations@[k]@[r]));
                        assert(before[r] == scalars@[0]);
                    }
                }
            }
            i += 1;
        }
        values.push(column);
        g += 1;
    }
    values
}

/// Number of selectors below `j` that are in the combination `g`.
pub open spec fn spec_members_below(group: Seq<usize>, g: int, j: int) -> nat
    decreases j,
{
    if j <= 0 {
        0
    } else {
        spec_members_below(group, g, j - 1) + if group[j - 1] == g {
            1nat
        } else {
            0nat
        }
    }
}

/// The largest degree, less one, of a selector below `j` that is in the
/// combination `g`; zero if there is none.
pub open spec fn spec_degree_below(group: Seq<usize>, degrees: Seq<usize>, g: int, j: int) -> int
    decreases j,
{
    if j <= 0 {
        0
    } else {
        let before = spec_degree_below(group, degrees, g, j - 1);
        if group[j - 1] == g && degrees[j - 1] - 1 > before {
            degrees[j - 1] - 1
        } else {
            before
        }
    }
}

/// Whether the selector `x` is active in a row in which a selector below
/// `j` of the combination `g` is active.
pub open spec fn spec_meets_below(
    group: Seq<usize>,
    activations: Seq<Vec<bool>>,
    g: int,
    j: int,
    x: int,
) -> bool {
    exists|m: int|
        0 <= m < j && #[trigger] group[m] == g && !spec_disjoint(activations[m]@, activations[x]@)
}

/// The larger of two numbers.
pub open spec fn spec_larger_int(a: int, b: int) -> int {
    if a >= b {
        a
    } else {
        b
    }
}

/// Whether the selector `x` can join the selectors below it of the
/// combination `g`: it is active in no row in which one of them is
/// active, and the combination with it stays within `max_degree`.
pub open spec fn spec_joins(
    group: Seq<usize>,
    activations: Seq<Vec<bool>>,
    degrees: Seq<usize>,
    max_degree: usize,
    g: int,
    x: int,
) -> bool {
    &&& !spec_meets_below(group, activations, g, x, x)
    &&& spec_larger_int(spec_degree_below(group, degrees, g, x), degrees[x] - 1)
        + spec_members_below(group, g, x) + 1 <= max_degree
}

/// What holds of the selectors that are in a combination while the
/// combinations below `closed` are complete: see
/// [`Combinations::spec_greedy`]. A selector that is in no combination yet
/// could join none of the complete combinations that have a selector below
/// it.
pub open spec fn spec_greedy_upto(
    added: Seq<bool>,
    group: Seq<usize>,
    rank: Seq<usize>,
    activations: Seq<Vec<bool>>,
    degrees: Seq<usize>,
    max_degree: usize,
    closed: int,
    zeros: int,
) -> bool {
    let n = activations.len() as int;
    &&& forall|k: int| 0 <= k < n && !added[k] ==> #[trigger] group[k] == usize::MAX
    &&& forall|k: int| 0 <= k < n && added[k] ==> (#[trigger] group[k]) < closed
    &&& spec_greedy_facts(added, group, rank, activations, degrees, max_degree, closed, zeros)
}

/// The part of [`spec_greedy_upto`] that holds while a combination is
/// open, too.
pub open spec fn spec_greedy_facts(
    added: Seq<bool>,
    group: Seq<usize>,
    rank: Seq<usize>,
    activations: Seq<Vec<bool>>,
    degrees: Seq<usize>,
    max_degree: usize,
    closed: int,
    zeros: int,
) -> bool {
    &&& spec_facts_zero(added, group, rank, degrees)
    &&& spec_facts_rank(added, group, rank, degrees, zeros)
    &&& spec_facts_reject(added, group, activations, degrees, max_degree, closed, zeros)
    &&& spec_facts_join(added, group, rank, activations, degrees, max_degree)
    &&& spec_facts_order(added, group, rank, degrees)
}

/// Whether the selectors of degree zero have the first combinations, one
/// each, in their order.
pub open spec fn spec_facts_zero(
    added: Seq<bool>,
    group: Seq<usize>,
    rank: Seq<usize>,
    degrees: Seq<usize>,
) -> bool {
    forall|k: int|
        0 <= k < degrees.len() && (#[trigger] degrees[k]) == 0 ==> added[k] && group[k]
            == spec_zeros(degrees, k) && rank[k] == 0
}

/// Whether every selector of non-zero degree that is in a combination has
/// the rank of its place among the selectors of the combination.
pub open spec fn spec_facts_rank(
    added: Seq<bool>,
    group: Seq<usize>,
    rank: Seq<usize>,
    degrees: Seq<usize>,
    zeros: int,
) -> bool {
    forall|k: int|
        0 <= k < degrees.len() && (#[trigger] added[k]) && degrees[k] > 0 ==> group[k] >= zeros
            && rank[k] == spec_members_below(group, group[k] as int, k)
}

/// Whether no selector of non-zero degree could join a complete
/// combination before its own that has a selector below it.
pub open spec fn spec_facts_reject(
    added: Seq<bool>,
    group: Seq<usize>,
    activations: Seq<Vec<bool>>,
    degrees: Seq<usize>,
    max_degree: usize,
    closed: int,
    zeros: int,
) -> bool {
    forall|k: int, g: int|
        0 <= k < degrees.len() && degrees[k] > 0 && zeros <= g < closed && (added[k] ==> g
            < group[k]) && #[trigger] spec_members_below(group, g, k) > 0 ==> !spec_joins(
            group,
            activations,
            degrees,
            max_degree,
            g,
            k,
        )
}

/// Whether every selector that is in a combination, and is not the first
/// there, could join it.
pub open spec fn spec_facts_join(
    added: Seq<bool>,
    group: Seq<usize>,
    rank: Seq<usize>,
    activations: Seq<Vec<bool>>,
    degrees: Seq<usize>,
    max_degree: usize,
) -> bool {
    forall|k: int|
        0 <= k < degrees.len() && added[k] && degrees[k] > 0 && (#[trigger] rank[k]) > 0
            ==> spec_joins(group, activations, degrees, max_degree, group[k] as int, k)
}

/// Whether the combinations are in the order of their first selectors.
pub open spec fn spec_facts_order(
    added: Seq<bool>,
    group: Seq<usize>,
    rank: Seq<usize>,
    degrees: Seq<usize>,
) -> bool {
    forall|a: int, b: int|
        0 <= a < degrees.len() && 0 <= b < degrees.len() && added[a] && added[b] && degrees[a] > 0
            && degrees[b] > 0 && rank[a] == 0 && rank[b] == 0 && (#[trigger] group[a]) < (
        #[trigger] group[b]) ==> a < b
}

/// What holds while the combination `closed` is open, with the first
/// selector `i` and the selectors below `j` looked at: the combination has
/// `len` selectors, whose largest degree less one is `d`, and the
/// selectors below `j` that are in no combination could not join it.
pub open spec fn spec_greedy_open(
    added: Seq<bool>,
    group: Seq<usize>,
    rank: Seq<usize>,
    activations: Seq<Vec<bool>>,
    degrees: Seq<usize>,
    max_degree: usize,
    closed: int,
    zeros: int,
    i: int,
    j: int,
    len: int,
    d: int,
) -> bool {
    let n = activations.len() as int;
    &&& forall|k: int| 0 <= k < n && !added[k] ==> #[trigger] group[k] == usize::MAX
    &&& forall|k: int| 0 <= k < n && added[k] ==> (#[trigger] group[k]) <= closed
    &&& spec_greedy_facts(added, group, rank, activations, degrees, max_degree, closed, zeros)
    &&& 0 <= i < j <= n
    &&& added[i] && group[i] == closed && rank[i] == 0 && degrees[i] > 0
    &&& forall|k: int| 0 <= k < n && (#[trigger] group[k]) == closed ==> i <= k < j
    &&& len == spec_members_below(group, closed, j)
    &&& d == spec_degree_below(group, degrees, closed, j)
    &&& forall|x: int|
        i < x < j && !(#[trigger] added[x]) ==> !spec_joins(
            group,
            activations,
            degrees,
            max_degree,
            closed,
            x,
        )
}

/// There are at most as many selectors of degree zero between two places
/// as there are selectors.
pub proof fn lemma_zeros_monotonic(degrees: Seq<usize>, a: int, b: int)
    requires
        0 <= a <= b,
    ensures
        0 <= spec_zeros(degrees, b) - spec_zeros(degrees, a) <= b - a,
        0 <= spec_zeros(degrees, a) <= a,
    decreases b,
{
    if a < b {
        lemma_zeros_monotonic(degrees, a, b - 1);
    } else if a > 0 {
        lemma_zeros_monotonic(degrees, a - 1, a - 1);
    }
}

/// The counts over the selectors below `k` of a combination are the same
/// for two groupings that have the same selectors below `k` in the
/// combination.
pub proof fn lemma_below_stable(
    group: Seq<usize>,
    other: Seq<usize>,
    degrees: Seq<usize>,
    g: int,
    k: int,
)
    requires
        group.len() == other.len(),
        0 <= k <= group.len(),
        forall|m: int| 0 <= m < k ==> ((#[trigger] group[m]) == g <==> other[m] == g),
    ensures
        spec_members_below(group, g, k) == spec_members_below(other, g, k),
        spec_degree_below(group, degrees, g, k) == spec_degree_below(other, degrees, g, k),
    decreases k,
{
    if k > 0 {
        lemma_below_stable(group, other, degrees, g, k - 1);
        assert(group[k - 1] == g <==> other[k - 1] == g);
    }
}

/// Whether a selector can join a combination is the same for two
/// groupings that have the same selectors below it in the combination.
pub proof fn lemma_joins_stable(
    group: Seq<usize>,
    other: Seq<usize>,
    activations: Seq<Vec<bool>>,
    degrees: Seq<usize>,
    max_degree: usize,
    g: int,
    k: int,
)
    requires
        group.len() == other.len(),
        0 <= k <= group.len(),
        forall|m: int| 0 <= m < k ==> ((#[trigger] group[m]) == g <==> other[m] == g),
    ensures
        spec_members_below(group, g, k) == spec_members_below(other, g, k),
        spec_degree_below(group, degrees, g, k) == spec_degree_below(other, degrees, g, k),
        spec_joins(group, activations, degrees, max_degree, g, k) == spec_joins(
            other,
            activations,
            degrees,
            max_degree,
            g,
            k,
        ),
{
    lemma_below_stable(group, other, degrees, g, k);
    if spec_meets_below(group, activations, g, k, k) {
        let m = choose|m: int|
            0 <= m < k && #[trigger] group[m] == g && !spec_disjoint(
                activations[m]@,
                activations[k]@,
            );
        assert(other[m] == g);
    }
    if spec_meets_below(other, activations, g, k, k) {
        let m = choose|m: int|
            0 <= m < k && #[trigger] other[m] == g && !spec_disjoint(
                activations[m]@,
                activations[k]@,
            );
        assert(group[m] == g);
    }
}

/// A combination without a selector below `k` has no count below `k`.
pub proof fn lemma_below_none(group: Seq<usize>, degrees: Seq<usize>, g: int, k: int)
    requires
        0 <= k <= group.len(),
        forall|m: int| 0 <= m < k ==> (#[trigger] group[m]) != g,
    ensures
        spec_members_below(group, g, k) == 0,
        spec_degree_below(group, degrees, g, k) == 0,
    decreases k,
{
    if k > 0 {
        lemma_below_none(group, degrees, g, k - 1);
    }
}

/// The counts over the selectors of a combination do not change past its
/// last selector.
pub proof fn lemma_below_extends(group: Seq<usize>, degrees: Seq<usize>, g: int, j: int, k: int)
    requires
        0 <= j <= k <= group.len(),
        forall|m: int| j <= m < k ==> (#[trigger] group[m]) != g,
    ensures
        spec_members_below(group, g, k) == spec_members_below(group, g, j),
        spec_degree_below(group, degrees, g, k) == spec_degree_below(group, degrees, g, j),
    decreases k,
{
    if k > j {
        lemma_below_extends(group, degrees, g, j, k - 1);
    }
}

/// The counts over the selectors of a combination do not fall.
pub proof fn lemma_below_monotonic(group: Seq<usize>, degrees: Seq<usize>, g: int, j: int, k: int)
    requires
        0 <= j <= k <= group.len(),
    ensures
        spec_members_below(group, g, j) <= spec_members_below(group, g, k),
        spec_degree_below(group, degrees, g, j) <= spec_degree_below(group, degrees, g, k),
        0 <= spec_degree_below(group, degrees, g, j),
    decreases k,
{
    if k > j {
        lemma_below_monotonic(group, degrees, g, j, k - 1);
    } else if j > 0 {
        lemma_below_monotonic(group, degrees, g, j - 1, j - 1);
    }
}

/// A combination with a selector below `k` has a count below `k`.
pub proof fn lemma_below_some(group: Seq<usize>, degrees: Seq<usize>, g: int, m: int, k: int)
    requires
        0 <= m < k <= group.len(),
        group[m] == g,
    ensures
        spec_members_below(group, g, k) > 0,
{
    lemma_below_monotonic(group, degrees, g, m + 1, k);
}

/// A combination with a count below `k` has a selector below `k`.
pub proof fn lemma_below_witness(group: Seq<usize>, g: int, k: int) -> (m: int)
    requires
        0 <= k <= group.len(),
        spec_members_below(group, g, k) > 0,
    ensures
        0 <= m < k,
        group[m] == g,
    decreases k,
{
    if group[k - 1] == g {
        k - 1
    } else {
        lemma_below_witness(group, g, k - 1)
    }
}

/// Putting the selector `x`, which is in no combination, into the open
/// combination `closed` with the rank of its place there keeps what holds
/// of the selectors that are in a combination.
pub proof fn lemma_facts_update(
    added: Seq<bool>,
    group: Seq<usize>,
    rank: Seq<usize>,
    activations: Seq<Vec<bool>>,
    degrees: Seq<usize>,
    max_degree: usize,
    closed: int,
    zeros: int,
    x: int,
    place: int,
)
    requires
        added.len() == activations.len(),
        group.len() == activations.len(),
        rank.len() == activations.len(),
        degrees.len() == activations.len(),
        spec_greedy_facts(added, group, rank, activations, degrees, max_degree, closed, zeros),
        forall|k: int| 0 <= k < group.len() && !added[k] ==> #[trigger] group[k] == usize::MAX,
        forall|k: int| 0 <= k < group.len() && added[k] ==> (#[trigger] group[k]) <= closed,
        forall|k: int| 0 <= k < group.len() && (#[trigger] group[k]) == closed ==> k < x,
        0 <= zeros <= closed < usize::MAX,
        0 <= x < activations.len(),
        !added[x],
        degrees[x] > 0,
        0 <= place <= usize::MAX,
        place == spec_members_below(group, closed, x),
        place > 0 ==> spec_joins(group, activations, degrees, max_degree, closed, x),
        place == 0 ==> forall|k: int|
            0 <= k < group.len() && added[k] ==> (#[trigger] group[k]) < closed && (degrees[k] > 0
                && rank[k] == 0 ==> k < x),
    ensures
        spec_greedy_facts(
            added.update(x, true),
            group.update(x, closed as usize),
            rank.update(x, place as usize),
            activations,
            degrees,
            max_degree,
            closed,
            zeros,
        ),
{
    let n = activations.len() as int;
    let added2 = added.update(x, true);
    let group2 = group.update(x, closed as usize);
    let rank2 = rank.update(x, place as usize);
    assert(spec_facts_rank(added2, group2, rank2, degrees, zeros)) by {
        assert forall|k: int| 0 <= k < n && (#[trigger] added2[k]) && degrees[k] > 0 implies group2[k]
            >= zeros && rank2[k] == spec_members_below(group2, group2[k] as int, k) by {
            let g = group2[k] as int;
            assert(group[k] == closed ==> k < x);
            assert forall|m: int| 0 <= m < k implies ((#[trigger] group[m]) == g <==> group2[m]
                == g) by {}
            lemma_below_stable(group, group2, degrees, g, k);
            if k != x {
                assert(added[k]);
                assert(group[k] >= zeros);
                assert(rank[k] == spec_members_below(group, group[k] as int, k));
            }
        }
    }
    assert(spec_facts_reject(added2, group2, activations, degrees, max_degree, closed, zeros)) by {
        assert forall|k: int, g: int|
            0 <= k < n && degrees[k] > 0 && zeros <= g < closed && (added2[k] ==> g < group2[k])
                && #[trigger] spec_members_below(group2, g, k) > 0 implies !spec_joins(
            group2,
            activations,
            degrees,
            max_degree,
            g,
            k,
        ) by {
            assert forall|m: int| 0 <= m < k implies ((#[trigger] group[m]) == g <==> group2[m]
                == g) by {}
            lemma_joins_stable(group, group2, activations, degrees, max_degree, g, k);
            assert(spec_members_below(group, g, k) > 0);
            if k != x {
                assert(added[k] ==> g < group[k]);
            }
        }
    }
    assert(spec_facts_join(added2, group2, rank2, activations, degrees, max_degree)) by {
        assert forall|k: int|
            0 <= k < n && added2[k] && degrees[k] > 0 && (#[trigger] rank2[k]) > 0 implies spec_joins(
            group2,
            activations,
            degrees,
            max_degree,
            group2[k] as int,
            k,
        ) by {
            let g = group2[k] as int;
            assert(group[k] == closed ==> k < x);
            assert forall|m: int| 0 <= m < k implies ((#[trigger] group[m]) == g <==> group2[m]
                == g) by {}
            lemma_joins_stable(group, group2, activations, degrees, max_degree, g, k);
            if k != x {
                assert(added[k] && rank[k] > 0);
                assert(spec_joins(group, activations, degrees, max_degree, group[k] as int, k));
            }
        }
    }
    assert(spec_facts_order(added2, group2, rank2, degrees)) by {
        assert forall|a: int, b: int|
            0 <= a < n && 0 <= b < n && added2[a] && added2[b] && degrees[a] > 0 && degrees[b] > 0
                && rank2[a] == 0 && rank2[b] == 0 && (#[trigger] group2[a]) < (
            #[trigger] group2[b]) implies a < b by {
            if a != x && b != x {
                assert(group[a] < group[b]);
            } else if b == x {
                assert(group[a] < closed);
            } else {
                assert(group[b] <= closed);
            }
        }
    }
    lemma_zero_update(added, group, rank, degrees, x, closed as usize, place as usize);
}

/// Putting a selector of non-zero degree into a combination leaves the
/// selectors of degree zero as they are.
pub proof fn lemma_zero_update(
    added: Seq<bool>,
    group: Seq<usize>,
    rank: Seq<usize>,
    degrees: Seq<usize>,
    x: int,
    g: usize,
    place: usize,
)
    requires
        spec_facts_zero(added, group, rank, degrees),
        added.len() == degrees.len(),
        group.len() == degrees.len(),
        rank.len() == degrees.len(),
        0 <= x < degrees.len(),
        degrees[x] > 0,
    ensures
        spec_facts_zero(added.update(x, true), group.update(x, g), rank.update(x, place), degrees),
{
    let group2 = group.update(x, g);
    assert forall|k: int| 0 <= k < degrees.len() && (#[trigger] degrees[k]) == 0 implies added.update(
        x,
        true,
    )[k] && group2[k] == spec_zeros(degrees, k) && rank.update(x, place)[k] == 0 by {}
}

/// A selector of non-zero degree that is in no combination, while no
/// combination is open, opens the combination `closed`.
pub proof fn lemma_greedy_start(
    added: Seq<bool>,
    group: Seq<usize>,
    rank: Seq<usize>,
    activations: Seq<Vec<bool>>,
    degrees: Seq<usize>,
    max_degree: usize,
    closed: int,
    zeros: int,
    i: int,
)
    requires
        added.len() == activations.len(),
        group.len() == activations.len(),
        rank.len() == activations.len(),
        degrees.len() == activations.len(),
        spec_greedy_upto(added, group, rank, activations, degrees, max_degree, closed, zeros),
        0 <= zeros <= closed < usize::MAX,
        0 <= i < activations.len(),
        !added[i],
        degrees[i] > 0,
        forall|k: int|
            0 <= k < activations.len() && added[k] && degrees[k] > 0 && rank[k] == 0 ==> k < i,
    ensures
        spec_greedy_open(
            added.update(i, true),
            group.update(i, closed as usize),
            rank.update(i, 0),
            activations,
            degrees,
            max_degree,
            closed,
            zeros,
            i,
            i + 1,
            1,
            degrees[i] - 1,
        ),
{
    let group2 = group.update(i, closed as usize);
    lemma_below_none(group, degrees, closed, i);
    lemma_below_none(group, degrees, closed, group.len() as int);
    lemma_facts_update(
        added,
        group,
        rank,
        activations,
        degrees,
        max_degree,
        closed,
        zeros,
        i,
        0,
    );
    assert forall|m: int| 0 <= m < i implies ((#[trigger] group[m]) == closed <==> group2[m]
        == closed) by {}
    lemma_below_stable(group, group2, degrees, closed, i);
}

/// Whether the selector `j` can join the open combination `g` is what its
/// rows and the degrees say: it is active in no row of a selector of the
/// combination, and the combination stays within the degree with it.
pub proof fn lemma_joins_decided(
    added: Seq<bool>,
    group: Seq<usize>,
    rank: Seq<usize>,
    members: Seq<usize>,
    d: int,
    activations: Seq<Vec<bool>>,
    degrees: Seq<usize>,
    max_degree: usize,
    g: int,
    j: int,
    compatible: bool,
)
    requires
        added.len() == activations.len(),
        group.len() == activations.len(),
        rank.len() == activations.len(),
        degrees.len() == activations.len(),
        0 <= j < activations.len(),
        g < usize::MAX,
        forall|k: int| 0 <= k < group.len() && !added[k] ==> #[trigger] group[k] == usize::MAX,
        forall|k: int| 0 <= k < group.len() && (#[trigger] group[k]) == g ==> k < j,
        forall|t: int|
            0 <= t < members.len() ==> 0 <= (#[trigger] members[t]) < group.len()
                && group[members[t] as int] == g,
        forall|k: int|
            0 <= k < group.len() && added[k] && (#[trigger] group[k]) == g ==> rank[k]
                < members.len() && members[rank[k] as int] == k,
        members.len() == spec_members_below(group, g, j),
        d == spec_degree_below(group, degrees, g, j),
        compatible ==> forall|t: int|
            0 <= t < members.len() ==> spec_disjoint(
                activations[j]@,
                activations[(#[trigger] members[t]) as int]@,
            ),
        !compatible ==> exists|t: int|
            0 <= t < members.len() && !spec_disjoint(
                activations[j]@,
                activations[(#[trigger] members[t]) as int]@,
            ),
    ensures
        spec_joins(group, activations, degrees, max_degree, g, j) <==> (compatible
            && spec_larger_int(d, degrees[j] - 1) + members.len() + 1 <= max_degree),
{
    if compatible {
        if spec_meets_below(group, activations, g, j, j) {
            let m = choose|m: int|
                0 <= m < j && #[trigger] group[m] == g && !spec_disjoint(
                    activations[m]@,
                    activations[j]@,
                );
            assert(added[m]);
            assert(members[rank[m] as int] == m);
            assert(spec_disjoint(activations[j]@, activations[members[rank[m] as int] as int]@));
            lemma_disjoint_symmetric(activations[j]@, activations[m]@);
        }
    } else {
        let t = choose|t: int|
            0 <= t < members.len() && !spec_disjoint(
                activations[j]@,
                activations[(#[trigger] members[t]) as int]@,
            );
        let m = members[t] as int;
        assert(group[m] == g);
        if spec_disjoint(activations[m]@, activations[j]@) {
            lemma_disjoint_symmetric(activations[m]@, activations[j]@);
        }
        assert(spec_meets_below(group, activations, g, j, j));
    }
}

/// A selector that can join the open combination is put into it.
pub proof fn lemma_greedy_join(
    added: Seq<bool>,
    group: Seq<usize>,
    rank: Seq<usize>,
    activations: Seq<Vec<bool>>,
    degrees: Seq<usize>,
    max_degree: usize,
    closed: int,
    zeros: int,
    i: int,
    j: int,
    len: int,
    d: int,
)
    requires
        added.len() == activations.len(),
        group.len() == activations.len(),
        rank.len() == activations.len(),
        degrees.len() == activations.len(),
        spec_greedy_open(
            added,
            group,
            rank,
            activations,
            degrees,
            max_degree,
            closed,
            zeros,
            i,
            j,
            len,
            d,
        ),
        0 <= zeros <= closed < usize::MAX,
        j < activations.len(),
        !added[j],
        degrees[j] > 0,
        0 < len <= usize::MAX,
        spec_joins(group, activations, degrees, max_degree, closed, j),
    ensures
        spec_greedy_open(
            added.update(j, true),
            group.update(j, closed as usize),
            rank.update(j, len as usize),
            activations,
            degrees,
            max_degree,
            closed,
            zeros,
            i,
            j + 1,
            len + 1,
            spec_larger_int(d, degrees[j] - 1),
        ),
{
    let added2 = added.update(j, true);
    let group2 = group.update(j, closed as usize);
    lemma_facts_update(
        added,
        group,
        rank,
        activations,
        degrees,
        max_degree,
        closed,
        zeros,
        j,
        len,
    );
    assert forall|m: int| 0 <= m < j implies ((#[trigger] group[m]) == closed <==> group2[m]
        == closed) by {}
    lemma_below_stable(group, group2, degrees, closed, j);
    assert forall|x: int| i < x < j + 1 && !(#[trigger] added2[x]) implies !spec_joins(
        group2,
        activations,
        degrees,
        max_degree,
        closed,
        x,
    ) by {
        assert(!added[x]);
        assert forall|m: int| 0 <= m < x implies ((#[trigger] group[m]) == closed <==> group2[m]
            == closed) by {}
        lemma_joins_stable(group, group2, activations, degrees, max_degree, closed, x);
    }
}

/// A selector that cannot join the open combination is passed by.
pub proof fn lemma_greedy_skip(
    added: Seq<bool>,
    group: Seq<usize>,
    rank: Seq<usize>,
    activations: Seq<Vec<bool>>,
    degrees: Seq<usize>,
    max_degree: usize,
    closed: int,
    zeros: int,
    i: int,
    j: int,
    len: int,
    d: int,
)
    requires
        group.len() == activations.len(),
        spec_greedy_open(
            added,
            group,
            rank,
            activations,
            degrees,
            max_degree,
            closed,
            zeros,
            i,
            j,
            len,
            d,
        ),
        closed < usize::MAX,
        j < activations.len(),
        !added[j],
        !spec_joins(group, activations, degrees, max_degree, closed, j),
    ensures
        spec_greedy_open(
            added,
            group,
            rank,
            activations,
            degrees,
            max_degree,
            closed,
            zeros,
            i,
            j + 1,
            len,
            d,
        ),
{
    assert(group[j] == usize::MAX);
}

/// A selector that is in a combination already is passed by.
pub proof fn lemma_greedy_pass(
    added: Seq<bool>,
    group: Seq<usize>,
    rank: Seq<usize>,
    activations: Seq<Vec<bool>>,
    degrees: Seq<usize>,
    max_degree: usize,
    closed: int,
    zeros: int,
    i: int,
    j: int,
    len: int,
    d: int,
)
    requires
        group.len() == activations.len(),
        spec_greedy_open(
            added,
            group,
            rank,
            activations,
            degrees,
            max_degree,
            closed,
            zeros,
            i,
            j,
            len,
            d,
        ),
        j < activations.len(),
        added[j],
    ensures
        spec_greedy_open(
            added,
            group,
            rank,
            activations,
            degrees,
            max_degree,
            closed,
            zeros,
            i,
            j + 1,
            len,
            d,
        ),
{
    assert(group[j] != closed);
}

/// Once no later selector can join the open combination, because all were
/// looked at or the combination has reached the degree, the combination is
/// complete.
pub proof fn lemma_greedy_close(
    added: Seq<bool>,
    group: Seq<usize>,
    rank: Seq<usize>,
    activations: Seq<Vec<bool>>,
    degrees: Seq<usize>,
    max_degree: usize,
    closed: int,
    zeros: int,
    i: int,
    j: int,
    len: int,
    d: int,
)
    requires
        group.len() == activations.len(),
        degrees.len() == activations.len(),
        spec_greedy_open(
            added,
            group,
            rank,
            activations,
            degrees,
            max_degree,
            closed,
            zeros,
            i,
            j,
            len,
            d,
        ),
        j == activations.len() || d + len >= max_degree,
    ensures
        spec_greedy_upto(added, group, rank, activations, degrees, max_degree, closed + 1, zeros),
{
    let n = activations.len() as int;
    assert(spec_facts_reject(added, group, activations, degrees, max_degree, closed + 1, zeros)) by {
        assert forall|k: int, g: int|
            0 <= k < n && degrees[k] > 0 && zeros <= g < closed + 1 && (added[k] ==> g < group[k])
                && #[trigger] spec_members_below(group, g, k) > 0 implies !spec_joins(
            group,
            activations,
            degrees,
            max_degree,
            g,
            k,
        ) by {
            if g == closed {
                assert(added[k] ==> group[k] <= closed);
                assert(!added[k]);
                let m = lemma_below_witness(group, closed, k);
                assert(i <= m);
                if k >= j {
                    assert forall|m: int| j <= m < k implies (#[trigger] group[m]) != closed by {}
                    lemma_below_extends(group, degrees, closed, j, k);
                } else {
                    assert(!added[k]);
                }
            }
        }
    }
}

/// A selector of degree zero has a combination below those of the
/// selectors of non-zero degree.
pub proof fn lemma_zero_groups_first(degrees: Seq<usize>, k: int)
    requires
        0 <= k < degrees.len(),
        degrees[k] == 0,
    ensures
        spec_zeros(degrees, k) < spec_zeros(degrees, degrees.len() as int),
{
    lemma_zeros_monotonic(degrees, k + 1, degrees.len() as int);
}

/// Where two groupings that taking the selectors in order gives agree on
/// the selectors below `i`, the selector `i` is in no later combination in
/// the second than in the first.
pub proof fn lemma_not_later(
    a: Combinations,
    b: Combinations,
    activations: Seq<Vec<bool>>,
    degrees: Seq<usize>,
    max_degree: usize,
    i: int,
)
    requires
        degrees.len() == activations.len(),
        a.spec_valid(activations, degrees, max_degree),
        a.spec_greedy(activations, degrees, max_degree),
        b.spec_valid(activations, degrees, max_degree),
        b.spec_greedy(activations, degrees, max_degree),
        0 <= i < activations.len(),
        degrees[i] > 0,
        forall|k: int| 0 <= k < i ==> #[trigger] a.group@[k] == b.group@[k],
    ensures
        a.group@[i] >= b.group@[i],
{
    let ga = a.group@[i] as int;
    let gb = b.group@[i] as int;
    let zeros = spec_zeros(degrees, activations.len() as int);
    if ga < gb {
        assert(a.group@[i] >= zeros && a.rank@[i] == spec_members_below(a.group@, ga, i));
        assert forall|m: int| 0 <= m < i implies ((#[trigger] a.group@[m]) == ga <==> b.group@[m]
            == ga) by {}
        lemma_joins_stable(a.group@, b.group@, activations, degrees, max_degree, ga, i);
        if a.rank@[i] > 0 {
            assert(spec_joins(a.group@, activations, degrees, max_degree, ga, i));
            assert(spec_members_below(b.group@, ga, i) > 0);
            assert(!spec_joins(b.group@, activations, degrees, max_degree, ga, i));
        } else {
            assert(b.group@[i] < b.sizes@.len());
            assert(b.sizes@[ga] >= 1);
            assert(spec_has_member(b.group@, b.rank@, ga, 0));
            let l = choose|l: int|
                0 <= l < b.group@.len() && #[trigger] b.group@[l] == ga && b.rank@[l] == 0;
            if l < i {
                assert(a.group@[l] == ga);
                lemma_below_some(a.group@, degrees, ga, l, i);
            } else {
                assert(l > i);
                if degrees[l] == 0 {
                    lemma_zero_groups_first(degrees, l);
                }
                assert(b.sizes@[gb] >= 1);
                assert(spec_has_member(b.group@, b.rank@, gb, 0));
                let m = choose|m: int|
                    0 <= m < b.group@.len() && #[trigger] b.group@[m] == gb && b.rank@[m] == 0;
                if degrees[m] == 0 {
                    lemma_zero_groups_first(degrees, m);
                }
                assert(b.rank@[m] == spec_members_below(b.group@, gb, m));
                if m > i {
                    lemma_below_some(b.group@, degrees, gb, i, m);
                }
                assert(b.group@[l] < b.group@[m]);
                assert(l < m);
            }
        }
    }
}

/// Two groupings that taking the selectors in order gives agree on the
/// selectors below `upto`.
pub proof fn lemma_groups_agree(
    a: Combinations,
    b: Combinations,
    activations: Seq<Vec<bool>>,
    degrees: Seq<usize>,
    max_degree: usize,
    upto: int,
)
    requires
        degrees.len() == activations.len(),
        a.spec_valid(activations, degrees, max_degree),
        a.spec_greedy(activations, degrees, max_degree),
        b.spec_valid(activations, degrees, max_degree),
        b.spec_greedy(activations, degrees, max_degree),
        0 <= upto <= activations.len(),
    ensures
        forall|k: int|
            0 <= k < upto ==> #[trigger] a.group@[k] == b.group@[k] && a.rank@[k] == b.rank@[k],
    decreases upto,
{
    if upto > 0 {
        lemma_groups_agree(a, b, activations, degrees, max_degree, upto - 1);
        let i = upto - 1;
        if degrees[i] > 0 {
            lemma_not_later(a, b, activations, degrees, max_degree, i);
            assert forall|k: int| 0 <= k < i implies #[trigger] b.group@[k] == a.group@[k] by {}
            lemma_not_later(b, a, activations, degrees, max_degree, i);
            let g = a.group@[i] as int;
            assert forall|m: int| 0 <= m < i implies ((#[trigger] a.group@[m]) == g <==> b.group@[m]
                == g) by {}
            lemma_below_stable(a.group@, b.group@, degrees, g, i);
            assert(a.rank@[i] == spec_members_below(a.group@, g, i));
            assert(b.rank@[i] == spec_members_below(b.group@, g, i));
        } else {
            assert(a.group@[i] == spec_zeros(degrees, i) && a.rank@[i] == 0);
            assert(b.group@[i] == spec_zeros(degrees, i) && b.rank@[i] == 0);
        }
    }
}

/// A grouping with the combinations and ranks of `b` has at most as many
/// combinations as `b`, none larger.
pub proof fn lemma_sizes_bounded(a: Combinations, b: Combinations, activations: Seq<Vec<bool>>)
    requires
        a.spec_grouped(activations),
        b.spec_grouped(activations),
        a.group@ == b.group@,
        a.rank@ == b.rank@,
    ensures
        a.sizes@.len() <= b.sizes@.len(),
        forall|g: int| 0 <= g < a.sizes@.len() ==> #[trigger] a.sizes@[g] <= b.sizes@[g],
{
    if a.sizes@.len() > b.sizes@.len() {
        let g = b.sizes@.len() as int;
        assert(a.sizes@[g] >= 1);
        assert(spec_has_member(a.group@, a.rank@, g, 0));
        let i = choose|i: int|
            0 <= i < a.group@.len() && #[trigger] a.group@[i] == g && a.rank@[i] == 0;
        assert(b.group@[i] < b.sizes@.len());
    }
    assert forall|g: int| 0 <= g < a.sizes@.len() implies #[trigger] a.sizes@[g]
        <= b.sizes@[g] by {
        if a.sizes@[g] > b.sizes@[g] {
            let r = b.sizes@[g] as int;
            assert(spec_has_member(a.group@, a.rank@, g, r));
            let i = choose|i: int|
                0 <= i < a.group@.len() && #[trigger] a.group@[i] == g && a.rank@[i] == r;
            assert(b.group@[i] == g);
            assert(b.rank@[i] < b.sizes@[b.group@[i] as int]);
        }
    }
}

/// There is one grouping only that taking the selectors in order gives:
/// two groupings that are both valid and both as [`Combinations::spec_greedy`]
/// says are the same.
pub proof fn lemma_grouping_unique(
    a: Combinations,
    b: Combinations,
    activations: Seq<Vec<bool>>,
    degrees: Seq<usize>,
    max_degree: usize,
)
    requires
        degrees.len() == activations.len(),
        a.spec_valid(activations, degrees, max_degree),
        a.spec_greedy(activations, degrees, max_degree),
        b.spec_valid(activations, degrees, max_degree),
        b.spec_greedy(activations, degrees, max_degree),
    ensures
        a.group@ == b.group@,
        a.rank@ == b.rank@,
        a.sizes@ == b.sizes@,
{
    lemma_groups_agree(a, b, activations, degrees, max_degree, activations.len() as int);
    assert(a.group@ =~= b.group@);
    assert(a.rank@ =~= b.rank@);
    lemma_sizes_bounded(a, b, activations);
    lemma_sizes_bounded(b, a, activations);
    assert(a.sizes@ =~= b.sizes@);
}

} // verus!

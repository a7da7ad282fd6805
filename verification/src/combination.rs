//! Combinations of indices into a pool, in lexicographic order.

use vstd::prelude::*;
use crate::binomial::{
    binomial, binomial_sum, lemma_binomial_positive, lemma_binomial_sum_proper, pow2,
};

verus! {

/// Every way to pick `size` indices out of `lo..pool`, each pick listed in
/// increasing order and the picks themselves in lexicographic order: first
/// those that start with `lo`, then those that do not contain it.
pub open spec fn combinations_from(lo: int, pool: int, size: nat) -> Seq<Seq<int>>
    decreases pool - lo,
{
    if size == 0 {
        seq![Seq::<int>::empty()]
    } else if lo >= pool {
        Seq::<Seq<int>>::empty()
    } else {
        combinations_from(lo + 1, pool, (size - 1) as nat).map_values(|c: Seq<int>| seq![lo] + c)
            + combinations_from(lo + 1, pool, size)
    }
}

/// Every way to pick `size` indices out of a pool of `pool` items.
pub open spec fn combinations(pool: nat, size: nat) -> Seq<Seq<int>> {
    combinations_from(0, pool as int, size)
}

/// `c` picks indices of `lo..pool` in strictly increasing order.
pub open spec fn is_combination_from(c: Seq<int>, lo: int, pool: int) -> bool {
    &&& forall|j: int| 0 <= j < c.len() ==> lo <= #[trigger] c[j] < pool
    &&& forall|i: int, j: int| 0 <= i < j < c.len() ==> #[trigger] c[i] < #[trigger] c[j]
}

/// `c` picks indices of a pool of `pool` items in strictly increasing order.
pub open spec fn is_combination(c: Seq<int>, pool: nat) -> bool {
    is_combination_from(c, 0, pool as int)
}

/// The combination that picks every item of the pool.
pub open spec fn full_combination(pool: nat) -> Seq<int> {
    Seq::new(pool, |j: int| j)
}

/// `a` comes before `b` in lexicographic order: at the first position where
/// they differ, `a` has the smaller index.
pub open spec fn lex_less(a: Seq<int>, b: Seq<int>) -> bool
    decreases a.len(),
{
    if a.len() == 0 || b.len() == 0 {
        false
    } else if a[0] != b[0] {
        a[0] < b[0]
    } else {
        lex_less(a.skip(1), b.skip(1))
    }
}

/// The combinations of at least one and fewer than `size` indices out of a
/// pool of `pool` items: first all of one index, then all of two, and so on.
pub open spec fn proper_combinations_below(pool: nat, size: nat) -> Seq<Seq<int>>
    decreases size,
{
    if size <= 1 {
        Seq::<Seq<int>>::empty()
    } else {
        proper_combinations_below(pool, (size - 1) as nat) + combinations(pool, (size - 1) as nat)
    }
}

/// The combinations that pick at least one item of the pool and not all of
/// them, by size and within a size in lexicographic order.
pub open spec fn proper_combinations(pool: nat) -> Seq<Seq<int>> {
    proper_combinations_below(pool, pool)
}

/// `a` is enumerated before `b`: it picks fewer indices, or as many and
/// comes first in lexicographic order.
pub open spec fn enumerated_before(a: Seq<int>, b: Seq<int>) -> bool {
    a.len() < b.len() || (a.len() == b.len() && lex_less(a, b))
}

/// The rightmost position below `end` whose index can still move right
/// without pushing a later index out of the pool, or -1 where there is none.
pub open spec fn pivot_below(c: Seq<int>, pool: int, end: int) -> int
    decreases end,
{
    if end <= 0 {
        -1
    } else if c[end - 1] < pool - c.len() + (end - 1) {
        end - 1
    } else {
        pivot_below(c, pool, end - 1)
    }
}

/// The rightmost position of `c` whose index can still move right, or -1.
pub open spec fn pivot(c: Seq<int>, pool: int) -> int {
    pivot_below(c, pool, c.len() as int)
}

/// The combination that follows `c` in lexicographic order: the index at
/// the pivot moves right by one, and the indices after it close up behind
/// it. `None` where `c` is the last one.
pub open spec fn successor(c: Seq<int>, pool: int) -> Option<Seq<int>> {
    let p = pivot(c, pool);
    if p < 0 {
        None
    } else {
        Some(Seq::new(c.len(), |j: int| if j < p { c[j] } else { c[p] + 1 + (j - p) }))
    }
}

/// The number of combinations is the binomial coefficient.
pub proof fn lemma_combinations_from_len(lo: int, pool: int, size: nat)
    requires
        0 <= lo <= pool,
    ensures
        combinations_from(lo, pool, size).len() == binomial((pool - lo) as nat, size),
    decreases pool - lo,
{
    if size > 0 && lo < pool {
        lemma_combinations_from_len(lo + 1, pool, (size - 1) as nat);
        lemma_combinations_from_len(lo + 1, pool, size);
    }
}

/// Each listed combination has `size` indices of `lo..pool`, strictly
/// increasing.
pub proof fn lemma_combinations_from_members(lo: int, pool: int, size: nat, r: int)
    requires
        0 <= r < combinations_from(lo, pool, size).len(),
    ensures
        combinations_from(lo, pool, size)[r].len() == size,
        is_combination_from(combinations_from(lo, pool, size)[r], lo, pool),
    decreases pool - lo,
{
    if size > 0 && lo < pool {
        let with_lo = combinations_from(lo + 1, pool, (size - 1) as nat);
        let without_lo = combinations_from(lo + 1, pool, size);
        if r < with_lo.len() {
            lemma_combinations_from_members(lo + 1, pool, (size - 1) as nat, r);
            let rest = with_lo[r];
            let c = seq![lo] + rest;
            assert(combinations_from(lo, pool, size)[r] == c);
            assert forall|j: int| 0 <= j < c.len() implies lo <= #[trigger] c[j] < pool by {
                if j > 0 {
                    assert(c[j] == rest[j - 1]);
                }
            }
            assert forall|i: int, j: int| 0 <= i < j < c.len() implies #[trigger] c[i]
                < #[trigger] c[j] by {
                assert(c[j] == rest[j - 1]);
                if i > 0 {
                    assert(c[i] == rest[i - 1]);
                }
            }
        } else {
            lemma_combinations_from_members(lo + 1, pool, size, r - with_lo.len());
            assert(combinations_from(lo, pool, size)[r] == without_lo[r - with_lo.len()]);
        }
    }
}

/// The first combination takes the lowest indices.
pub proof fn lemma_combinations_from_first(lo: int, pool: int, size: nat)
    requires
        0 <= lo,
        lo + size <= pool,
    ensures
        combinations_from(lo, pool, size).len() > 0,
        combinations_from(lo, pool, size)[0] == Seq::new(size, |j: int| lo + j),
    decreases pool - lo,
{
    if size > 0 {
        lemma_combinations_from_first(lo + 1, pool, (size - 1) as nat);
        let with_lo = combinations_from(lo + 1, pool, (size - 1) as nat);
        assert(combinations_from(lo, pool, size)[0] == seq![lo] + with_lo[0]);
        assert(seq![lo] + Seq::new((size - 1) as nat, |j: int| lo + 1 + j) =~= Seq::new(
            size,
            |j: int| lo + j,
        ));
    } else {
        assert(Seq::<int>::empty() =~= Seq::new(0, |j: int| lo + j));
    }
}

/// Every combination is listed: whatever picks indices of `lo..pool` in
/// strictly increasing order stands among the combinations of its size.
pub proof fn lemma_combinations_from_complete(lo: int, pool: int, c: Seq<int>)
    requires
        is_combination_from(c, lo, pool),
    ensures
        combinations_from(lo, pool, c.len()).contains(c),
    decreases pool - lo,
{
    let list = combinations_from(lo, pool, c.len());
    if c.len() == 0 {
        assert(list[0] =~= c);
    } else {
        assert(lo <= c[0] < pool);
        let with_lo = combinations_from(lo + 1, pool, (c.len() - 1) as nat);
        let without_lo = combinations_from(lo + 1, pool, c.len());
        if c[0] == lo {
            let rest = c.skip(1);
            assert forall|j: int| 0 <= j < rest.len() implies lo + 1 <= #[trigger] rest[j]
                < pool by {
                assert(rest[j] == c[j + 1]);
                assert(c[0] < c[j + 1]);
            }
            assert forall|i: int, j: int| 0 <= i < j < rest.len() implies #[trigger] rest[i]
                < #[trigger] rest[j] by {
                assert(rest[i] == c[i + 1]);
                assert(rest[j] == c[j + 1]);
            }
            lemma_combinations_from_complete(lo + 1, pool, rest);
            let r = choose|r: int| 0 <= r < with_lo.len() && with_lo[r] == rest;
            assert(list[r] == seq![lo] + rest);
            assert(seq![lo] + rest =~= c);
        } else {
            assert forall|j: int| 0 <= j < c.len() implies lo + 1 <= #[trigger] c[j] < pool by {
                if j > 0 {
                    assert(c[0] < c[j]);
                }
            }
            lemma_combinations_from_complete(lo + 1, pool, c);
            let r = choose|r: int| 0 <= r < without_lo.len() && without_lo[r] == c;
            assert(list[with_lo.len() + r] == c);
        }
    }
}

/// No combination comes before itself.
pub proof fn lemma_lex_less_irreflexive(a: Seq<int>)
    ensures
        !lex_less(a, a),
    decreases a.len(),
{
    if a.len() > 0 {
        lemma_lex_less_irreflexive(a.skip(1));
    }
}

/// The combinations are listed in strictly increasing lexicographic order,
/// so none is listed twice.
pub proof fn lemma_combinations_from_ordered(lo: int, pool: int, size: nat, r1: int, r2: int)
    requires
        0 <= r1 < r2 < combinations_from(lo, pool, size).len(),
    ensures
        lex_less(combinations_from(lo, pool, size)[r1], combinations_from(lo, pool, size)[r2]),
        combinations_from(lo, pool, size)[r1] != combinations_from(lo, pool, size)[r2],
    decreases pool - lo,
{
    let list = combinations_from(lo, pool, size);
    if size > 0 && lo < pool {
        let with_lo = combinations_from(lo + 1, pool, (size - 1) as nat);
        let without_lo = combinations_from(lo + 1, pool, size);
        lemma_combinations_from_members(lo, pool, size, r1);
        lemma_combinations_from_members(lo, pool, size, r2);
        if r2 < with_lo.len() {
            lemma_combinations_from_ordered(lo + 1, pool, (size - 1) as nat, r1, r2);
            assert(list[r1] == seq![lo] + with_lo[r1]);
            assert(list[r2] == seq![lo] + with_lo[r2]);
            assert(list[r1].skip(1) =~= with_lo[r1]);
            assert(list[r2].skip(1) =~= with_lo[r2]);
        } else if r1 < with_lo.len() {
            lemma_combinations_from_members(lo + 1, pool, size, r2 - with_lo.len());
            assert(list[r1] == seq![lo] + with_lo[r1]);
            assert(list[r2] == without_lo[r2 - with_lo.len()]);
            assert(list[r1][0] == lo);
            assert(lo + 1 <= list[r2][0]);
        } else {
            lemma_combinations_from_ordered(
                lo + 1,
                pool,
                size,
                r1 - with_lo.len(),
                r2 - with_lo.len(),
            );
            assert(list[r1] == without_lo[r1 - with_lo.len()]);
            assert(list[r2] == without_lo[r2 - with_lo.len()]);
        }
        lemma_lex_less_irreflexive(list[r1]);
    }
}

/// In a combination, the index at position `j` has room for the `j` smaller
/// indices before it.
pub proof fn lemma_combination_lower_bound(c: Seq<int>, lo: int, pool: int, j: int)
    requires
        is_combination_from(c, lo, pool),
        0 <= j < c.len(),
    ensures
        lo + j <= c[j],
    decreases j,
{
    if j > 0 {
        lemma_combination_lower_bound(c, lo, pool, j - 1);
    }
}

/// In a combination, the index at position `j` leaves room for the larger
/// indices after it.
pub proof fn lemma_combination_upper_bound(c: Seq<int>, lo: int, pool: int, j: int)
    requires
        is_combination_from(c, lo, pool),
        0 <= j < c.len(),
    ensures
        c[j] <= pool - c.len() + j,
    decreases c.len() - j,
{
    if j + 1 < c.len() {
        lemma_combination_upper_bound(c, lo, pool, j + 1);
    }
}

/// A position is the pivot below `end` if its index can move and no index
/// between it and `end` can; there is none if no index below `end` can.
proof fn lemma_pivot_below(c: Seq<int>, pool: int, end: int, p: int)
    requires
        -1 <= p < end <= c.len(),
        p >= 0 ==> c[p] < pool - c.len() + p,
        forall|j: int| p < j < end ==> c[j] >= pool - c.len() + j,
    ensures
        pivot_below(c, pool, end) == p,
    decreases end,
{
    if end > 0 && p < end - 1 {
        lemma_pivot_below(c, pool, end - 1, p);
    }
}

/// What the pivot below `end` is: -1 or a position that can move, with none
/// between it and `end` that can.
proof fn lemma_pivot_below_found(c: Seq<int>, pool: int, end: int)
    requires
        0 <= end <= c.len(),
    ensures
        -1 <= pivot_below(c, pool, end) < end,
        pivot_below(c, pool, end) >= 0 ==> c[pivot_below(c, pool, end)] < pool - c.len()
            + pivot_below(c, pool, end),
        forall|j: int| pivot_below(c, pool, end) < j < end ==> c[j] >= pool - c.len() + j,
    decreases end,
{
    if end > 0 && !(c[end - 1] < pool - c.len() + (end - 1)) {
        lemma_pivot_below_found(c, pool, end - 1);
    }
}

/// Putting an index in front of a combination moves its pivot one place to
/// the right; where the combination has no pivot, the new index is the only
/// one that may still move.
proof fn lemma_pivot_prepend(x: int, rest: Seq<int>, pool: int)
    ensures
        pivot(rest, pool) >= 0 ==> pivot(seq![x] + rest, pool) == pivot(rest, pool) + 1,
        pivot(rest, pool) < 0 ==> pivot(seq![x] + rest, pool) == (if x < pool - rest.len() - 1 {
            0int
        } else {
            -1int
        }),
{
    let c = seq![x] + rest;
    let p = pivot(rest, pool);
    lemma_pivot_below_found(rest, pool, rest.len() as int);
    assert forall|j: int| 1 <= j < c.len() implies c[j] == rest[j - 1] by {}
    if p >= 0 {
        assert(c[p + 1] == rest[p]);
        assert forall|j: int| p + 1 < j < c.len() implies c[j] >= pool - c.len() + j by {
            assert(c[j] == rest[j - 1]);
        }
        lemma_pivot_below(c, pool, c.len() as int, p + 1);
    } else {
        let q = if x < pool - rest.len() - 1 { 0int } else { -1int };
        assert(c[0] == x);
        assert forall|j: int| q < j < c.len() implies c[j] >= pool - c.len() + j by {
            if j > 0 {
                assert(c[j] == rest[j - 1]);
            }
        }
        lemma_pivot_below(c, pool, c.len() as int, q);
    }
}

/// Walking the list: the successor of each listed combination is the next
/// one in the list, and the last one has no successor.
pub proof fn lemma_successor_walks_list(lo: int, pool: int, size: nat, r: int)
    requires
        0 <= lo <= pool,
        0 <= r < combinations_from(lo, pool, size).len(),
    ensures
        r + 1 < combinations_from(lo, pool, size).len() ==> successor(
            combinations_from(lo, pool, size)[r],
            pool,
        ) == Some(combinations_from(lo, pool, size)[r + 1]),
        r + 1 == combinations_from(lo, pool, size).len() ==> successor(
            combinations_from(lo, pool, size)[r],
            pool,
        ) is None,
    decreases pool - lo,
{
    let list = combinations_from(lo, pool, size);
    if size == 0 {
        assert(list[0].len() == 0);
    } else if lo < pool {
        let with_lo = combinations_from(lo + 1, pool, (size - 1) as nat);
        let without_lo = combinations_from(lo + 1, pool, size);
        lemma_combinations_from_len(lo + 1, pool, size);
        lemma_binomial_positive((pool - lo - 1) as nat, size);
        if r < with_lo.len() {
            let rest = with_lo[r];
            let c = seq![lo] + rest;
            assert(list[r] == c);
            lemma_combinations_from_members(lo + 1, pool, (size - 1) as nat, r);
            lemma_successor_walks_list(lo + 1, pool, (size - 1) as nat, r);
            lemma_pivot_prepend(lo, rest, pool);
            if r + 1 < with_lo.len() {
                let p = pivot(rest, pool);
                let next_rest = with_lo[r + 1];
                assert(list[r + 1] == seq![lo] + next_rest);
                assert(successor(rest, pool) == Some(next_rest));
                assert(successor(c, pool)->0 =~= seq![lo] + next_rest);
            } else if without_lo.len() > 0 {
                lemma_combinations_from_first(lo + 1, pool, size);
                assert(list[r + 1] == without_lo[0]);
                assert(successor(c, pool)->0 =~= without_lo[0]);
            }
        } else {
            lemma_successor_walks_list(lo + 1, pool, size, r - with_lo.len());
            assert(list[r] == without_lo[r - with_lo.len()]);
            if r + 1 < list.len() {
                assert(list[r + 1] == without_lo[r + 1 - with_lo.len()]);
            }
        }
    }
}

/// The combinations of fewer than `size` indices are counted by the sum of
/// the binomials of the sizes from one up to `size`, exclusive.
pub proof fn lemma_proper_combinations_below_len(pool: nat, size: nat)
    ensures
        proper_combinations_below(pool, size).len() == binomial_sum(pool, 1, size),
    decreases size,
{
    if size > 1 {
        lemma_proper_combinations_below_len(pool, (size - 1) as nat);
        lemma_combinations_from_len(0, pool as int, (size - 1) as nat);
    }
}

/// The list of the combinations below a size goes on unchanged as the size
/// grows: the combinations of `size` indices stand in it right after those
/// of fewer indices.
pub proof fn lemma_proper_combinations_below_extends(pool: nat, size: nat, limit: nat, r: int)
    requires
        1 <= size < limit,
        0 <= r < combinations(pool, size).len(),
    ensures
        proper_combinations_below(pool, size).len() + r < proper_combinations_below(
            pool,
            limit,
        ).len(),
        proper_combinations_below(pool, limit)[proper_combinations_below(pool, size).len() + r]
            == combinations(pool, size)[r],
    decreases limit,
{
    if limit > size + 1 {
        lemma_proper_combinations_below_extends(pool, size, (limit - 1) as nat, r);
    }
}

/// Each combination below a size picks at least one index and fewer than
/// `size`, in strictly increasing order and within the pool.
pub proof fn lemma_proper_combinations_below_members(pool: nat, size: nat, i: int)
    requires
        0 <= i < proper_combinations_below(pool, size).len(),
    ensures
        1 <= proper_combinations_below(pool, size)[i].len() < size,
        is_combination(proper_combinations_below(pool, size)[i], pool),
    decreases size,
{
    if size > 1 {
        let fewer = proper_combinations_below(pool, (size - 1) as nat);
        if i < fewer.len() {
            lemma_proper_combinations_below_members(pool, (size - 1) as nat, i);
        } else {
            lemma_combinations_from_members(0, pool as int, (size - 1) as nat, i - fewer.len());
        }
    }
}

/// Nothing is left out: whatever picks at least one index of the pool
/// and fewer than `size`, in strictly increasing order, stands in the list.
pub proof fn lemma_proper_combinations_below_complete(pool: nat, size: nat, c: Seq<int>)
    requires
        is_combination(c, pool),
        1 <= c.len() < size,
    ensures
        proper_combinations_below(pool, size).contains(c),
{
    lemma_combinations_from_complete(0, pool as int, c);
    let r = choose|r: int| 0 <= r < combinations(pool, c.len()).len() && combinations(
        pool,
        c.len(),
    )[r] == c;
    lemma_proper_combinations_below_extends(pool, c.len(), size, r);
}

/// The list is in order and holds nothing twice: of two combinations in it,
/// the earlier one picks fewer indices, or as many and comes first in
/// lexicographic order.
pub proof fn lemma_proper_combinations_below_ordered(pool: nat, size: nat, i: int, j: int)
    requires
        0 <= i < j < proper_combinations_below(pool, size).len(),
    ensures
        enumerated_before(
            proper_combinations_below(pool, size)[i],
            proper_combinations_below(pool, size)[j],
        ),
        proper_combinations_below(pool, size)[i] != proper_combinations_below(pool, size)[j],
    decreases size,
{
    if size > 1 {
        let fewer = proper_combinations_below(pool, (size - 1) as nat);
        if j < fewer.len() {
            lemma_proper_combinations_below_ordered(pool, (size - 1) as nat, i, j);
        } else if i < fewer.len() {
            lemma_proper_combinations_below_members(pool, (size - 1) as nat, i);
            lemma_combinations_from_members(0, pool as int, (size - 1) as nat, j - fewer.len());
        } else {
            lemma_combinations_from_members(0, pool as int, (size - 1) as nat, i - fewer.len());
            lemma_combinations_from_members(0, pool as int, (size - 1) as nat, j - fewer.len());
            lemma_combinations_from_ordered(
                0,
                pool as int,
                (size - 1) as nat,
                i - fewer.len(),
                j - fewer.len(),
            );
        }
    }
}

/// The number of combinations that pick at least one item and not all: the
/// sum of the binomials of the sizes from one up to the pool size,
/// exclusive. That is none for a pool of fewer than two items, and two to
/// the power of the pool size, less two, for any pool that is not empty.
pub proof fn lemma_proper_combinations_count(pool: nat)
    ensures
        proper_combinations(pool).len() == binomial_sum(pool, 1, pool),
        pool < 2 ==> proper_combinations(pool).len() == 0,
        pool >= 1 ==> proper_combinations(pool).len() == pow2(pool) - 2,
{
    lemma_proper_combinations_below_len(pool, pool);
    if pool >= 1 {
        lemma_binomial_sum_proper(pool);
    }
}

/// The indices of a vector as mathematical integers.
pub open spec fn as_ints(indices: Seq<usize>) -> Seq<int> {
    indices.map_values(|i: usize| i as int)
}

/// The first combination of `size` indices: `0, 1, .., size - 1`.
pub fn first_combination(size: usize) -> (indices: Vec<usize>)
    ensures
        as_ints(indices@) == Seq::new(size as nat, |j: int| j),
{
    let mut indices: Vec<usize> = Vec::new();
    let mut j: usize = 0;
    while j < size
        invariant
            j <= size,
            indices@.len() == j,
            forall|t: int| 0 <= t < j ==> indices@[t] == t,
        decreases size - j,
    {
        indices.push(j);
        j += 1;
    }
    assert(as_ints(indices@) =~= Seq::new(size as nat, |j: int| j));
    indices
}

/// Moves `indices` on to the combination that follows it in lexicographic
/// order, and says whether there was one.
///
/// Scans from the right for the pivot, the last index that is not yet as far
/// right as it can go, moves it right by one and lines the later indices up
/// directly behind it. Where every index is as far right as it can go,
/// `indices` is the last combination and stays as it is.
pub fn advance(indices: &mut Vec<usize>, pool: usize) -> (moved: bool)
    requires
        is_combination(as_ints(old(indices)@), pool as nat),
    ensures
        moved == successor(as_ints(old(indices)@), pool as int).is_some(),
        moved ==> successor(as_ints(old(indices)@), pool as int) == Some(as_ints(final(indices)@)),
        !moved ==> final(indices)@ == old(indices)@,
{
    let size = indices.len();
    let ghost c = as_ints(indices@);
    if size == 0 {
        return false;
    }
    proof {
        lemma_combination_lower_bound(c, 0, pool as int, size - 1);
        assert forall|j: int| 0 <= j < size implies #[trigger] c[j] <= pool - size + j by {
            lemma_combination_upper_bound(c, 0, pool as int, j);
        }
    }
    let slack = pool - size;
    let mut i: usize = size;
    while i > 0 && indices[i - 1] == slack + (i - 1)
        invariant
            i <= size,
            size == indices@.len(),
            slack == pool - size,
            c == as_ints(indices@),
            forall|j: int| 0 <= j < size ==> #[trigger] c[j] <= pool - size + j,
            forall|j: int| i <= j < size ==> #[trigger] c[j] >= pool - size + j,
        decreases i,
    {
        i -= 1;
    }
    if i == 0 {
        proof {
            lemma_pivot_below(c, pool as int, size as int, -1);
        }
        return false;
    }
    let p = i - 1;
    proof {
        assert(c[p as int] == indices@[p as int]);
        lemma_pivot_below(c, pool as int, size as int, p as int);
    }
    let moved_to = indices[p] + 1;
    indices.set(p, moved_to);
    let mut j: usize = p + 1;
    while j < size
        invariant
            p < j <= size,
            size == indices@.len(),
            size == c.len(),
            c[p as int] < pool - size + p,
            forall|t: int| 0 <= t < p ==> indices@[t] == c[t],
            forall|t: int| p <= t < j ==> indices@[t] == c[p as int] + 1 + (t - p),
        decreases size - j,
    {
        let previous = indices[j - 1];
        indices.set(j, previous + 1);
        j += 1;
    }
    assert(as_ints(indices@) =~= successor(c, pool as int)->0);
    true
}

} // verus!

use vstd::prelude::*;
use crate::columns::ColumnSet;
use crate::dosage::Dosage;

verus! {

broadcast use
    crate::columns::ColumnSet::lemma_col_len,
    crate::columns::ColumnSet::lemma_records_nonneg,
    vstd::seq_lib::group_to_multiset_ensures;

/// Each contig's result is tagged with the rank its contig holds in the
/// canonical contig table. Ranks are distinct.
pub open spec fn ranks_distinct(parts: Seq<(usize, ColumnSet)>) -> bool {
    forall|k1: int, k2: int|
        0 <= k1 < parts.len() && 0 <= k2 < parts.len() && k1 != k2 ==> (#[trigger] parts[k1]).0
            != (#[trigger] parts[k2]).0
}

/// Some part carries rank `r`.
pub open spec fn has_rank(parts: Seq<(usize, ColumnSet)>, r: int) -> bool {
    exists|k: int| 0 <= k < parts.len() && (#[trigger] parts[k]).0 == r
}

/// Every rank `0 .. parts.len()` is present.
pub open spec fn ranks_complete(parts: Seq<(usize, ColumnSet)>) -> bool {
    forall|r: int| 0 <= r < parts.len() ==> #[trigger] has_rank(parts, r)
}

/// All parts carry well-formed columns for the same fixed sample count.
pub open spec fn parts_wf(parts: Seq<(usize, ColumnSet)>, num_samples: int) -> bool {
    forall|k: int|
        0 <= k < parts.len() ==> (#[trigger] parts[k]).1.wf() && parts[k].1.num_samples()
            == num_samples
}

/// The position of the part tagged with rank `r` (meaningful when
/// `has_rank(parts, r)`).
pub open spec fn rank_index(parts: Seq<(usize, ColumnSet)>, r: int) -> int {
    choose|k: int| 0 <= k < parts.len() && (#[trigger] parts[k]).0 == r
}

/// The columns of the part tagged with rank `r`.
pub open spec fn part_with_rank(parts: Seq<(usize, ColumnSet)>, r: int) -> ColumnSet {
    parts[rank_index(parts, r)].1
}

/// Total record count of the parts of rank `0 .. r`.
pub open spec fn records_through(parts: Seq<(usize, ColumnSet)>, r: int) -> int
    decreases r,
{
    if r <= 0 {
        0
    } else {
        records_through(parts, r - 1) + part_with_rank(parts, r - 1).num_records()
    }
}

/// Column `i` of the parts of rank `0 .. r`, concatenated in rank order.
pub open spec fn col_through(parts: Seq<(usize, ColumnSet)>, i: int, r: int) -> Seq<Dosage>
    decreases r,
{
    if r <= 0 {
        Seq::empty()
    } else {
        col_through(parts, i, r - 1) + part_with_rank(parts, r - 1).col(i)
    }
}

/// With distinct ranks, the tagged part is the unique element with that rank.
proof fn lemma_part_with_rank_unique(parts: Seq<(usize, ColumnSet)>, r: int, k: int)
    requires
        ranks_distinct(parts),
        0 <= k < parts.len(),
        parts[k].0 == r,
    ensures
        part_with_rank(parts, r) == parts[k].1,
{
    let kc = rank_index(parts, r);
    assert(0 <= kc < parts.len() && parts[kc].0 == r);
    assert(kc == k);
}

proof fn lemma_records_through_monotone(parts: Seq<(usize, ColumnSet)>, r1: int, r2: int)
    requires
        0 <= r1 <= r2,
    ensures
        records_through(parts, r1) <= records_through(parts, r2),
    decreases r2 - r1,
{
    if r1 < r2 {
        lemma_records_through_monotone(parts, r1, r2 - 1);
        assert(part_with_rank(parts, r2 - 1).num_records() >= 0);
    }
}

/// Merge the per-contig column sets into genome-wide columns, in rank order:
/// the values of the contig of rank `r` always precede those of rank `r + 1`
/// in every merged column, no matter in what order the parts stand in
/// `parts` (that is, no matter in what order the contigs finished).
pub fn merge_by_rank(parts: &Vec<(usize, ColumnSet)>, num_samples: usize) -> (out: ColumnSet)
    requires
        ranks_distinct(parts@),
        ranks_complete(parts@),
        parts_wf(parts@, num_samples as int),
        records_through(parts@, parts@.len() as int) <= usize::MAX,
    ensures
        out.wf(),
        out.num_samples() == num_samples,
        out.num_records() == records_through(parts@, parts@.len() as int),
        forall|i: int|
            0 <= i < num_samples ==> out.col(i) == col_through(parts@, i, parts@.len() as int),
{
    let mut out = ColumnSet::new(num_samples);
    let n = parts.len();
    let mut r: usize = 0;
    while r < n
        invariant
            r <= n,
            n == parts@.len(),
            ranks_distinct(parts@),
            ranks_complete(parts@),
            parts_wf(parts@, num_samples as int),
            records_through(parts@, n as int) <= usize::MAX,
            out.wf(),
            out.num_samples() == num_samples,
            out.num_records() == records_through(parts@, r as int),
            forall|i: int| 0 <= i < num_samples ==> out.col(i) == col_through(parts@, i, r as int),
        decreases n - r,
    {
        // Find the part that carries rank r; completion order is irrelevant.
        assert(has_rank(parts@, r as int));
        let ghost k0 = rank_index(parts@, r as int);
        assert(0 <= k0 < parts@.len() && parts@[k0].0 == r);
        let mut k: usize = 0;
        while parts[k].0 != r
            invariant
                0 <= k <= k0 < parts@.len(),
                n == parts@.len(),
                parts@[k0].0 == r,
            decreases k0 - k,
        {
            assert(k < k0);
            k = k + 1;
        }
        proof {
            lemma_part_with_rank_unique(parts@, r as int, k as int);
            lemma_records_through_monotone(parts@, r as int + 1, n as int);
        }
        out.append_from(&parts[k].1);
        r = r + 1;
    }
    out
}

proof fn lemma_part_with_rank_permutation(
    parts1: Seq<(usize, ColumnSet)>,
    parts2: Seq<(usize, ColumnSet)>,
    r: int,
)
    requires
        parts1.to_multiset() == parts2.to_multiset(),
        ranks_distinct(parts1),
        ranks_complete(parts1),
        0 <= r < parts1.len(),
    ensures
        part_with_rank(parts1, r) == part_with_rank(parts2, r),
{
    parts1.to_multiset_ensures();
    parts2.to_multiset_ensures();
    assert(has_rank(parts1, r));
    let k1 = rank_index(parts1, r);
    assert(0 <= k1 < parts1.len() && parts1[k1].0 == r);
    assert(parts1.contains(parts1[k1]));
    assert(parts1.to_multiset().count(parts1[k1]) > 0);
    assert(parts2.to_multiset().count(parts1[k1]) > 0);
    assert(parts2.contains(parts1[k1]));
    let k2w = choose|k: int| 0 <= k < parts2.len() && parts2[k] == parts1[k1];
    assert(parts2[k2w].0 == r);
    lemma_part_with_rank_unique(parts1, r, k1);
    assert(has_rank(parts2, r));
    let k2 = rank_index(parts2, r);
    assert(0 <= k2 < parts2.len() && parts2[k2].0 == r);
    assert(parts2.contains(parts2[k2]));
    assert(parts2.to_multiset().count(parts2[k2]) > 0);
    assert(parts1.to_multiset().count(parts2[k2]) > 0);
    assert(parts1.contains(parts2[k2]));
    let k1b = choose|k: int| 0 <= k < parts1.len() && parts1[k] == parts2[k2];
    assert(parts1[k1b].0 == r);
    assert(k1b == k1);
    assert(part_with_rank(parts2, r) == parts2[k2].1);
}

/// The scheduler's merge does not depend on the order in which contigs
/// finished: two part lists that are permutations of each other (same tagged
/// parts, any arrival order) merge to the same record count and the same
/// genome-wide columns. Together with the pinned per-cell contract of the
/// distance engine, the number of parallel workers cannot change the final
/// matrix.
pub proof fn lemma_merge_order_independent(
    parts1: Seq<(usize, ColumnSet)>,
    parts2: Seq<(usize, ColumnSet)>,
    r: int,
)
    requires
        parts1.to_multiset() == parts2.to_multiset(),
        ranks_distinct(parts1),
        ranks_complete(parts1),
        0 <= r <= parts1.len(),
    ensures
        records_through(parts1, r) == records_through(parts2, r),
        forall|i: int| col_through(parts1, i, r) == col_through(parts2, i, r),
    decreases r,
{
    if r > 0 {
        lemma_merge_order_independent(parts1, parts2, r - 1);
        lemma_part_with_rank_permutation(parts1, parts2, r - 1);
        assert forall|i: int| col_through(parts1, i, r) == col_through(parts2, i, r) by {
            assert(col_through(parts1, i, r - 1) == col_through(parts2, i, r - 1));
        }
    }
}

} // verus!

use vstd::prelude::*;
use crate::columns::ColumnSet;
use crate::distance::abs_diff_sum;
use crate::distance::cell_correct;
use crate::distance::comparable_count;
use crate::distance::lemma_pair_symmetric;
use crate::distance::matrix_view;
use crate::distance::pair_distance;
use crate::distance::DistanceCell;

verus! {

/// `p` precedes `q` lexicographically.
pub open spec fn lex_before(p: (usize, usize), q: (usize, usize)) -> bool {
    p.0 < q.0 || (p.0 == q.0 && p.1 < q.1)
}

/// The unordered pair `(i, j)` occurs in the list.
pub open spec fn pair_listed(pairs: Seq<(usize, usize)>, i: int, j: int) -> bool {
    exists|k: int|
        0 <= k < pairs.len() && (#[trigger] pairs[k]).0 as int == i && pairs[k].1 as int == j
}

/// The position at which the unordered pair `(i, j)` occurs (meaningful when
/// `pair_listed(pairs, i, j)`).
pub open spec fn pair_index_of(pairs: Seq<(usize, usize)>, i: int, j: int) -> int {
    choose|k: int|
        0 <= k < pairs.len() && (#[trigger] pairs[k]).0 as int == i && pairs[k].1 as int == j
}

/// Every pair holds two sample indices in ascending order.
pub open spec fn pairs_in_range(pairs: Seq<(usize, usize)>, n: int) -> bool {
    forall|k: int| 0 <= k < pairs.len() ==> (#[trigger] pairs[k]).0 < pairs[k].1 < n
}

/// The list is strictly increasing lexicographically; in particular no pair
/// occurs twice.
pub open spec fn pairs_sorted(pairs: Seq<(usize, usize)>) -> bool {
    forall|k1: int, k2: int|
        0 <= k1 < k2 < pairs.len() ==> lex_before(#[trigger] pairs[k1], #[trigger] pairs[k2])
}

/// Every unordered pair of distinct sample indices below `n` occurs.
pub open spec fn pairs_complete(pairs: Seq<(usize, usize)>, n: int) -> bool {
    forall|i: int, j: int| 0 <= i < j < n ==> #[trigger] pair_listed(pairs, i, j)
}

/// Enumerate all unordered pairs of distinct sample indices below `n`, in
/// lexicographic order: every distance-phase work unit, each exactly once.
pub fn pair_combinations(n: usize) -> (pairs: Vec<(usize, usize)>)
    ensures
        pairs_in_range(pairs@, n as int),
        pairs_sorted(pairs@),
        pairs_complete(pairs@, n as int),
{
    let mut pairs: Vec<(usize, usize)> = Vec::new();
    let mut i: usize = 0;
    while i < n
        invariant
            i <= n,
            pairs_in_range(pairs@, n as int),
            pairs_sorted(pairs@),
            forall|k: int| 0 <= k < pairs@.len() ==> (#[trigger] pairs@[k]).0 < i,
            forall|a: int, b: int| 0 <= a < b < n && a < i ==> #[trigger] pair_listed(pairs@, a, b),
        decreases n - i,
    {
        let mut j: usize = i + 1;
        while j < n
            invariant
                i < j <= n,
                j >= i + 1,
                n > i,
                pairs_in_range(pairs@, n as int),
                pairs_sorted(pairs@),
                forall|k: int|
                    0 <= k < pairs@.len() ==> lex_before(#[trigger] pairs@[k], (i, j)),
                forall|a: int, b: int|
                    0 <= a < b < n && a < i ==> #[trigger] pair_listed(pairs@, a, b),
                forall|b: int| i < b < j ==> #[trigger] pair_listed(pairs@, i as int, b),
            decreases n - j,
        {
            let ghost pre = pairs@;
            pairs.push((i, j));
            proof {
                assert(pairs@[pre.len() as int] == (i, j));
                assert forall|a: int, b: int|
                    0 <= a < b < n && a < i implies #[trigger] pair_listed(pairs@, a, b) by {
                    assert(pair_listed(pre, a, b));
                    let k = pair_index_of(pre, a, b);
                    assert(0 <= k < pre.len() && pre[k].0 as int == a && pre[k].1 as int == b);
                    assert((pairs@[k]).0 as int == a && pairs@[k].1 as int == b);
                }
                assert forall|b: int| i < b < j + 1 implies #[trigger] pair_listed(
                    pairs@,
                    i as int,
                    b,
                ) by {
                    if b < j {
                        assert(pair_listed(pre, i as int, b));
                        let k = pair_index_of(pre, i as int, b);
                        assert(0 <= k < pre.len() && pre[k].0 as int == i as int && pre[k].1 as int
                            == b);
                        assert((pairs@[k]).0 as int == i as int && pairs@[k].1 as int == b);
                    } else {
                        assert((pairs@[pre.len() as int]).0 as int == i as int && pairs@[
                            pre.len() as int
                        ].1 as int == b);
                    }
                }
            }
            j = j + 1;
        }
        i = i + 1;
    }
    pairs
}

/// The distance cell computed for the unordered pair `(i, j)` occurs among
/// the entries.
pub open spec fn entry_listed(entries: Seq<(usize, usize, DistanceCell)>, i: int, j: int) -> bool {
    exists|k: int|
        0 <= k < entries.len() && (#[trigger] entries[k]).0 as int == i && entries[k].1 as int == j
}

/// The position of the entry for the unordered pair `(i, j)` (meaningful
/// when `entry_listed(entries, i, j)`).
pub open spec fn entry_index_of(entries: Seq<(usize, usize, DistanceCell)>, i: int, j: int) -> int {
    choose|k: int|
        0 <= k < entries.len() && (#[trigger] entries[k]).0 as int == i && entries[k].1 as int == j
}

/// Every entry speaks of two sample indices in ascending order.
pub open spec fn entries_in_range(entries: Seq<(usize, usize, DistanceCell)>, n: int) -> bool {
    forall|k: int| 0 <= k < entries.len() ==> (#[trigger] entries[k]).0 < entries[k].1 < n
}

/// No unordered pair occurs twice.
pub open spec fn entries_distinct(entries: Seq<(usize, usize, DistanceCell)>) -> bool {
    forall|k1: int, k2: int|
        0 <= k1 < k2 < entries.len() ==> !((#[trigger] entries[k1]).0 == (#[trigger] entries[k2]).0
            && entries[k1].1 == entries[k2].1)
}

/// Every unordered pair of distinct sample indices below `n` occurs.
pub open spec fn entries_complete(entries: Seq<(usize, usize, DistanceCell)>, n: int) -> bool {
    forall|i: int, j: int| 0 <= i < j < n ==> #[trigger] entry_listed(entries, i, j)
}

/// The matrix holds the entry's cell at both mirrored positions of the
/// unordered pair `(i, j)`.
pub open spec fn cell_stored(
    entries: Seq<(usize, usize, DistanceCell)>,
    m: Seq<Vec<DistanceCell>>,
    i: int,
    j: int,
) -> bool {
    m[i]@[j] == entries[entry_index_of(entries, i, j)].2 && m[j]@[i] == entries[entry_index_of(
        entries,
        i,
        j,
    )].2
}

/// Single-threaded finalization pass: allocate the matrix, then store each
/// independently computed pair cell at both of its mirrored positions. The
/// entries may arrive in any order; each unordered pair is written exactly
/// once, and the diagonal is never written and keeps its initial 0/1.
pub fn apply_pair_cells(num_samples: usize, entries: &Vec<(usize, usize, DistanceCell)>) -> (m:
    Vec<Vec<DistanceCell>>)
    requires
        entries_in_range(entries@, num_samples as int),
        entries_distinct(entries@),
        entries_complete(entries@, num_samples as int),
    ensures
        m@.len() == num_samples,
        forall|i: int| 0 <= i < num_samples ==> (#[trigger] m@[i])@.len() == num_samples,
        forall|i: int|
            0 <= i < num_samples ==> (#[trigger] m@[i])@[i] == (DistanceCell {
                numerator: 0u64,
                denominator: 1u64,
            }),
        forall|i: int, j: int|
            0 <= i < j < num_samples ==> #[trigger] cell_stored(entries@, m@, i, j),
{
    let ns = num_samples;
    let mut m: Vec<Vec<DistanceCell>> = Vec::with_capacity(ns);
    let mut i: usize = 0;
    while i < ns
        invariant
            i <= ns,
            m@.len() == i,
            forall|a: int| 0 <= a < i ==> (#[trigger] m@[a])@.len() == ns,
            forall|a: int, b: int|
                #![trigger m@[a]@[b]]
                0 <= a < i && 0 <= b < ns ==> m@[a]@[b] == (DistanceCell {
                    numerator: 0u64,
                    denominator: 1u64,
                }),
        decreases ns - i,
    {
        let mut row: Vec<DistanceCell> = Vec::with_capacity(ns);
        let mut b: usize = 0;
        while b < ns
            invariant
                b <= ns,
                row@.len() == b,
                forall|b2: int|
                    0 <= b2 < b ==> (#[trigger] row@[b2]) == (DistanceCell {
                        numerator: 0u64,
                        denominator: 1u64,
                    }),
            decreases ns - b,
        {
            row.push(DistanceCell { numerator: 0, denominator: 1 });
            b = b + 1;
        }
        m.push(row);
        i = i + 1;
    }
    let mut t: usize = 0;
    while t < entries.len()
        invariant
            t <= entries@.len(),
            entries_in_range(entries@, ns as int),
            entries_distinct(entries@),
            m@.len() == ns,
            forall|a: int| 0 <= a < ns ==> (#[trigger] m@[a])@.len() == ns,
            forall|a: int|
                0 <= a < ns ==> (#[trigger] m@[a])@[a] == (DistanceCell {
                    numerator: 0u64,
                    denominator: 1u64,
                }),
            forall|k: int|
                #![trigger entries@[k]]
                0 <= k < t ==> m@[entries@[k].0 as int]@[entries@[k].1 as int] == entries@[k].2
                    && m@[entries@[k].1 as int]@[entries@[k].0 as int] == entries@[k].2,
        decreases entries@.len() - t,
    {
        let e = entries[t];
        let pi = e.0;
        let pj = e.1;
        let ghost m_pre = m@;
        m[pi][pj] = e.2;
        m[pj][pi] = e.2;
        proof {
            assert forall|k: int|
                0 <= k < t + 1 implies (#[trigger] m@[entries@[k].0 as int])@[entries@[k].1 as int]
                == entries@[k].2 && m@[entries@[k].1 as int]@[entries@[k].0 as int] == entries@[
                k
            ].2 by {
                let a = entries@[k].0 as int;
                let b = entries@[k].1 as int;
                if k < t {
                    assert(e == entries@[t as int]);
                    assert(!(entries@[k].0 == entries@[t as int].0 && entries@[k].1 == entries@[
                        t as int
                    ].1));
                    assert(a < b && (pi as int) < (pj as int));
                    assert(a != pi as int || b != pj as int);
                    assert(m_pre[a][b] == entries@[k].2 && m_pre[b][a] == entries@[k].2);
                }
            }
        }
        t = t + 1;
    }
    proof {
        assert forall|i2: int, j2: int|
            0 <= i2 < j2 < num_samples implies #[trigger] cell_stored(entries@, m@, i2, j2) by {
            assert(entry_listed(entries@, i2, j2));
            let k = entry_index_of(entries@, i2, j2);
            assert(0 <= k < entries@.len() && entries@[k].0 as int == i2 && entries@[k].1 as int
                == j2);
            assert(m@[entries@[k].0 as int]@[entries@[k].1 as int] == entries@[k].2);
            assert(m@[entries@[k].1 as int]@[entries@[k].0 as int] == entries@[k].2);
        }
    }
    m
}

/// Attaching one computed cell to each enumerated pair yields a valid entry
/// set for the finalization pass: whatever the cells are, the entries stay
/// in range, list no pair twice, and cover every pair.
pub proof fn lemma_entries_from_pairs(
    pairs: Seq<(usize, usize)>,
    entries: Seq<(usize, usize, DistanceCell)>,
    n: int,
)
    requires
        pairs_in_range(pairs, n),
        pairs_sorted(pairs),
        pairs_complete(pairs, n),
        entries.len() == pairs.len(),
        forall|k: int|
            0 <= k < entries.len() ==> (#[trigger] entries[k]).0 == pairs[k].0 && entries[k].1
                == pairs[k].1,
    ensures
        entries_in_range(entries, n),
        entries_distinct(entries),
        entries_complete(entries, n),
{
    assert forall|k1: int, k2: int|
        0 <= k1 < k2 < entries.len() implies !((#[trigger] entries[k1]).0 == (
    #[trigger] entries[k2]).0 && entries[k1].1 == entries[k2].1) by {
        assert(lex_before(pairs[k1], pairs[k2]));
    }
    assert forall|i: int, j: int| 0 <= i < j < n implies #[trigger] entry_listed(
        entries,
        i,
        j,
    ) by {
        assert(pair_listed(pairs, i, j));
        let k = pair_index_of(pairs, i, j);
        assert(0 <= k < pairs.len() && pairs[k].0 as int == i && pairs[k].1 as int == j);
        assert(entries[k].0 as int == i && entries[k].1 as int == j);
    }
}

/// Every entry's cell is the exact distance cell of its sample pair's
/// columns.
pub open spec fn entries_computed(
    entries: Seq<(usize, usize, DistanceCell)>,
    c: ColumnSet,
) -> bool {
    forall|k: int|
        0 <= k < entries.len() ==> (#[trigger] entries[k]).2.numerator == abs_diff_sum(
            c.col(entries[k].0 as int),
            c.col(entries[k].1 as int),
            c.num_records(),
        ) && entries[k].2.denominator == 2 * comparable_count(
            c.col(entries[k].0 as int),
            c.col(entries[k].1 as int),
            c.num_records(),
        )
}

/// Scheduler correctness of the distance phase: when the independently
/// computed pair cells — arriving in any order, from any number of workers —
/// are the distance cells of their column pairs, the finalized matrix is
/// exactly the distance matrix of the columns: every cell is correct, so
/// the degree of parallelism cannot change the result.
pub proof fn lemma_applied_matrix_correct(
    entries: Seq<(usize, usize, DistanceCell)>,
    c: ColumnSet,
    m: Seq<Vec<DistanceCell>>,
)
    requires
        entries_in_range(entries, c.num_samples()),
        entries_distinct(entries),
        entries_complete(entries, c.num_samples()),
        entries_computed(entries, c),
        m.len() == c.num_samples(),
        forall|i: int| 0 <= i < c.num_samples() ==> (#[trigger] m[i])@.len() == c.num_samples(),
        forall|i: int|
            0 <= i < c.num_samples() ==> (#[trigger] m[i])@[i] == (DistanceCell {
                numerator: 0u64,
                denominator: 1u64,
            }),
        forall|i: int, j: int|
            0 <= i < j < c.num_samples() ==> #[trigger] cell_stored(entries, m, i, j),
    ensures
        forall|i: int, j: int|
            0 <= i < c.num_samples() && 0 <= j < c.num_samples() ==> cell_correct(
                c,
                matrix_view(m),
                i,
                j,
            ),
{
    assert forall|i: int, j: int|
        0 <= i < c.num_samples() && 0 <= j < c.num_samples() implies cell_correct(
        c,
        matrix_view(m),
        i,
        j,
    ) by {
        assert(matrix_view(m)[i] == m[i]@);
        assert(matrix_view(m)[j] == m[j]@);
        if i < j {
            assert(cell_stored(entries, m, i, j));
            assert(entry_listed(entries, i, j));
            let k = entry_index_of(entries, i, j);
            assert(0 <= k < entries.len() && entries[k].0 as int == i && entries[k].1 as int == j);
            assert(entries[k].2.numerator == abs_diff_sum(c.col(i), c.col(j), c.num_records()));
        } else if j < i {
            assert(cell_stored(entries, m, j, i));
            assert(entry_listed(entries, j, i));
            let k = entry_index_of(entries, j, i);
            assert(0 <= k < entries.len() && entries[k].0 as int == j && entries[k].1 as int == i);
            assert(m[i]@[j] == entries[k].2);
            assert(entries[k].2.numerator == abs_diff_sum(c.col(j), c.col(i), c.num_records()));
            lemma_pair_symmetric(c.col(i), c.col(j), c.num_records());
        }
    }
}

/// The distance matrix computed as the scheduler decomposes it: enumerate
/// the unordered pairs, compute one cell per pair (each an independent work
/// unit), and apply the cells in a finalization pass. Yields a matrix with
/// every cell correct for the columns — the same matrix that any execution
/// order of the pairs produces.
pub fn distance_matrix_via_pairs(c: &ColumnSet) -> (m: Vec<Vec<DistanceCell>>)
    requires
        c.wf(),
        c.num_records() <= 0x7fff_ffff_ffff_ffff,
    ensures
        m@.len() == c.num_samples(),
        forall|i: int| 0 <= i < c.num_samples() ==> (#[trigger] m@[i])@.len() == c.num_samples(),
        forall|i: int, j: int|
            0 <= i < c.num_samples() && 0 <= j < c.num_samples() ==> cell_correct(
                *c,
                matrix_view(m@),
                i,
                j,
            ),
{
    let ns = c.sample_count();
    let pairs = pair_combinations(ns);
    let mut entries: Vec<(usize, usize, DistanceCell)> = Vec::new();
    let mut t: usize = 0;
    while t < pairs.len()
        invariant
            t <= pairs@.len(),
            ns == c.num_samples(),
            c.wf(),
            c.num_records() <= 0x7fff_ffff_ffff_ffff,
            pairs_in_range(pairs@, ns as int),
            entries@.len() == t,
            forall|k: int|
                0 <= k < t ==> (#[trigger] entries@[k]).0 == pairs@[k].0 && entries@[k].1
                    == pairs@[k].1,
            forall|k: int|
                0 <= k < t ==> (#[trigger] entries@[k]).2.numerator == abs_diff_sum(
                    c.col(entries@[k].0 as int),
                    c.col(entries@[k].1 as int),
                    c.num_records(),
                ) && entries@[k].2.denominator == 2 * comparable_count(
                    c.col(entries@[k].0 as int),
                    c.col(entries@[k].1 as int),
                    c.num_records(),
                ),
        decreases pairs@.len() - t,
    {
        let p = pairs[t];
        proof {
            assert(pairs@[t as int].0 < pairs@[t as int].1 < ns);
            c.lemma_col_len(p.0 as int);
            c.lemma_col_len(p.1 as int);
        }
        let cell = pair_distance(c.column(p.0), c.column(p.1));
        let ghost pre = entries@;
        entries.push((p.0, p.1, cell));
        proof {
            assert forall|k: int| 0 <= k < t + 1 implies (#[trigger] entries@[k]).0 == pairs@[k].0
                && entries@[k].1 == pairs@[k].1 by {
                if k < t {
                    assert(entries@[k] == pre[k]);
                }
            }
            assert forall|k: int|
                0 <= k < t + 1 implies (#[trigger] entries@[k]).2.numerator == abs_diff_sum(
                c.col(entries@[k].0 as int),
                c.col(entries@[k].1 as int),
                c.num_records(),
            ) && entries@[k].2.denominator == 2 * comparable_count(
                c.col(entries@[k].0 as int),
                c.col(entries@[k].1 as int),
                c.num_records(),
            ) by {
                if k < t {
                    assert(entries@[k] == pre[k]);
                }
            }
        }
        t = t + 1;
    }
    proof {
        lemma_entries_from_pairs(pairs@, entries@, ns as int);
    }
    let m = apply_pair_cells(ns, &entries);
    proof {
        lemma_applied_matrix_correct(entries@, *c, m@);
    }
    m
}

} // verus!

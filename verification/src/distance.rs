use vstd::prelude::*;
use crate::columns::ColumnSet;
use crate::dosage::Dosage;

verus! {

broadcast use crate::columns::ColumnSet::lemma_col_len;

/// One cell of the distance matrix, as an exact rational: the summed
/// absolute dosage difference over the comparable sites, over twice the
/// number of comparable sites (per-allele normalization of a diploid
/// genotype). A zero denominator off the diagonal marks "no comparable
/// sites" and presents as 0/0 (NaN); the untouched diagonal is 0/1.
#[derive(Clone, Copy, Debug, PartialEq, Eq, Structural)]
pub struct DistanceCell {
    pub numerator: u64,
    pub denominator: u64,
}

/// Position `k` is a comparable site of the two columns: both dosages called.
pub open spec fn comparable_at(a: Seq<Dosage>, b: Seq<Dosage>, k: int) -> bool {
    a[k].is_called() && b[k].is_called()
}

/// Absolute difference of two dosage levels.
pub open spec fn abs_level_diff(x: Dosage, y: Dosage) -> int {
    if x.spec_level() >= y.spec_level() {
        x.spec_level() - y.spec_level()
    } else {
        y.spec_level() - x.spec_level()
    }
}

/// Number of comparable sites among the first `n` positions.
pub open spec fn comparable_count(a: Seq<Dosage>, b: Seq<Dosage>, n: int) -> int
    decreases n,
{
    if n <= 0 {
        0
    } else {
        comparable_count(a, b, n - 1) + if comparable_at(a, b, n - 1) {
            1int
        } else {
            0int
        }
    }
}

/// Summed absolute dosage difference over the comparable sites among the
/// first `n` positions.
pub open spec fn abs_diff_sum(a: Seq<Dosage>, b: Seq<Dosage>, n: int) -> int
    decreases n,
{
    if n <= 0 {
        0
    } else {
        abs_diff_sum(a, b, n - 1) + if comparable_at(a, b, n - 1) {
            abs_level_diff(a[n - 1], b[n - 1])
        } else {
            0int
        }
    }
}

/// Swapping the two columns changes neither reduction: the distance is
/// symmetric in its arguments.
pub proof fn lemma_pair_symmetric(a: Seq<Dosage>, b: Seq<Dosage>, n: int)
    ensures
        comparable_count(a, b, n) == comparable_count(b, a, n),
        abs_diff_sum(a, b, n) == abs_diff_sum(b, a, n),
    decreases n,
{
    if n > 0 {
        lemma_pair_symmetric(a, b, n - 1);
    }
}

/// If the two samples are both missing at every position, there is no
/// comparable site at all, so the pair's denominator is zero and the cell
/// presents as 0/0 (NaN), never as a numeric distance.
pub proof fn lemma_all_missing_no_comparable(a: Seq<Dosage>, b: Seq<Dosage>, n: int)
    requires
        forall|k: int| 0 <= k < n ==> #[trigger] a[k] == Dosage::Missing && b[k] == Dosage::Missing,
    ensures
        comparable_count(a, b, n) == 0,
        abs_diff_sum(a, b, n) == 0,
    decreases n,
{
    if n > 0 {
        lemma_all_missing_no_comparable(a, b, n - 1);
    }
}

/// The distance cell of one unordered sample pair: numerator and denominator
/// of `sum(|dosage_i - dosage_j|) / (2 * comparable_count)` over the
/// positions where both columns are called.
pub fn pair_distance(a: &Vec<Dosage>, b: &Vec<Dosage>) -> (cell: DistanceCell)
    requires
        a@.len() == b@.len(),
        a@.len() <= 0x7fff_ffff_ffff_ffff,
    ensures
        cell.numerator == abs_diff_sum(a@, b@, a@.len() as int),
        cell.denominator == 2 * comparable_count(a@, b@, a@.len() as int),
{
    let n = a.len();
    let mut sum: u64 = 0;
    let mut count: u64 = 0;
    let mut k: usize = 0;
    while k < n
        invariant
            k <= n,
            n == a@.len(),
            n == b@.len(),
            n <= 0x7fff_ffff_ffff_ffff,
            sum == abs_diff_sum(a@, b@, k as int),
            count == comparable_count(a@, b@, k as int),
            sum <= 2 * k,
            count <= k,
        decreases n - k,
    {
        let x = a[k];
        let y = b[k];
        if x != Dosage::Missing && y != Dosage::Missing {
            let lx = x.level();
            let ly = y.level();
            let d = if lx >= ly {
                lx - ly
            } else {
                ly - lx
            };
            assert(d as int == abs_level_diff(x, y));
            sum = sum + (d as u64);
            count = count + 1;
        }
        k = k + 1;
    }
    DistanceCell { numerator: sum, denominator: 2 * count }
}

/// What every cell of the finished matrix must hold: the pair cell for
/// distinct samples, and the untouched initial value 0/1 on the diagonal,
/// which is never written.
pub open spec fn cell_correct(c: ColumnSet, m: Seq<Seq<DistanceCell>>, i: int, j: int) -> bool {
    if i == j {
        m[i][j] == (DistanceCell { numerator: 0u64, denominator: 1u64 })
    } else {
        m[i][j].numerator == abs_diff_sum(c.col(i), c.col(j), c.num_records()) && m[i][j].denominator
            == 2 * comparable_count(c.col(i), c.col(j), c.num_records())
    }
}

/// The views of the matrix rows.
pub open spec fn matrix_view(m: Seq<Vec<DistanceCell>>) -> Seq<Seq<DistanceCell>> {
    m.map_values(|row: Vec<DistanceCell>| row@)
}

/// Compute the full symmetric pairwise distance matrix of well-formed
/// genome-wide columns. Every off-diagonal cell holds the exact rational
/// distance of its sample pair, the matrix is symmetric, and the diagonal
/// keeps its initial 0/1.
pub fn distance_matrix(c: &ColumnSet) -> (m: Vec<Vec<DistanceCell>>)
    requires
        c.wf(),
        c.num_records() <= 0x7fff_ffff_ffff_ffff,
    ensures
        m@.len() == c.num_samples(),
        forall|i: int| 0 <= i < c.num_samples() ==> (#[trigger] m@[i])@.len() == c.num_samples(),
        forall|i: int, j: int|
            0 <= i < c.num_samples() && 0 <= j < c.num_samples() ==> cell_correct(
                *c,
                matrix_view(m@),
                i,
                j,
            ),
        forall|i: int, j: int|
            0 <= i < c.num_samples() && 0 <= j < c.num_samples() ==> (#[trigger] m@[i])@[j] == (
            #[trigger] m@[j])@[i],
{
    let ns = c.sample_count();
    let mut m: Vec<Vec<DistanceCell>> = Vec::with_capacity(ns);
    let mut i: usize = 0;
    while i < ns
        invariant
            i <= ns,
            ns == c.num_samples(),
            c.wf(),
            c.num_records() <= 0x7fff_ffff_ffff_ffff,
            m@.len() == i,
            forall|i2: int| 0 <= i2 < i ==> (#[trigger] m@[i2])@.len() == ns,
            forall|i2: int, j: int|
                0 <= i2 < i && 0 <= j < ns ==> cell_correct(*c, matrix_view(m@), i2, j),
        decreases ns - i,
    {
        let mut row: Vec<DistanceCell> = Vec::with_capacity(ns);
        let mut j: usize = 0;
        while j < ns
            invariant
                j <= ns,
                i < ns,
                ns == c.num_samples(),
                c.wf(),
                c.num_records() <= 0x7fff_ffff_ffff_ffff,
                row@.len() == j,
                forall|j2: int|
                    0 <= j2 < j && j2 != i ==> (#[trigger] row@[j2]).numerator == abs_diff_sum(
                        c.col(i as int),
                        c.col(j2),
                        c.num_records(),
                    ) && row@[j2].denominator == 2 * comparable_count(
                        c.col(i as int),
                        c.col(j2),
                        c.num_records(),
                    ),
                i < j ==> row@[i as int] == (DistanceCell { numerator: 0u64, denominator: 1u64 }),
            decreases ns - j,
        {
            if j == i {
                row.push(DistanceCell { numerator: 0, denominator: 1 });
            } else {
                let cell = pair_distance(c.column(i), c.column(j));
                row.push(cell);
            }
            j = j + 1;
        }
        let ghost m_pre = m@;
        m.push(row);
        proof {
            assert forall|i2: int, j2: int|
                0 <= i2 < i + 1 && 0 <= j2 < ns implies cell_correct(*c, matrix_view(m@), i2, j2) by {
                assert(matrix_view(m@)[i2] == m@[i2]@);
                if i2 < i {
                    assert(m@[i2] == m_pre[i2]);
                    assert(matrix_view(m_pre)[i2] == m_pre[i2]@);
                    assert(cell_correct(*c, matrix_view(m_pre), i2, j2));
                } else {
                    assert(m@[i2]@ == row@);
                }
            }
        }
        i = i + 1;
    }
    proof {
        assert forall|i2: int, j2: int|
            0 <= i2 < c.num_samples() && 0 <= j2 < c.num_samples() implies (#[trigger] m@[i2])@[j2]
            == (#[trigger] m@[j2])@[i2] by {
            lemma_pair_symmetric(c.col(i2), c.col(j2), c.num_records());
            assert(cell_correct(*c, matrix_view(m@), i2, j2));
            assert(cell_correct(*c, matrix_view(m@), j2, i2));
            assert(matrix_view(m@)[i2] == m@[i2]@);
            assert(matrix_view(m@)[j2] == m@[j2]@);
        }
    }
    m
}

/// The matrix is determined by the columns alone: any two matrices whose
/// cells are all correct for the same columns agree cell for cell. Every
/// run, with any number of parallel workers and any execution order of the
/// independent pairs, therefore produces the same matrix.
pub proof fn lemma_matrix_determined(
    c: ColumnSet,
    m1: Seq<Seq<DistanceCell>>,
    m2: Seq<Seq<DistanceCell>>,
)
    requires
        forall|i: int, j: int|
            #![trigger cell_correct(c, m1, i, j)]
            #![trigger cell_correct(c, m2, i, j)]
            0 <= i < c.num_samples() && 0 <= j < c.num_samples() ==> cell_correct(c, m1, i, j)
                && cell_correct(c, m2, i, j),
    ensures
        forall|i: int, j: int|
            0 <= i < c.num_samples() && 0 <= j < c.num_samples() ==> m1[i][j] == m2[i][j],
{
    assert forall|i: int, j: int|
        0 <= i < c.num_samples() && 0 <= j < c.num_samples() implies m1[i][j] == m2[i][j] by {
        assert(cell_correct(c, m1, i, j));
        assert(cell_correct(c, m2, i, j));
    }
}

} // verus!

use vstd::prelude::*;
use crate::dosage::Dosage;

verus! {

/// Per-sample dosage columns: one growable column per sample, appended to in
/// record order. Every column always has the same length, the number of
/// records pushed so far, so position `k` of any two columns refers to the
/// same variant record.
pub struct ColumnSet {
    cols: Vec<Vec<Dosage>>,
    records: usize,
}

impl ColumnSet {
    /// Number of samples (columns).
    pub closed spec fn num_samples(self) -> int {
        self.cols@.len() as int
    }

    /// Number of records every column holds.
    pub closed spec fn num_records(self) -> int {
        self.records as int
    }

    /// The dosage column of sample `i`.
    pub closed spec fn col(self, i: int) -> Seq<Dosage> {
        self.cols@[i]@
    }

    /// Every column has the same length: the record count.
    pub closed spec fn wf(self) -> bool {
        forall|i: int|
            0 <= i < self.cols@.len() ==> (#[trigger] self.cols@[i])@.len() == self.records
    }

    /// The record count is a machine integer and so never negative.
    pub broadcast proof fn lemma_records_nonneg(self)
        ensures
            #[trigger] self.num_records() >= 0,
    {
    }

    /// In a well-formed set, each column's length is the record count.
    pub broadcast proof fn lemma_col_len(self, i: int)
        requires
            self.wf(),
            0 <= i < self.num_samples(),
        ensures
            (#[trigger] self.col(i)).len() == self.num_records(),
    {
    }

    /// Fresh, empty columns for `num_samples` samples.
    pub fn new(num_samples: usize) -> (c: ColumnSet)
        ensures
            c.wf(),
            c.num_samples() == num_samples,
            c.num_records() == 0,
    {
        let mut cols: Vec<Vec<Dosage>> = Vec::new();
        let mut i: usize = 0;
        while i < num_samples
            invariant
                i <= num_samples,
                cols@.len() == i,
                forall|j: int| 0 <= j < i ==> (#[trigger] cols@[j])@.len() == 0,
            decreases num_samples - i,
        {
            cols.push(Vec::new());
            i = i + 1;
        }
        ColumnSet { cols, records: 0 }
    }

    /// Fresh, empty columns, each preallocated for about `capacity_hint`
    /// records. The hint only affects allocation; growth past it succeeds.
    pub fn with_capacity(num_samples: usize, capacity_hint: usize) -> (c: ColumnSet)
        ensures
            c.wf(),
            c.num_samples() == num_samples,
            c.num_records() == 0,
    {
        let mut cols: Vec<Vec<Dosage>> = Vec::new();
        let mut i: usize = 0;
        while i < num_samples
            invariant
                i <= num_samples,
                cols@.len() == i,
                forall|j: int| 0 <= j < i ==> (#[trigger] cols@[j])@.len() == 0,
            decreases num_samples - i,
        {
            cols.push(Vec::with_capacity(capacity_hint));
            i = i + 1;
        }
        ColumnSet { cols, records: 0 }
    }

    /// Executable sample count.
    pub fn sample_count(&self) -> (n: usize)
        ensures
            n == self.num_samples(),
    {
        self.cols.len()
    }

    /// Executable record count.
    pub fn record_count(&self) -> (n: usize)
        ensures
            n == self.num_records(),
    {
        self.records
    }

    /// Borrow the column of sample `i`.
    pub fn column(&self, i: usize) -> (r: &Vec<Dosage>)
        requires
            i < self.num_samples(),
        ensures
            r@ == self.col(i as int),
    {
        &self.cols[i]
    }

    /// Append one decoded record: dosage `i` of the record goes to the end of
    /// column `i`.
    pub fn push_record(&mut self, rec: &Vec<Dosage>)
        requires
            old(self).wf(),
            rec@.len() == old(self).num_samples(),
            old(self).num_records() < usize::MAX,
        ensures
            final(self).wf(),
            final(self).num_samples() == old(self).num_samples(),
            final(self).num_records() == old(self).num_records() + 1,
            forall|i: int|
                0 <= i < old(self).num_samples() ==> final(self).col(i) == old(self).col(i).push(
                    rec@[i],
                ),
    {
        let n = self.cols.len();
        let mut i: usize = 0;
        while i < n
            invariant
                i <= n,
                n == self.cols@.len(),
                n == rec@.len(),
                self.records == old(self).records,
                forall|j: int|
                    i <= j < n ==> #[trigger] self.cols@[j] == old(self).cols@[j],
                forall|j: int|
                    0 <= j < i ==> (#[trigger] self.cols@[j])@ == old(self).cols@[j]@.push(rec@[j]),
            decreases n - i,
        {
            let d = rec[i];
            self.cols[i].push(d);
            i = i + 1;
        }
        self.records = self.records + 1;
        proof {
            assert forall|j: int|
                0 <= j < self.cols@.len() implies (#[trigger] self.cols@[j])@.len()
                == self.records by {
                assert(old(self).cols@[j]@.len() == old(self).records);
            }
        }
    }

    /// Concatenate `other`'s columns after this set's columns, sample by
    /// sample: the merge step of the contig scheduler.
    pub fn append_from(&mut self, other: &ColumnSet)
        requires
            old(self).wf(),
            other.wf(),
            other.num_samples() == old(self).num_samples(),
            old(self).num_records() + other.num_records() <= usize::MAX,
        ensures
            final(self).wf(),
            final(self).num_samples() == old(self).num_samples(),
            final(self).num_records() == old(self).num_records() + other.num_records(),
            forall|i: int|
                0 <= i < old(self).num_samples() ==> final(self).col(i) == old(self).col(i)
                    + other.col(i),
    {
        let n = self.cols.len();
        let mut i: usize = 0;
        while i < n
            invariant
                i <= n,
                n == self.cols@.len(),
                n == other.cols@.len(),
                other.wf(),
                self.records == old(self).records,
                old(self).records + other.records <= usize::MAX,
                forall|j: int|
                    i <= j < n ==> #[trigger] self.cols@[j] == old(self).cols@[j],
                forall|j: int|
                    0 <= j < i ==> (#[trigger] self.cols@[j])@ == old(self).cols@[j]@
                        + other.cols@[j]@,
            decreases n - i,
        {
            let m = other.cols[i].len();
            let mut k: usize = 0;
            while k < m
                invariant
                    k <= m,
                    i < n,
                    n == self.cols@.len(),
                    n == other.cols@.len(),
                    m == other.cols@[i as int]@.len(),
                    self.records == old(self).records,
                    forall|j: int|
                        i < j < n ==> #[trigger] self.cols@[j] == old(self).cols@[j],
                    forall|j: int|
                        0 <= j < i ==> (#[trigger] self.cols@[j])@ == old(self).cols@[j]@
                            + other.cols@[j]@,
                    self.cols@[i as int]@ == old(self).cols@[i as int]@ + other.cols@[
                        i as int
                    ]@.subrange(0, k as int),
                decreases m - k,
            {
                let d = other.cols[i][k];
                self.cols[i].push(d);
                proof {
                    assert(other.cols@[i as int]@.subrange(0, k + 1) =~= other.cols@[
                        i as int
                    ]@.subrange(0, k as int).push(d));
                    assert(self.cols@[i as int]@ =~= old(self).cols@[i as int]@ + other.cols@[
                        i as int
                    ]@.subrange(0, k + 1));
                }
                k = k + 1;
            }
            proof {
                assert(other.cols@[i as int]@.subrange(0, m as int) =~= other.cols@[i as int]@);
            }
            i = i + 1;
        }
        self.records = self.records + other.records;
        proof {
            assert forall|j: int|
                0 <= j < self.cols@.len() implies (#[trigger] self.cols@[j])@.len()
                == self.records by {
                assert(old(self).cols@[j]@.len() == old(self).records);
                assert(other.cols@[j]@.len() == other.records);
            }
        }
    }
}

} // verus!

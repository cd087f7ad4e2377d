use vstd::prelude::*;
use crate::columns::ColumnSet;
use crate::dosage::decode_record;
use crate::dosage::decoded_record;
use crate::error::EngineError;

verus! {

broadcast use crate::columns::ColumnSet::lemma_col_len;

/// A raw record buffer is long enough for `num_samples` samples: 3 header
/// elements plus one allele pair per sample.
pub open spec fn record_ok(buf: Seq<u8>, num_samples: int) -> bool {
    buf.len() >= 2 * num_samples + 3
}

/// The views of a vector of raw record buffers.
pub open spec fn views_of(records: Seq<Vec<u8>>) -> Seq<Seq<u8>> {
    records.map_values(|v: Vec<u8>| v@)
}

/// `c` holds exactly the decode of `records`: one record per position, one
/// dosage per sample, columns aligned by record index.
pub open spec fn ingested(records: Seq<Seq<u8>>, num_samples: int, c: ColumnSet) -> bool {
    &&& c.wf()
    &&& c.num_samples() == num_samples
    &&& c.num_records() == records.len()
    &&& forall|i: int, k: int|
        0 <= i < num_samples && 0 <= k < records.len() ==> c.col(i)[k] == decoded_record(
            records[k],
            num_samples as nat,
        )[i]
}

/// Decode every record of one contig's region-restricted scan, in scan order,
/// into a fresh set of per-sample columns. The caller supplies the raw
/// buffers the scan produced; `capacity_hint` sizes the initial allocation
/// of each column and has no effect on the result.
///
/// Succeeds exactly when every buffer is long enough; otherwise fails with
/// `MalformedRecord` at the first short record, and no partial columns are
/// handed out.
pub fn ingest_region(records: &Vec<Vec<u8>>, num_samples: usize, capacity_hint: usize) -> (r:
    Result<ColumnSet, EngineError>)
    ensures
        match r {
            Ok(c) => {
                &&& forall|k: int|
                    0 <= k < records@.len() ==> record_ok(
                        #[trigger] records@[k]@,
                        num_samples as int,
                    )
                &&& ingested(views_of(records@), num_samples as int, c)
            },
            Err(e) => exists|k: int|
                {
                    &&& 0 <= k < records@.len()
                    &&& !record_ok(#[trigger] records@[k]@, num_samples as int)
                    &&& (forall|m: int|
                        0 <= m < k ==> record_ok(#[trigger] records@[m]@, num_samples as int))
                    &&& e == (EngineError::MalformedRecord { record_index: k as usize })
                },
        },
{
    let mut cs = ColumnSet::with_capacity(num_samples, capacity_hint);
    let n = records.len();
    let mut k: usize = 0;
    while k < n
        invariant
            k <= n,
            n == records@.len(),
            cs.wf(),
            cs.num_samples() == num_samples,
            cs.num_records() == k,
            forall|m: int| 0 <= m < k ==> record_ok(#[trigger] records@[m]@, num_samples as int),
            forall|i: int, m: int|
                0 <= i < num_samples && 0 <= m < k ==> cs.col(i)[m] == decoded_record(
                    records@[m]@,
                    num_samples as nat,
                )[i],
        decreases n - k,
    {
        let rec = &records[k];
        match decode_record(rec, num_samples, k) {
            Ok(d) => {
                // Per-record invariant: the decoded dosage count must agree
                // with the fixed sample count.
                if d.len() != num_samples {
                    return Err(EngineError::SampleCountMismatch { record_index: k });
                }
                cs.push_record(&d);
            },
            Err(e) => {
                assert(!record_ok(records@[k as int]@, num_samples as int));
                return Err(e);
            },
        }
        k = k + 1;
    }
    assert(forall|k2: int|
        0 <= k2 < records@.len() ==> views_of(records@)[k2] == #[trigger] records@[k2]@);
    Ok(cs)
}

/// Ingestion is a function of the raw records alone: any two column sets that
/// hold the decode of the same records are column-for-column identical.
/// Re-running ingestion on the same (read-only) archive therefore reproduces
/// the same columns.
pub proof fn lemma_ingest_deterministic(
    records: Seq<Seq<u8>>,
    num_samples: int,
    c1: ColumnSet,
    c2: ColumnSet,
)
    requires
        ingested(records, num_samples, c1),
        ingested(records, num_samples, c2),
    ensures
        c1.num_records() == c2.num_records(),
        forall|i: int| 0 <= i < num_samples ==> c1.col(i) == c2.col(i),
{
    assert forall|i: int| 0 <= i < num_samples implies c1.col(i) == c2.col(i) by {
        assert(c1.col(i).len() == records.len());
        assert(c2.col(i).len() == records.len());
        assert(c1.col(i) =~= c2.col(i));
    }
}

} // verus!

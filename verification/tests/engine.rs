use infochallenge::columns::ColumnSet;
use infochallenge::distance::distance_matrix;
use infochallenge::distance::pair_distance;
use infochallenge::distance::DistanceCell;
use infochallenge::dosage::decode_record;
use infochallenge::dosage::decode_raw_sum;
use infochallenge::dosage::Dosage;
use infochallenge::error::EngineError;
use infochallenge::ingest::ingest_region;
use infochallenge::merge::merge_by_rank;
use infochallenge::pairs::apply_pair_cells;
use infochallenge::pairs::distance_matrix_via_pairs;
use infochallenge::pairs::pair_combinations;

fn record_from_sums(sums: &[u8]) -> Vec<u8> {
    // 3 header elements, then one allele pair per sample; each pair's two
    // elements add up to the requested raw sum.
    let mut buf = vec![9u8, 9, 9];
    for &s in sums {
        let a = s / 2;
        let b = s - a;
        buf.push(a);
        buf.push(b);
    }
    buf
}

fn cell_value(cell: &DistanceCell) -> f64 {
    cell.numerator as f64 / cell.denominator as f64
}

#[test]
fn decode_table_fixed_points() {
    assert_eq!(decode_raw_sum(0), Dosage::Missing);
    assert_eq!(decode_raw_sum(4), Dosage::Hom0);
    assert_eq!(decode_raw_sum(6), Dosage::Het);
    assert_eq!(decode_raw_sum(8), Dosage::Hom1);
}

#[test]
fn decode_table_defaults_to_missing() {
    for raw in [1u16, 2, 3, 5, 7, 9, 10, 100, 255, 510, u16::MAX] {
        assert_eq!(decode_raw_sum(raw), Dosage::Missing);
    }
}

#[test]
fn decode_record_reads_pairs_after_header() {
    let buf = record_from_sums(&[4, 6, 8, 0, 5]);
    let d = decode_record(&buf, 5, 0).unwrap();
    assert_eq!(
        d,
        vec![Dosage::Hom0, Dosage::Het, Dosage::Hom1, Dosage::Missing, Dosage::Missing]
    );
}

#[test]
fn decode_record_ignores_trailing_bytes() {
    let mut buf = record_from_sums(&[6]);
    buf.push(77);
    buf.push(77);
    let d = decode_record(&buf, 1, 3).unwrap();
    assert_eq!(d, vec![Dosage::Het]);
}

#[test]
fn decode_record_short_buffer_is_malformed() {
    // 3 header elements + 2 samples needs 7 elements; give 6.
    let buf = vec![9u8, 9, 9, 2, 2, 2];
    let r = decode_record(&buf, 2, 17);
    assert_eq!(r, Err(EngineError::MalformedRecord { record_index: 17 }));
}

#[test]
fn decode_record_zero_samples() {
    let buf = vec![9u8, 9, 9];
    let d = decode_record(&buf, 0, 0).unwrap();
    assert!(d.is_empty());
}

#[test]
fn ingest_builds_aligned_columns() {
    let records = vec![
        record_from_sums(&[4, 6]),
        record_from_sums(&[8, 0]),
        record_from_sums(&[6, 6]),
    ];
    let cs = ingest_region(&records, 2, 16).unwrap();
    assert_eq!(cs.sample_count(), 2);
    assert_eq!(cs.record_count(), 3);
    assert_eq!(cs.column(0), &vec![Dosage::Hom0, Dosage::Hom1, Dosage::Het]);
    assert_eq!(cs.column(1), &vec![Dosage::Het, Dosage::Missing, Dosage::Het]);
}

#[test]
fn ingest_reports_first_short_record() {
    let records = vec![record_from_sums(&[4]), vec![9u8, 9, 9, 2], record_from_sums(&[6])];
    let r = ingest_region(&records, 1, 0);
    assert_eq!(r.err(), Some(EngineError::MalformedRecord { record_index: 1 }));
}

#[test]
fn ingest_is_idempotent() {
    // The archive is read-only: decoding the same raw records twice gives
    // identical columns and an identical matrix.
    let records = vec![
        record_from_sums(&[4, 6, 8]),
        record_from_sums(&[0, 6, 4]),
    ];
    let c1 = ingest_region(&records, 3, 4).unwrap();
    let c2 = ingest_region(&records, 3, 4).unwrap();
    assert_eq!(c1.sample_count(), c2.sample_count());
    assert_eq!(c1.record_count(), c2.record_count());
    for i in 0..3 {
        assert_eq!(c1.column(i), c2.column(i));
    }
    assert_eq!(distance_matrix(&c1), distance_matrix(&c2));
}

#[test]
fn capacity_hint_does_not_change_result() {
    let records = vec![record_from_sums(&[4, 8]), record_from_sums(&[6, 6])];
    let c1 = ingest_region(&records, 2, 0).unwrap();
    let c2 = ingest_region(&records, 2, 1_000_000).unwrap();
    for i in 0..2 {
        assert_eq!(c1.column(i), c2.column(i));
    }
}

fn contig_parts(order: &[usize]) -> Vec<(usize, ColumnSet)> {
    // Contig 0 carries dosage sums [4] and [6]; contig 1 carries [8].
    let chr1 = ingest_region(&vec![record_from_sums(&[4]), record_from_sums(&[6])], 1, 0)
        .unwrap();
    let chr2 = ingest_region(&vec![record_from_sums(&[8])], 1, 0).unwrap();
    let mut all = vec![Some((0usize, chr1)), Some((1usize, chr2))];
    let mut parts = Vec::new();
    for &k in order {
        parts.push(all[k].take().unwrap());
    }
    parts
}

#[test]
fn merge_keeps_contig_table_order() {
    // chr2 "finished first" and stands first in the part list, yet chr1's
    // values must precede chr2's in the merged column.
    let parts = contig_parts(&[1, 0]);
    let merged = merge_by_rank(&parts, 1);
    assert_eq!(merged.record_count(), 3);
    assert_eq!(merged.column(0), &vec![Dosage::Hom0, Dosage::Het, Dosage::Hom1]);
}

#[test]
fn merge_is_completion_order_independent() {
    let a = merge_by_rank(&contig_parts(&[0, 1]), 1);
    let b = merge_by_rank(&contig_parts(&[1, 0]), 1);
    assert_eq!(a.record_count(), b.record_count());
    assert_eq!(a.column(0), b.column(0));
}

#[test]
fn merge_of_no_parts_is_empty() {
    let parts: Vec<(usize, ColumnSet)> = Vec::new();
    let merged = merge_by_rank(&parts, 4);
    assert_eq!(merged.sample_count(), 4);
    assert_eq!(merged.record_count(), 0);
}

#[test]
fn pair_distance_counts_only_comparable_sites() {
    let a = vec![Dosage::Hom0, Dosage::Het, Dosage::Hom0, Dosage::Missing];
    let c = vec![Dosage::Hom0, Dosage::Het, Dosage::Hom1, Dosage::Missing];
    let cell = pair_distance(&a, &c);
    assert_eq!(cell, DistanceCell { numerator: 2, denominator: 6 });
}

#[test]
fn pair_distance_is_symmetric() {
    let a = vec![Dosage::Hom1, Dosage::Missing, Dosage::Het];
    let b = vec![Dosage::Hom0, Dosage::Het, Dosage::Hom1];
    assert_eq!(pair_distance(&a, &b), pair_distance(&b, &a));
}

#[test]
fn all_missing_pair_is_nan_not_numeric() {
    let a = vec![Dosage::Missing, Dosage::Missing];
    let b = vec![Dosage::Missing, Dosage::Missing];
    let cell = pair_distance(&a, &b);
    assert_eq!(cell.denominator, 0);
    assert!(cell_value(&cell).is_nan());
}

#[test]
fn end_to_end_three_samples() {
    // 4 records with allele-pair sums [4,4,4], [6,6,6], [4,6,8], [0,0,0]:
    // columns A = [0,1,0,Missing], B = [0,1,1,Missing], C = [0,1,2,Missing].
    let records = vec![
        record_from_sums(&[4, 4, 4]),
        record_from_sums(&[6, 6, 6]),
        record_from_sums(&[4, 6, 8]),
        record_from_sums(&[0, 0, 0]),
    ];
    let cs = ingest_region(&records, 3, 8).unwrap();
    assert_eq!(cs.column(0), &vec![Dosage::Hom0, Dosage::Het, Dosage::Hom0, Dosage::Missing]);
    assert_eq!(cs.column(1), &vec![Dosage::Hom0, Dosage::Het, Dosage::Het, Dosage::Missing]);
    assert_eq!(cs.column(2), &vec![Dosage::Hom0, Dosage::Het, Dosage::Hom1, Dosage::Missing]);

    let m = distance_matrix(&cs);
    // distance(A,B) = 1 / (2*3), distance(A,C) = 2 / (2*3), distance(B,C) = 1 / (2*3)
    assert_eq!(m[0][1], DistanceCell { numerator: 1, denominator: 6 });
    assert_eq!(m[0][2], DistanceCell { numerator: 2, denominator: 6 });
    assert_eq!(m[1][2], DistanceCell { numerator: 1, denominator: 6 });
    assert!((cell_value(&m[0][1]) - 0.1667).abs() < 1e-3);
    assert!((cell_value(&m[0][2]) - 0.3333).abs() < 1e-3);
    assert!((cell_value(&m[1][2]) - 0.1667).abs() < 1e-3);
}

#[test]
fn matrix_is_symmetric_with_untouched_diagonal() {
    let records = vec![
        record_from_sums(&[4, 8, 0, 6]),
        record_from_sums(&[6, 6, 4, 0]),
        record_from_sums(&[8, 0, 0, 4]),
    ];
    let cs = ingest_region(&records, 4, 0).unwrap();
    let m = distance_matrix(&cs);
    assert_eq!(m.len(), 4);
    for i in 0..4 {
        assert_eq!(m[i].len(), 4);
        assert_eq!(m[i][i], DistanceCell { numerator: 0, denominator: 1 });
        assert_eq!(cell_value(&m[i][i]), 0.0);
        for j in 0..4 {
            assert_eq!(m[i][j], m[j][i]);
        }
    }
}

#[test]
fn matrix_of_empty_columns_is_all_nan_off_diagonal() {
    let cs = ColumnSet::new(2);
    let m = distance_matrix(&cs);
    assert_eq!(m[0][1], DistanceCell { numerator: 0, denominator: 0 });
    assert!(cell_value(&m[0][1]).is_nan());
}

#[test]
fn pair_combinations_enumerates_lexicographically() {
    assert_eq!(
        pair_combinations(4),
        vec![(0, 1), (0, 2), (0, 3), (1, 2), (1, 3), (2, 3)]
    );
    assert!(pair_combinations(0).is_empty());
    assert!(pair_combinations(1).is_empty());
    assert_eq!(pair_combinations(2), vec![(0, 1)]);
}

#[test]
fn applied_cells_match_the_engine_matrix() {
    // The tuple-finalization path (parallel-friendly) and the engine's own
    // matrix agree, and the arrival order of the pair cells is irrelevant.
    let records = vec![
        record_from_sums(&[4, 4, 4]),
        record_from_sums(&[6, 6, 6]),
        record_from_sums(&[4, 6, 8]),
        record_from_sums(&[0, 0, 0]),
    ];
    let cs = ingest_region(&records, 3, 0).unwrap();
    let engine = distance_matrix(&cs);

    let pairs = pair_combinations(3);
    let mut entries: Vec<(usize, usize, DistanceCell)> = pairs
        .iter()
        .map(|&(i, j)| (i, j, pair_distance(cs.column(i), cs.column(j))))
        .collect();
    assert_eq!(apply_pair_cells(3, &entries), engine);

    // Completion order reversed: same matrix.
    entries.reverse();
    assert_eq!(apply_pair_cells(3, &entries), engine);

    // The fully composed pair-decomposition path agrees too.
    assert_eq!(distance_matrix_via_pairs(&cs), engine);
}

#[test]
fn push_record_grows_every_column() {
    let mut cs = ColumnSet::new(3);
    cs.push_record(&vec![Dosage::Hom0, Dosage::Het, Dosage::Hom1]);
    cs.push_record(&vec![Dosage::Missing, Dosage::Hom0, Dosage::Het]);
    assert_eq!(cs.record_count(), 2);
    for i in 0..3 {
        assert_eq!(cs.column(i).len(), 2);
    }
    assert_eq!(cs.column(2), &vec![Dosage::Hom1, Dosage::Het]);
}

use vstd::prelude::*;

verus! {

/// Failure kinds of the engine. A single failure anywhere aborts the whole
/// run: a silently incomplete column would misalign every pairwise distance.
#[derive(Clone, Copy, Debug, PartialEq, Eq, Structural)]
pub enum EngineError {
    /// A record's raw buffer is too short for the declared sample count.
    MalformedRecord { record_index: usize },
    /// A decoded record's dosage count disagrees with the fixed sample count.
    SampleCountMismatch { record_index: usize },
    /// An I/O or container-format failure surfaced from the genotype source.
    SourceReadError,
    /// An invalid or unresolvable contig or region during a region-restricted
    /// scan open.
    IndexQueryError,
}

} // verus!

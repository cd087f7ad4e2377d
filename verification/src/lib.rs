//! Genotype distance engine: decodes packed per-record genotype buffers into
//! ternary dosage columns, accumulates them per sample across an indexed
//! archive, and computes the all-pairs dissimilarity matrix as exact
//! rationals, with explicit handling of missing genotypes.

pub mod columns;
pub mod distance;
pub mod dosage;
pub mod error;
pub mod ingest;
pub mod merge;
pub mod pairs;

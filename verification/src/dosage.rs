use vstd::prelude::*;
use crate::error::EngineError;

verus! {

/// Count of the designated alternate allele in one diploid genotype, or
/// `Missing` when the genotype is uncalled (or falls in any raw bucket the
/// encoding does not anticipate).
#[derive(Clone, Copy, Debug, PartialEq, Eq, Structural)]
pub enum Dosage {
    Missing,
    /// Dosage 0: homozygous for the reference allele.
    Hom0,
    /// Dosage 1: heterozygous.
    Het,
    /// Dosage 2: homozygous for the alternate allele.
    Hom1,
}

impl Dosage {
    /// The ordinal level of a called dosage (0, 1 or 2); `Missing` is given
    /// level 0, but the distance engine never reads the level of a missing
    /// entry.
    pub open spec fn spec_level(self) -> int {
        match self {
            Dosage::Missing => 0,
            Dosage::Hom0 => 0,
            Dosage::Het => 1,
            Dosage::Hom1 => 2,
        }
    }

    /// Whether the genotype was called at all.
    pub open spec fn is_called(self) -> bool {
        self != Dosage::Missing
    }

    /// Executable form of `spec_level`.
    pub fn level(self) -> (l: u8)
        ensures
            l as int == self.spec_level(),
    {
        match self {
            Dosage::Missing => 0,
            Dosage::Hom0 => 0,
            Dosage::Het => 1,
            Dosage::Hom1 => 2,
        }
    }
}

/// The fixed decode table on the sum of the two raw allele bytes:
/// 4 maps to dosage 0, 6 to dosage 1, 8 to dosage 2, and every other sum
/// (0 for uncalled, and any unanticipated bucket) to `Missing`.
pub open spec fn dosage_of_raw(raw: int) -> Dosage {
    if raw == 4 {
        Dosage::Hom0
    } else if raw == 6 {
        Dosage::Het
    } else if raw == 8 {
        Dosage::Hom1
    } else {
        Dosage::Missing
    }
}

/// Decode one raw allele-pair sum into a dosage.
pub fn decode_raw_sum(raw: u16) -> (d: Dosage)
    ensures
        d == dosage_of_raw(raw as int),
{
    match raw {
        4u16 => Dosage::Hom0,
        6u16 => Dosage::Het,
        8u16 => Dosage::Hom1,
        _ => Dosage::Missing,
    }
}

/// The dosage sequence a well-formed raw buffer decodes to: the first 3
/// elements are non-genotype header fields, then one allele pair per sample
/// in sample order; each pair is decoded through `dosage_of_raw` on its sum.
pub open spec fn decoded_record(buf: Seq<u8>, num_samples: nat) -> Seq<Dosage> {
    Seq::new(num_samples, |k: int| dosage_of_raw(buf[3 + 2 * k] + buf[3 + 2 * k + 1]))
}

/// Decode one record's raw per-sample allele-pair buffer into `num_samples`
/// dosage values. Fails with `MalformedRecord` exactly when the buffer is
/// shorter than the 3 header elements plus one allele pair per sample.
pub fn decode_record(buf: &Vec<u8>, num_samples: usize, record_index: usize) -> (r: Result<
    Vec<Dosage>,
    EngineError,
>)
    ensures
        match r {
            Ok(d) => buf@.len() >= 2 * num_samples + 3 && d@ == decoded_record(
                buf@,
                num_samples as nat,
            ),
            Err(e) => buf@.len() < 2 * num_samples + 3 && e == (EngineError::MalformedRecord {
                record_index,
            }),
        },
{
    let blen = buf.len();
    if num_samples > (usize::MAX - 3) / 2 {
        // The buffer cannot possibly hold 2 * num_samples + 3 elements.
        assert(blen < 2 * num_samples + 3);
        return Err(EngineError::MalformedRecord { record_index });
    }
    let needed: usize = 2 * num_samples + 3;
    if blen < needed {
        return Err(EngineError::MalformedRecord { record_index });
    }
    let mut out: Vec<Dosage> = Vec::with_capacity(num_samples);
    let mut i: usize = 0;
    while i < num_samples
        invariant
            i <= num_samples,
            num_samples <= (usize::MAX - 3) / 2,
            buf@.len() >= 2 * num_samples + 3,
            out@.len() == i,
            forall|k: int| 0 <= k < i ==> out@[k] == decoded_record(buf@, num_samples as nat)[k],
        decreases num_samples - i,
    {
        let a = buf[3 + 2 * i];
        let b = buf[3 + 2 * i + 1];
        let raw: u16 = (a as u16) + (b as u16);
        out.push(decode_raw_sum(raw));
        i = i + 1;
    }
    assert(out@ =~= decoded_record(buf@, num_samples as nat));
    Ok(out)
}

} // verus!

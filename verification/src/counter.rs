//! The inspector that counts records.

use crate::inspector::VcfRecordInspector;
use vstd::prelude::*;

verus! {

/// The count that a 64-bit counter shows after `n` records: `n` itself as
/// long as it can be held, the largest value from there on. A text in memory
/// has fewer records than bytes, so a pass over one never reaches that
/// value.
pub open spec fn capped(n: nat) -> u64 {
    if n <= u64::MAX {
        n as u64
    } else {
        u64::MAX
    }
}

/// Counts the records it inspects.
///
/// The count is held in 64 bits and goes up by one with every record.
/// Should it ever reach `u64::MAX`, which no text in memory can bring about,
/// it stays there.
pub struct RecordCounter {
    n_records: u64,
    seen: Ghost<Seq<vcf::VCFRecord>>,
}

impl RecordCounter {
    #[verifier::type_invariant]
    spec fn count_matches(self) -> bool {
        self.n_records == capped(self.seen@.len())
    }

    /// A counter that has inspected nothing.
    pub fn new() -> (counter: RecordCounter)
        ensures
            counter.observed() == Seq::<vcf::VCFRecord>::empty(),
    {
        RecordCounter { n_records: 0, seen: Ghost(Seq::empty()) }
    }
}

impl VcfRecordInspector<u64> for RecordCounter {
    closed spec fn observed(&self) -> Seq<vcf::VCFRecord> {
        self.seen@
    }

    open spec fn summary(records: Seq<vcf::VCFRecord>) -> u64 {
        capped(records.len())
    }

    fn reset(&mut self) {
        *self = RecordCounter { n_records: 0, seen: Ghost(Seq::empty()) };
    }

    fn inspect_record(&mut self, record: &vcf::VCFRecord) {
        proof {
            use_type_invariant(&*self);
        }
        let n_records = if self.n_records < u64::MAX {
            self.n_records + 1
        } else {
            self.n_records
        };
        *self = RecordCounter { n_records, seen: Ghost(self.seen@.push(*record)) };
    }

    fn get_result(&self) -> (r: u64) {
        proof {
            use_type_invariant(self);
        }
        self.n_records
    }
}

} // verus!

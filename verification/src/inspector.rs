//! The contract of a single-pass analysis over a stream of records.

use vstd::prelude::*;

verus! {

/// A stateful observer of records that accumulates a result of type `R`.
///
/// The state of an inspector is described by the records it has inspected
/// since it was made or last reset, in order. Its result is a function of
/// those records and of nothing else: neither of what it saw before a reset
/// nor of how often the result was asked for.
pub trait VcfRecordInspector<R> {
    /// The records inspected since construction or the last reset, oldest
    /// first.
    spec fn observed(&self) -> Seq<vcf::VCFRecord>;

    /// The result that this kind of inspector gives for `records`.
    spec fn summary(records: Seq<vcf::VCFRecord>) -> R;

    /// Forgets every record inspected so far.
    fn reset(&mut self)
        ensures
            final(self).observed() == Seq::<vcf::VCFRecord>::empty(),
    ;

    /// Takes note of `record`. The record is only read during the call.
    fn inspect_record(&mut self, record: &vcf::VCFRecord)
        ensures
            final(self).observed() == old(self).observed().push(*record),
    ;

    /// The result for the records inspected so far.
    fn get_result(&self) -> (r: R)
        ensures
            r == Self::summary(self.observed()),
    ;
}

/// An inspector that was reset gives the result of one that has inspected
/// nothing, whatever it had inspected before.
pub proof fn law_reset_gives_fresh_result<R, I: VcfRecordInspector<R>>(reset: I, fresh: I)
    requires
        reset.observed() == Seq::<vcf::VCFRecord>::empty(),
        fresh.observed() == Seq::<vcf::VCFRecord>::empty(),
    ensures
        I::summary(reset.observed()) == I::summary(fresh.observed()),
        I::summary(reset.observed()) == I::summary(Seq::<vcf::VCFRecord>::empty()),
{
}

/// Asking an inspector twice for its result, with no record inspected and no
/// reset in between, gives the same result twice.
pub proof fn law_result_is_stable<R, I: VcfRecordInspector<R>>(inspector: I, first: R, second: R)
    requires
        first == I::summary(inspector.observed()),
        second == I::summary(inspector.observed()),
    ensures
        first == second,
{
}

/// Two inspectors of one kind that have inspected the same records give the
/// same result.
pub proof fn law_same_records_same_result<R, I: VcfRecordInspector<R>>(a: I, b: I)
    requires
        a.observed() == b.observed(),
    ensures
        I::summary(a.observed()) == I::summary(b.observed()),
{
}

} // verus!

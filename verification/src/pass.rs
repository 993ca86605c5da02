//! One pass over a stream: every record goes to the inspector, in order,
//! until the text ends or a line fails to read.

use crate::counter::{capped, RecordCounter};
use crate::error::Error;
use crate::inspector::VcfRecordInspector;
use crate::source::{gunzip, header_samples, shows};
use crate::stream::{decompress, get_vcf_reader, opens, readable, VcfStream};
use crate::text::{after_first_line, first_line, header_len, lemma_first_line_len_bounds};
use vstd::prelude::*;

verus! {

/// The number of records at the start of `rest`: the lines that can be read
/// before the text ends or a line fails.
pub open spec fn records_ahead(rest: Seq<u8>) -> nat
    decreases rest.len(),
{
    if rest.len() > 0 && readable(first_line(rest)) {
        proof {
            lemma_first_line_len_bounds(rest);
        }
        1 + records_ahead(after_first_line(rest))
    } else {
        0
    }
}

/// What is left of `rest` once the records at its start are read: nothing
/// where every line is a record, else the text from the first failing line on.
pub open spec fn after_pass(rest: Seq<u8>) -> Seq<u8>
    decreases rest.len(),
{
    if rest.len() > 0 && readable(first_line(rest)) {
        proof {
            lemma_first_line_len_bounds(rest);
        }
        after_pass(after_first_line(rest))
    } else {
        rest
    }
}

/// What is left of `rest` behind its first `n` lines.
pub open spec fn after_lines(rest: Seq<u8>, n: nat) -> Seq<u8>
    decreases n,
{
    if n == 0 {
        rest
    } else {
        after_first_line(after_lines(rest, (n - 1) as nat))
    }
}

/// The line of `rest` at index `i`, the first line standing at index 0.
pub open spec fn line_at(rest: Seq<u8>, i: nat) -> Seq<u8> {
    first_line(after_lines(rest, i))
}

/// Whether every line of `rest` is a record.
pub open spec fn reads_to_end(rest: Seq<u8>) -> bool {
    after_pass(rest).len() == 0
}

/// How a pass over a stream ended.
#[derive(Debug, Clone, Copy, PartialEq, Eq, Structural)]
pub enum PassEnd {
    /// Every line was read.
    EndOfStream,
    /// A line failed to read. The records before it were inspected.
    ReadFailure,
}

/// What a pass found in a stream.
#[derive(Debug, Clone, Copy, PartialEq, Eq, Structural)]
pub struct Tally {
    /// The number of records read.
    pub n_records: u64,
    /// How the pass ended.
    pub end: PassEnd,
}

/// What a VCF text holds.
#[derive(Debug, Clone, Copy, PartialEq, Eq, Structural)]
pub struct Survey {
    /// The number of samples that the header declares.
    pub n_samples: usize,
    /// The number of records read.
    pub n_records: u64,
    /// How the pass over the records ended.
    pub end: PassEnd,
}

/// How a pass over `rest` ends.
pub open spec fn pass_end(rest: Seq<u8>) -> PassEnd {
    if reads_to_end(rest) {
        PassEnd::EndOfStream
    } else {
        PassEnd::ReadFailure
    }
}

/// What a pass with a fresh record counter finds in `rest`.
pub open spec fn tally_of(rest: Seq<u8>) -> Tally {
    Tally { n_records: capped(records_ahead(rest)), end: pass_end(rest) }
}

/// What a survey of `text` gives: the samples of its header and the tally of
/// the records behind it, or the error of a header that cannot be opened.
pub open spec fn survey_of(text: Seq<u8>) -> Result<Survey, Error> {
    if opens(text) {
        let tally = tally_of(text.skip(header_len(text) as int));
        Ok(
            Survey {
                n_samples: header_samples(text).unwrap().len() as usize,
                n_records: tally.n_records,
                end: tally.end,
            },
        )
    } else {
        Err(Error::Header)
    }
}

/// Reads `stream` record by record and hands each record to `inspector`,
/// until the text ends or a line fails to read.
///
/// The inspector is not reset: the records of this pass come behind those it
/// had observed before. It observes one record for each line read, in the
/// order of the lines: the record at index `i` of this pass holds the
/// chromosome and the position of the line at index `i`. The stream is left
/// at its end, or on the line that failed.
pub fn inspect_all<R, I: VcfRecordInspector<R>>(
    stream: &mut VcfStream,
    inspector: &mut I,
) -> (end: PassEnd)
    requires
        old(stream).wf(),
    ensures
        final(stream).wf(),
        final(stream).remaining() == after_pass(old(stream).remaining()),
        final(stream).samples() == old(stream).samples(),
        end == pass_end(old(stream).remaining()),
        final(inspector).observed().len() == old(inspector).observed().len() + records_ahead(
            old(stream).remaining(),
        ),
        final(inspector).observed().take(old(inspector).observed().len() as int) == old(
            inspector
        ).observed(),
        forall|i: nat|
            i < records_ahead(old(stream).remaining()) ==> shows(
                final(inspector).observed()[old(inspector).observed().len() as int + i],
                #[trigger] line_at(old(stream).remaining(), i),
            ),
{
    let mut record = stream.empty_record();
    let ghost start = stream.remaining();
    let ghost before = inspector.observed();
    let ghost fed = Seq::<vcf::VCFRecord>::empty();
    proof {
        assert(before + fed =~= before);
    }
    loop
        invariant
            stream.wf(),
            stream.samples() == old(stream).samples(),
            start == old(stream).remaining(),
            before == old(inspector).observed(),
            after_pass(stream.remaining()) == after_pass(start),
            records_ahead(start) == fed.len() + records_ahead(stream.remaining()),
            inspector.observed() == before + fed,
            stream.remaining() == after_lines(start, fed.len()),
            forall|i: nat| i < fed.len() ==> shows(fed[i as int], #[trigger] line_at(start, i)),
        decreases stream.remaining().len(),
    {
        proof {
            lemma_first_line_len_bounds(stream.remaining());
        }
        match stream.next_record(&mut record) {
            Ok(got) => {
                if got {
                    inspector.inspect_record(&record);
                    proof {
                        assert((before + fed).push(record) =~= before + fed.push(record));
                        fed = fed.push(record);
                    }
                } else {
                    proof {
                        lemma_suffix_split(before, fed);
                    }
                    return PassEnd::EndOfStream;
                }
            },
            Err(_) => {
                proof {
                    lemma_suffix_split(before, fed);
                }
                return PassEnd::ReadFailure;
            },
        }
    }
}

/// Reads `stream` record by record and hands each record first to `first`
/// and then to `second`, until the text ends or a line fails to read.
///
/// Neither inspector is reset, and neither sees anything of the other. Both
/// observe the same records in the same order, one for each line read.
pub fn inspect_all_pair<RA, RB, A: VcfRecordInspector<RA>, B: VcfRecordInspector<RB>>(
    stream: &mut VcfStream,
    first: &mut A,
    second: &mut B,
) -> (end: PassEnd)
    requires
        old(stream).wf(),
    ensures
        final(stream).wf(),
        final(stream).remaining() == after_pass(old(stream).remaining()),
        final(stream).samples() == old(stream).samples(),
        end == pass_end(old(stream).remaining()),
        final(first).observed().len() == old(first).observed().len() + records_ahead(
            old(stream).remaining(),
        ),
        final(second).observed().len() == old(second).observed().len() + records_ahead(
            old(stream).remaining(),
        ),
        final(first).observed().take(old(first).observed().len() as int) == old(first).observed(),
        final(second).observed().take(old(second).observed().len() as int) == old(
            second
        ).observed(),
        final(first).observed().skip(old(first).observed().len() as int) == final(
            second
        ).observed().skip(old(second).observed().len() as int),
        forall|i: nat|
            i < records_ahead(old(stream).remaining()) ==> shows(
                final(first).observed()[old(first).observed().len() as int + i],
                #[trigger] line_at(old(stream).remaining(), i),
            ),
{
    let mut record = stream.empty_record();
    let ghost start = stream.remaining();
    let ghost before_first = first.observed();
    let ghost before_second = second.observed();
    let ghost fed = Seq::<vcf::VCFRecord>::empty();
    proof {
        assert(before_first + fed =~= before_first);
        assert(before_second + fed =~= before_second);
    }
    loop
        invariant
            stream.wf(),
            stream.samples() == old(stream).samples(),
            start == old(stream).remaining(),
            before_first == old(first).observed(),
            before_second == old(second).observed(),
            after_pass(stream.remaining()) == after_pass(start),
            records_ahead(start) == fed.len() + records_ahead(stream.remaining()),
            first.observed() == before_first + fed,
            second.observed() == before_second + fed,
            stream.remaining() == after_lines(start, fed.len()),
            forall|i: nat| i < fed.len() ==> shows(fed[i as int], #[trigger] line_at(start, i)),
        decreases stream.remaining().len(),
    {
        proof {
            lemma_first_line_len_bounds(stream.remaining());
        }
        match stream.next_record(&mut record) {
            Ok(got) => {
                if got {
                    first.inspect_record(&record);
                    second.inspect_record(&record);
                    proof {
                        assert((before_first + fed).push(record) =~= before_first + fed.push(
                            record,
                        ));
                        assert((before_second + fed).push(record) =~= before_second + fed.push(
                            record,
                        ));
                        fed = fed.push(record);
                    }
                } else {
                    proof {
                        lemma_suffix_split(before_first, fed);
                        lemma_suffix_split(before_second, fed);
                    }
                    return PassEnd::EndOfStream;
                }
            },
            Err(_) => {
                proof {
                    lemma_suffix_split(before_first, fed);
                    lemma_suffix_split(before_second, fed);
                }
                return PassEnd::ReadFailure;
            },
        }
    }
}

/// A run of records with more behind it splits again into the two.
proof fn lemma_suffix_split(before: Seq<vcf::VCFRecord>, fed: Seq<vcf::VCFRecord>)
    ensures
        (before + fed).take(before.len() as int) == before,
        (before + fed).skip(before.len() as int) == fed,
        (before + fed).len() == before.len() + fed.len(),
{
    assert((before + fed).take(before.len() as int) =~= before);
    assert((before + fed).skip(before.len() as int) =~= fed);
}

/// A text has no more records than bytes.
pub proof fn lemma_records_ahead_bound(rest: Seq<u8>)
    ensures
        records_ahead(rest) <= rest.len(),
    decreases rest.len(),
{
    if rest.len() > 0 && readable(first_line(rest)) {
        lemma_first_line_len_bounds(rest);
        lemma_records_ahead_bound(after_first_line(rest));
    }
}

/// Counts the records of `stream` with a fresh record counter.
pub fn count_records(stream: &mut VcfStream) -> (tally: Tally)
    requires
        old(stream).wf(),
    ensures
        final(stream).wf(),
        final(stream).remaining() == after_pass(old(stream).remaining()),
        final(stream).samples() == old(stream).samples(),
        tally == tally_of(old(stream).remaining()),
        tally.n_records == records_ahead(old(stream).remaining()),
{
    proof {
        lemma_records_ahead_bound(stream.remaining());
        stream.lemma_remaining_bound();
    }
    let mut counter = RecordCounter::new();
    let end = inspect_all(stream, &mut counter);
    Tally { n_records: counter.get_result(), end }
}

/// Parses the header of `text`, counts its samples and counts the records
/// behind it.
pub fn survey_text(text: &[u8]) -> (r: Result<Survey, Error>)
    ensures
        r == survey_of(text@),
        r is Ok ==> r.unwrap().n_samples == header_samples(text@).unwrap().len(),
{
    match get_vcf_reader(text) {
        Ok(mut stream) => {
            let n_samples = stream.sample_count();
            let tally = count_records(&mut stream);
            Ok(Survey { n_samples, n_records: tally.n_records, end: tally.end })
        },
        Err(_) => Err(Error::Header),
    }
}

/// Decompresses `bytes`, a gzip stream, and surveys the VCF text it holds.
pub fn survey(bytes: &[u8]) -> (r: Result<Survey, Error>)
    ensures
        r == match gunzip(bytes@) {
            Some(text) => survey_of(text),
            None => Err(Error::Gzip),
        },
        r is Ok ==> r.unwrap().n_samples == header_samples(gunzip(bytes@).unwrap()).unwrap().len(),
{
    match decompress(bytes) {
        Ok(text) => survey_text(text.as_slice()),
        Err(_) => Err(Error::Gzip),
    }
}

/// A pass over a text of which every line is a record counts every one of
/// them. The text is one that memory can hold.
pub proof fn law_full_pass_counts_all(rest: Seq<u8>)
    requires
        reads_to_end(rest),
        rest.len() <= usize::MAX,
    ensures
        tally_of(rest).n_records == records_ahead(rest),
        tally_of(rest).end == PassEnd::EndOfStream,
{
    lemma_records_ahead_bound(rest);
}

} // verus!

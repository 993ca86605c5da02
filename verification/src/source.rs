//! The decompressor and the VCF parser, as far as this library relies on them.
//!
//! Nothing in this file is proved. Each item states what the library takes
//! on trust from the crates `flate2` and `vcf`; everything else in the
//! library is proved from these statements.

use crate::header::header_counts_fit;
use crate::text::{
    after_first_line, field_len, first_line, header_len, leading_number, position_fits,
};
use std::io::Read;
use vstd::prelude::*;

verus! {

/// `vcf::VCFRecord`: one parsed variant. The library hands records on and
/// never looks inside one.
#[verifier::external_type_specification]
#[verifier::external_body]
pub struct ExVCFRecord(vcf::VCFRecord);

/// `vcf::VCFError`: the failure of a parse. The library only tells it from
/// success.
#[verifier::external_type_specification]
#[verifier::external_body]
pub struct ExVCFError(vcf::VCFError);

/// `std::io::Error`: the failure of a read. The library only tells it from
/// success.
#[verifier::external_type_specification]
#[verifier::external_body]
pub struct ExIoError(std::io::Error);

/// A `vcf::VCFReader` that reads from a text held in memory.
///
/// The reader is generic over `std::io::BufRead`, which the verifier does not
/// know, so it is kept behind this struct and reached only through the
/// functions below.
#[verifier::external_body]
pub struct TextReader<'a> {
    inner: vcf::VCFReader<&'a [u8]>,
}

/// What `flate2::read::MultiGzDecoder` makes of `bytes` when it is read to
/// its end: the decompressed text, or `None` where decoding fails.
pub uninterp spec fn gunzip(bytes: Seq<u8>) -> Option<Seq<u8>>;

/// What `vcf::VCFReader::new` makes of the header of `text`: the identifiers
/// of the samples it declares, in their order, or `None` where the header
/// does not parse.
pub uninterp spec fn header_samples(text: Seq<u8>) -> Option<Seq<Seq<u8>>>;

/// Whether the record parser of `vcf::VCFReader::next_record` accepts `line`.
pub uninterp spec fn record_parses(line: Seq<u8>) -> bool;

/// The part of its text that a reader has not read yet.
pub uninterp spec fn unread(reader: TextReader) -> Seq<u8>;

/// The identifiers of the samples in the header that a reader holds, in
/// their order.
pub uninterp spec fn reader_samples(reader: TextReader) -> Seq<Seq<u8>>;

/// The number of samples in the header that a record is bound to. A record
/// carries a header of its own, by which it finds the genotype of a sample.
pub uninterp spec fn record_sample_total(record: vcf::VCFRecord) -> nat;

/// The chromosome that a record holds: its field `chromosome`.
pub uninterp spec fn record_chromosome(record: vcf::VCFRecord) -> Seq<u8>;

/// The position that a record holds: its field `position`.
pub uninterp spec fn record_position(record: vcf::VCFRecord) -> nat;

/// The chromosome that a record line gives: its first field.
pub open spec fn chromosome_of(line: Seq<u8>) -> Seq<u8> {
    line.take(field_len(line) as int)
}

/// The position that a record line gives: the number behind its first field
/// and the tab that ends it.
pub open spec fn position_of(line: Seq<u8>) -> nat {
    leading_number(line.skip(field_len(line) as int + 1))
}

/// Whether `record` holds the chromosome and the position that `line` gives.
pub open spec fn shows(record: vcf::VCFRecord, line: Seq<u8>) -> bool {
    record_chromosome(record) == chromosome_of(line) && record_position(record) == position_of(
        line,
    )
}

/// Calls `flate2::read::MultiGzDecoder::new` on `bytes` and reads the decoder
/// to its end with `std::io::Read::read_to_end`, which appends to `text`.
///
/// Trusted: the outcome depends on `bytes` alone. On success the text that
/// `gunzip` names was appended and its length is returned; the call fails
/// exactly where `gunzip` names no text, and nothing is stated of `text` then.
#[verifier::external_body]
pub(crate) fn inflate(bytes: &[u8], text: &mut Vec<u8>) -> (r: Result<usize, std::io::Error>)
    ensures
        match r {
            Ok(n) => gunzip(bytes@) is Some && final(text)@ == old(text)@ + gunzip(bytes@).unwrap()
                && n == gunzip(bytes@).unwrap().len(),
            Err(_) => gunzip(bytes@) is None,
        },
{
    flate2::read::MultiGzDecoder::new(bytes).read_to_end(text)
}

/// Calls `vcf::VCFReader::new` on `text`.
///
/// Trusted: the call parses the lines of the header, which are the leading
/// lines that start with `##` and the line behind them if it starts with
/// `#`. Where it has read one line further to find the end of the header,
/// the reader keeps that line and parses it as its first record. So a reader
/// that is returned has all of `text` behind the header left to read. The
/// call succeeds exactly where `header_samples` names the samples, which
/// are then the reader's. In a line `##INFO=<..>` or `##FORMAT=<..>` whose
/// list of entries is closed by `>` and has a key `ID`, the header parser
/// converts the value of the first key `Number` to an `i32` if it is made of
/// digits alone, and panics where that fails: `requires` keeps out the texts
/// with such a line.
#[verifier::external_body]
pub(crate) fn read_header<'a>(text: &'a [u8]) -> (r: Result<TextReader<'a>, vcf::VCFError>)
    requires
        header_counts_fit(text@),
    ensures
        match r {
            Ok(reader) => header_samples(text@) == Some(reader_samples(reader)) && unread(reader)
                == text@.skip(header_len(text@) as int),
            Err(_) => header_samples(text@) is None,
        },
{
    match vcf::VCFReader::new(text) {
        Ok(inner) => Ok(TextReader { inner }),
        Err(e) => Err(e),
    }
}

/// Calls `vcf::VCFReader::header` and `vcf::VCFHeader::samples`, and takes
/// the length of the list.
///
/// Trusted: the length is the number of the reader's samples.
#[verifier::external_body]
pub(crate) fn sample_count(reader: &TextReader) -> (n: usize)
    ensures
        n == reader_samples(*reader).len(),
{
    reader.inner.header().samples().len()
}

/// Calls `vcf::VCFReader::header` and `vcf::VCFHeader::samples`, and copies
/// the list.
///
/// Trusted: the list holds the identifiers of the reader's samples, in their
/// order.
#[verifier::external_body]
pub(crate) fn sample_names(reader: &TextReader) -> (names: Vec<Vec<u8>>)
    ensures
        names.deep_view() == reader_samples(*reader),
{
    reader.inner.header().samples().to_vec()
}

/// Calls `vcf::VCFReader::empty_record`.
///
/// Trusted: the call makes the record with a copy of the reader's header, so
/// the record is bound to as many samples as the reader's header declares.
/// It leaves the fields of the record empty: the chromosome has no bytes
/// and the position is 0. Nothing is stated of the other fields.
#[verifier::external_body]
pub(crate) fn blank_record(reader: &TextReader) -> (record: vcf::VCFRecord)
    ensures
        record_sample_total(record) == reader_samples(*reader).len(),
        record_chromosome(record) == Seq::<u8>::empty(),
        record_position(record) == 0,
{
    reader.inner.empty_record()
}

/// Calls `vcf::VCFReader::next_record`.
///
/// Trusted: the call takes the next line off the unread text and parses it
/// into `record`. It returns `Ok(false)` where no text is left, `Ok(true)`
/// where the line parses and an error where it does not; reading from memory
/// cannot fail otherwise. The header stays as it is. Where the line parses,
/// `record` holds its first field as the chromosome and the number behind
/// that field as the position; nothing is stated of the other fields, nor of
/// `record` where the call returns anything else. The record parser converts
/// the digits of the position to a `u64` and panics where that fails:
/// `requires` keeps such lines out.
#[verifier::external_body]
pub(crate) fn read_record(reader: &mut TextReader, record: &mut vcf::VCFRecord) -> (r: Result<
    bool,
    vcf::VCFError,
>)
    requires
        position_fits(first_line(unread(*old(reader)))),
    ensures
        unread(*final(reader)) == after_first_line(unread(*old(reader))),
        reader_samples(*final(reader)) == reader_samples(*old(reader)),
        match r {
            Ok(got) => got == (unread(*old(reader)).len() > 0) && (got ==> record_parses(
                first_line(unread(*old(reader))),
            ) && shows(*final(record), first_line(unread(*old(reader))))),
            Err(_) => unread(*old(reader)).len() > 0 && !record_parses(
                first_line(unread(*old(reader))),
            ),
        },
{
    reader.inner.next_record(record)
}

} // verus!

//! A cursor over the records of a VCF text.

use crate::error::Error;
use crate::source::{
    blank_record, gunzip, header_samples, inflate, read_header, read_record, record_chromosome,
    record_parses, record_position, record_sample_total, reader_samples, sample_count,
    sample_names, shows, unread, TextReader,
};
use crate::header::{header_counts_fit, header_counts_in_range};
use crate::text::{
    after_first_line, first_line, header_len, lemma_first_line_len_bounds, line_len,
    position_fits, position_in_range,
};
use vstd::prelude::*;
use vstd::slice::slice_subrange;

verus! {

/// Whether `line` can be read as a record: its position can be held in 64
/// bits and the record parser accepts it.
pub open spec fn readable(line: Seq<u8>) -> bool {
    position_fits(line) && record_parses(line)
}

/// What a read returns on a stream with `rest` left to read: `Ok(true)`
/// for a record, `Ok(false)` at the end of the text, an error where the next
/// line is no record.
pub open spec fn read_outcome(rest: Seq<u8>) -> Result<bool, Error> {
    if rest.len() == 0 {
        Ok(false)
    } else if readable(first_line(rest)) {
        Ok(true)
    } else {
        Err(Error::Record)
    }
}

/// What is left to read after a read on a stream with `rest` left: a record
/// is taken off, anything else stays.
pub open spec fn after_read(rest: Seq<u8>) -> Seq<u8> {
    if rest.len() > 0 && readable(first_line(rest)) {
        after_first_line(rest)
    } else {
        rest
    }
}

/// Whether `text` can be opened: no line of its header declares a count
/// beyond 32 bits, which the header parser cannot cope with, and the header
/// parser accepts the header.
///
/// The parser stops at the first line that it does not accept, so a count
/// beyond 32 bits may stand behind such a line where the parser never
/// reaches it. That makes no difference: such a header is not accepted
/// either way.
pub open spec fn opens(text: Seq<u8>) -> bool {
    header_counts_fit(text) && header_samples(text) is Some
}

/// A VCF text in memory, its header parsed, with a cursor on its records.
pub struct VcfStream<'a> {
    text: &'a [u8],
    pos: usize,
    reader: TextReader<'a>,
    failed: bool,
}

/// Decompresses a gzip stream, of one member or of several, into the text it
/// holds.
pub fn decompress(bytes: &[u8]) -> (r: Result<Vec<u8>, Error>)
    ensures
        match r {
            Ok(text) => gunzip(bytes@) == Some(text@),
            Err(e) => e == Error::Gzip && gunzip(bytes@) is None,
        },
{
    let mut text = Vec::new();
    match inflate(bytes, &mut text) {
        Ok(_) => {
            proof {
                assert(Seq::<u8>::empty() + gunzip(bytes@).unwrap() =~= gunzip(bytes@).unwrap());
            }
            Ok(text)
        },
        Err(_) => Err(Error::Gzip),
    }
}

/// Parses the header of `text` and returns a stream that stands on the first
/// line behind it.
pub fn get_vcf_reader<'a>(text: &'a [u8]) -> (r: Result<VcfStream<'a>, Error>)
    ensures
        match r {
            Ok(stream) => stream.wf() && opens(text@) && header_samples(text@) == Some(
                stream.samples(),
            ) && stream.remaining() == text@.skip(header_len(text@) as int),
            Err(e) => e == Error::Header && !opens(text@),
        },
{
    if !header_counts_in_range(text) {
        return Err(Error::Header);
    }
    match read_header(text) {
        Ok(reader) => {
            let pos = crate::text::header_length(text);
            proof {
                crate::text::lemma_header_len_bound(text@);
            }
            Ok(VcfStream { text, pos, reader, failed: false })
        },
        Err(_) => Err(Error::Header),
    }
}

impl<'a> VcfStream<'a> {
    /// Whether the cursor and the parser agree on what is left to read. Every
    /// stream that this library hands out is well formed and stays so.
    pub closed spec fn wf(&self) -> bool {
        &&& self.pos <= self.text@.len()
        &&& !self.failed ==> unread(self.reader) == self.text@.skip(self.pos as int)
        &&& self.failed ==> read_outcome(self.text@.skip(self.pos as int)) is Err
    }

    /// The text that is left to read.
    pub closed spec fn remaining(&self) -> Seq<u8> {
        self.text@.skip(self.pos as int)
    }

    /// A stream holds no more text than memory can.
    pub proof fn lemma_remaining_bound(&self)
        requires
            self.wf(),
        ensures
            self.remaining().len() <= usize::MAX,
    {
        assert(self.text@.len() == self.text.len());
    }

    /// The identifiers of the samples that the header declares, in their
    /// order.
    pub closed spec fn samples(&self) -> Seq<Seq<u8>> {
        reader_samples(self.reader)
    }

    /// The number of samples that the header declares.
    pub fn sample_count(&self) -> (n: usize)
        ensures
            n == self.samples().len(),
    {
        sample_count(&self.reader)
    }

    /// The identifiers of the samples that the header declares, in their
    /// order.
    pub fn sample_names(&self) -> (names: Vec<Vec<u8>>)
        ensures
            names.deep_view() == self.samples(),
    {
        sample_names(&self.reader)
    }

    /// A record to read into, empty and bound to this stream's header: it
    /// knows of as many samples as the header declares.
    pub fn empty_record(&self) -> (record: vcf::VCFRecord)
        ensures
            record_sample_total(record) == self.samples().len(),
            record_chromosome(record) == Seq::<u8>::empty(),
            record_position(record) == 0,
    {
        blank_record(&self.reader)
    }

    /// Reads the next record into `record`.
    ///
    /// Returns `Ok(true)` where a record was read and `Ok(false)` at the end of
    /// the text. Where the next line is no record the stream stays on it, so
    /// that every later read fails as well. A line whose position cannot be
    /// held in 64 bits is no record. After a record was read, `record` holds
    /// the chromosome and the position of the line read; what it holds after
    /// any other read is not defined.
    pub fn next_record(&mut self, record: &mut vcf::VCFRecord) -> (r: Result<bool, Error>)
        requires
            old(self).wf(),
        ensures
            final(self).wf(),
            r == read_outcome(old(self).remaining()),
            final(self).remaining() == after_read(old(self).remaining()),
            final(self).samples() == old(self).samples(),
            r == Ok::<bool, Error>(true) ==> shows(*final(record), first_line(old(self).remaining())),
    {
        if self.failed {
            return Err(Error::Record);
        }
        let rest = slice_subrange(self.text, self.pos, self.text.len());
        let n = line_len(rest);
        proof {
            lemma_first_line_len_bounds(rest@);
            assert(rest@.skip(n as int) =~= self.text@.skip(self.pos + n));
        }
        if !position_in_range(slice_subrange(rest, 0, n)) {
            self.failed = true;
            return Err(Error::Record);
        }
        match read_record(&mut self.reader, record) {
            Ok(got) => {
                self.pos = self.pos + n;
                Ok(got)
            },
            Err(_) => {
                self.failed = true;
                Err(Error::Record)
            },
        }
    }
}

} // verus!

//! What can go wrong between the compressed bytes and the last record.

use vstd::prelude::*;

verus! {

/// Why a VCF text could not be opened or read on.
#[derive(Debug, Clone, Copy, PartialEq, Eq, Structural)]
pub enum Error {
    /// The bytes are not a well-formed gzip stream.
    Gzip,
    /// The text does not start with a header that can be parsed.
    Header,
    /// The next line of the text is not a record that can be parsed.
    Record,
}

} // verus!

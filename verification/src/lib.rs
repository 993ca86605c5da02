//! Reads a gzip-compressed VCF text record by record and lets inspectors
//! accumulate results over the records.

pub mod counter;
pub mod error;
pub mod header;
pub mod inspector;
pub mod pass;
pub mod source;
pub mod stream;
pub mod text;

pub use counter::RecordCounter;
pub use error::Error;
pub use inspector::VcfRecordInspector;
pub use pass::{
    count_records, inspect_all, inspect_all_pair, survey, survey_text, PassEnd, Survey, Tally,
};
pub use stream::{decompress, get_vcf_reader, VcfStream};

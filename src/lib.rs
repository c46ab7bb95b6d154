//! Decoding of the compact, shorthand-laden tabular encoding of a bilingual
//! species list into fully resolved records, and their rendering as a
//! streamable JSON array.
//!
//! Rows are resolved one at a time against a small state: a page number that
//! carries forward, and per column a reference that a marked word establishes
//! and that pointers repeat.
pub mod dumps;
pub mod emit;
pub mod laws;
pub mod text;
pub mod transcode;

pub use dumps::{latest_dump, mirror_dumps, DumpEntry};
pub use emit::{render_record, transcode, Transcoder};
pub use transcode::{
    resolve_all, resolve_column, resolve_page, split_synonym, validate_header, Column, RawRow,
    Reference, ResolvedRecord, TranscodeError, TranscoderState,
};

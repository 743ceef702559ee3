//! Reads a byte stream and skips the encoding byte-order mark (BOM) found at its start.
//!
//! The decorator [`SkipEncodingBom`] pulls the leading bytes of a reader into a small
//! buffer until it can tell which of the candidate marks, if any, begins the stream,
//! then hands out everything after the mark, in order and without loss.

use vstd::prelude::*;

mod bom_type;
pub use bom_type::{
    BomBytesTest, BomType, BomsBytesTest, catalog, could_start, detect, first_match_from,
    lemma_catalog_rank, lemma_decided_when_full, lemma_detect_marker, lemma_detect_stable,
    lemma_first_match_is_candidate, lemma_marker_length, lemma_nested_marks, lemma_no_candidates,
    lemma_rank, marker, rank, single_test, starts_with, undecided, verdict_marker,
};

mod byte_push_buffer;
pub use byte_push_buffer::{BomBytesArray, BomBytesPushBuffer, MAX_BOM_LENGTH};

mod bom_state;
pub use bom_state::{BomState, TryReadBomResult};

mod skip_encoding_bom;
pub use skip_encoding_bom::{SkipEncodingBom, well_formed_detection};

mod utf8;
pub use utf8::SkipUtf8Bom;

mod laws;
pub use laws::{
    lemma_longer_mark_wins, lemma_mark_then_payload, lemma_no_mark_passes_through,
    lemma_same_stream_same_result, lemma_undetermined_only_while_ambiguous,
};

verus! {

/// The result of the reading operations, as in `std::io`.
pub type Result<T> = std::io::Result<T>;

/// `std::io::Error`, the error of the underlying reader, which is handed back as it is.
#[verifier::external_type_specification]
#[verifier::external_body]
pub struct ExIoError(std::io::Error);

} // verus!

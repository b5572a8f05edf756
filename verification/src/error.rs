//! The error taxonomy: every fatal condition the decoder can report.

use vstd::prelude::*;

verus! {

/// A fatal decoding failure. None of these is recoverable: whichever
/// operation reported it aborts without a partial result.
#[derive(Debug, Clone, Copy, PartialEq, Eq, Structural)]
pub enum PadError {
    /// The byte source ended before the requested bytes could be read.
    ShortRead,
    /// A seek would move the cursor outside the representable range.
    SeekOutOfRange,
    /// The header needs more bytes than the source holds.
    HeaderIncomplete,
    /// A record's `number` field does not match the expected sequence
    /// position: the stream is corrupt and cannot be resynchronized.
    NumberMismatch,
    /// The header's `record_len` field is not the supported record size.
    UnsupportedRecordLen,
    /// The header's `timestamp_array_size` field is not the supported size.
    UnsupportedTimestampArraySize,
}

} // verus!

//! Decoder for a proprietary binary capture-file format: a variable-length
//! header followed by fixed-size records that reference an out-of-band
//! payload region by byte offset.
//!
//! The library is pure: it works over in-memory byte sources (`ByteCursor`).
//! Opening files and feeding their bytes in belongs to the surrounding
//! application code.

pub mod cursor;
pub mod endian;
pub mod error;
pub mod file;
pub mod header;
pub mod record;
pub mod stream;
pub mod text;

pub use cursor::ByteCursor;
pub use error::PadError;
pub use file::PadFile;
pub use header::{ChannelNames, CoarseTimestamp, PadHeader, TimestampsNs};
pub use record::Record;
pub use stream::{RecordReader, Records};

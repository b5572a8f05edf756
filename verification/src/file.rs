//! The aggregate handle over one capture file: the decoded header, the
//! sequential record stream, and the payload correlator, each bound to its
//! own independent cursor over the same bytes.

use vstd::prelude::*;

use crate::cursor::{copy_bytes, remaining, ByteCursor};
use crate::error::PadError;
use crate::header::{header_matches, parse_header, HeaderParse, PadHeader};
use crate::stream::{reader_wf, stream_wf, RecordReader, Records};

verus! {

/// One opened capture file: the header, the record stream positioned at the
/// header-declared record offset, and the payload correlator positioned at
/// the header-declared payload offset.
pub struct PadFile {
    pub header: PadHeader,
    pub records: Records,
    pub record_reader: RecordReader,
}

impl PadFile {
    /// Opens a capture file held in memory: decodes the header, rejects
    /// structurally incompatible files, and binds the record stream and the
    /// payload correlator to two independent views of the same bytes.
    pub fn from_bytes(data: Vec<u8>) -> (r: Result<PadFile, PadError>)
        ensures
            match parse_header(data@) {
                HeaderParse::NeedMore(_) => r == Err::<PadFile, PadError>(
                    PadError::HeaderIncomplete,
                ),
                HeaderParse::Found(f, n) => {
                    &&& f.record_len != 40 ==> r == Err::<PadFile, PadError>(
                        PadError::UnsupportedRecordLen,
                    )
                    &&& f.record_len == 40 && f.timestamp_array_size != 8 ==> r == Err::<
                        PadFile,
                        PadError,
                    >(PadError::UnsupportedTimestampArraySize)
                    &&& f.record_len == 40 && f.timestamp_array_size == 8 ==> (r matches Ok(pf)
                        && {
                        &&& header_matches(pf.header, f)
                        &&& pf.records@.data == data@
                        &&& pf.records@.pos == f.records_offset
                        &&& pf.records@.curr == f.first_record_number
                        &&& pf.records@.last == f.last_record_number
                        &&& pf.records@.done == (f.first_record_number > f.last_record_number)
                        &&& stream_wf(pf.records@)
                        &&& pf.record_reader@.data == data@
                        &&& pf.record_reader@.curr == f.record_data_offset
                        &&& reader_wf(pf.record_reader@)
                    })
                },
            },
    {
        let data2 = copy_bytes(&data);
        let mut pad_reader = ByteCursor::new(data);
        proof {
            assert(remaining(pad_reader@) =~= pad_reader@.data);
        }
        let header = match PadHeader::from_cursor(&mut pad_reader) {
            Ok(h) => h,
            Err(e) => {
                return Err(e);
            },
        };
        if header.record_len != 40 {
            return Err(PadError::UnsupportedRecordLen);
        }
        if header.timestamp_array_size != 8 {
            return Err(PadError::UnsupportedTimestampArraySize);
        }
        let first = header.first_record_number;
        let last = header.last_record_number;
        pad_reader.seek_to(header.records_offset);
        let records = Records::new(first, last, pad_reader);
        let record_reader = RecordReader::new(ByteCursor::new(data2), header.record_data_offset);
        Ok(PadFile { header, records, record_reader })
    }
}

} // verus!

//! Sequential record iteration and payload correlation.
//!
//! `Records` pulls fixed-size blocks from its own forward-only cursor,
//! decodes each, enforces the strict ordering of record numbers, and stops
//! at the all-zero sentinel block or past the declared last record number.
//! `RecordReader` owns a second, independent cursor over the same data and
//! satisfies per-record payload requests by relative forward seeks.

use vstd::prelude::*;

use crate::cursor::ByteCursor;
use crate::error::PadError;
use crate::record::{all_zero, is_all_zero, record_of, Record, RECORD_LEN};

verus! {

/// The mathematical state of a record stream: the bytes and position of its
/// cursor, the next expected record number, the declared last record
/// number, and whether the stream is exhausted.
pub struct StreamView {
    pub data: Seq<u8>,
    pub pos: int,
    pub curr: u32,
    pub last: u32,
    pub done: bool,
}

/// A stream that is not yet exhausted still expects a record number within
/// the declared range, and its cursor position is a file offset.
pub open spec fn stream_wf(v: StreamView) -> bool {
    &&& !v.done ==> v.curr <= v.last
    &&& 0 <= v.pos <= u64::MAX
}

/// The sequential record stream: one pull per record, monotonically
/// advancing, single-pass.
pub struct Records {
    cursor: ByteCursor,
    curr: u32,
    last: u32,
    done: bool,
}

impl View for Records {
    type V = StreamView;

    closed spec fn view(&self) -> StreamView {
        StreamView {
            data: self.cursor@.data,
            pos: self.cursor@.pos,
            curr: self.curr,
            last: self.last,
            done: self.done,
        }
    }
}

/// How one pull relates the stream's state before and after to its result:
/// an exhausted stream stays put and yields nothing; a missing block is a
/// short read; a sentinel block exhausts the stream without error, even
/// strictly before the last record number; a block whose number breaks the
/// sequence is a fatal mismatch; any other block is yielded, and pulling
/// the declared last record exhausts the stream.
pub open spec fn next_rel(
    pre: StreamView,
    post: StreamView,
    r: Result<Option<Record>, PadError>,
) -> bool {
    &&& post.data == pre.data
    &&& post.last == pre.last
    &&& if pre.done {
        post == pre && r == Ok::<Option<Record>, PadError>(None)
    } else if pre.pos + RECORD_LEN > pre.data.len() {
        r == Err::<Option<Record>, PadError>(PadError::ShortRead) && post == pre
    } else {
        let blk = pre.data.subrange(pre.pos, pre.pos + RECORD_LEN);
        &&& post.pos == pre.pos + RECORD_LEN
        &&& if all_zero(blk) {
            r == Ok::<Option<Record>, PadError>(None) && post.done && post.curr == pre.curr
        } else if record_of(blk).number != pre.curr {
            r == Err::<Option<Record>, PadError>(PadError::NumberMismatch) && post.done
                == pre.done && post.curr == pre.curr
        } else {
            &&& r == Ok::<Option<Record>, PadError>(Some(record_of(blk)))
            &&& if pre.curr == pre.last {
                post.done && post.curr == pre.curr
            } else {
                !post.done && post.curr == pre.curr + 1
            }
        }
    }
}

impl Records {
    /// A stream expecting record numbers `first ..= last`, pulling blocks
    /// from the given cursor; empty from the start when the range is.
    pub fn new(first: u32, last: u32, cursor: ByteCursor) -> (r: Records)
        ensures
            r@.data == cursor@.data,
            r@.pos == cursor@.pos,
            r@.curr == first,
            r@.last == last,
            r@.done == (first > last),
            stream_wf(r@),
    {
        proof {
            cursor.lemma_view_bounds();
        }
        let done = first > last;
        Records { cursor, curr: first, last, done }
    }

    /// Pulls the next record, as `next_rel` describes.
    pub fn next(&mut self) -> (r: Result<Option<Record>, PadError>)
        requires
            stream_wf(old(self)@),
        ensures
            next_rel(old(self)@, final(self)@, r),
            stream_wf(final(self)@),
    {
        proof {
            self.cursor.lemma_view_bounds();
        }
        if self.done {
            return Ok(None);
        }
        let blk = match self.cursor.read_vec(RECORD_LEN) {
            Ok(b) => b,
            Err(e) => {
                return Err(e);
            },
        };
        if is_all_zero(blk.as_slice()) {
            self.done = true;
            return Ok(None);
        }
        let rec = match Record::from_slice(blk.as_slice()) {
            Some(x) => x,
            None => {
                return Err(PadError::ShortRead);
            },
        };
        if rec.number != self.curr {
            return Err(PadError::NumberMismatch);
        }
        if self.curr == self.last {
            self.done = true;
        } else {
            self.curr = self.curr + 1;
        }
        Ok(Some(rec))
    }
}

/// A pulled record carries exactly the expected number, which never lies
/// past the declared last record number.
pub proof fn lemma_stream_never_past_last(
    pre: StreamView,
    post: StreamView,
    r: Result<Option<Record>, PadError>,
    rec: Record,
)
    requires
        stream_wf(pre),
        next_rel(pre, post, r),
        r == Ok::<Option<Record>, PadError>(Some(rec)),
    ensures
        rec.number == pre.curr,
        rec.number <= pre.last,
{
}

/// A sentinel block stops the stream without error, even strictly before
/// the declared last record number; the stream is exhausted afterwards.
pub proof fn lemma_stream_sentinel_stops(
    pre: StreamView,
    post: StreamView,
    r: Result<Option<Record>, PadError>,
)
    requires
        stream_wf(pre),
        next_rel(pre, post, r),
        !pre.done,
        pre.pos + RECORD_LEN <= pre.data.len(),
        all_zero(pre.data.subrange(pre.pos, pre.pos + RECORD_LEN)),
    ensures
        r == Ok::<Option<Record>, PadError>(None),
        post.done,
{
}

/// An exhausted stream never yields another record and never reads on.
pub proof fn lemma_stream_exhausted_stays(
    pre: StreamView,
    post: StreamView,
    r: Result<Option<Record>, PadError>,
)
    requires
        next_rel(pre, post, r),
        pre.done,
    ensures
        r == Ok::<Option<Record>, PadError>(None),
        post == pre,
{
}

/// A block whose number skips or repeats a value is a fatal mismatch: the
/// stream reports corruption rather than resynchronizing.
pub proof fn lemma_stream_mismatch_fatal(
    pre: StreamView,
    post: StreamView,
    r: Result<Option<Record>, PadError>,
)
    requires
        stream_wf(pre),
        next_rel(pre, post, r),
        !pre.done,
        pre.pos + RECORD_LEN <= pre.data.len(),
        !all_zero(pre.data.subrange(pre.pos, pre.pos + RECORD_LEN)),
        record_of(pre.data.subrange(pre.pos, pre.pos + RECORD_LEN)).number != pre.curr,
    ensures
        r == Err::<Option<Record>, PadError>(PadError::NumberMismatch),
{
}

/// The mathematical state of the payload correlator: the bytes and position
/// of its cursor, and the absolute offset the cursor is known to be at.
pub struct ReaderView {
    pub data: Seq<u8>,
    pub pos: int,
    pub curr: int,
}

/// The correlator's record of its cursor position is accurate, and both are
/// file offsets.
pub open spec fn reader_wf(v: ReaderView) -> bool {
    &&& v.pos == v.curr
    &&& 0 <= v.curr <= u64::MAX
}

/// How many payload bytes a fetch reads: the full payload length, or, when
/// trailing metadata is to be excluded and the record locates any, only the
/// bytes before it.
pub open spec fn fetch_len(rec: Record, exclude_metadata: bool) -> int {
    if exclude_metadata && rec.metadata_offset > 0 {
        rec.metadata_offset as int
    } else {
        rec.data_len as int
    }
}

/// Whether the relative seek from the current offset to the record's
/// payload is representable as a signed 64-bit byte count.
pub open spec fn seek_representable(v: ReaderView, rec: Record) -> bool {
    &&& rec.data_offset >= v.curr ==> rec.data_offset - v.curr <= i64::MAX
    &&& rec.data_offset < v.curr ==> v.curr - rec.data_offset <= i64::MAX
}

/// Whether a fetch can succeed: the seek is representable and the payload
/// bytes lie within the data.
pub open spec fn fetch_ok(v: ReaderView, rec: Record, exclude_metadata: bool) -> bool {
    &&& seek_representable(v, rec)
    &&& (fetch_len(rec, exclude_metadata) == 0 || rec.data_offset + fetch_len(
        rec,
        exclude_metadata,
    ) <= v.data.len())
}

/// How one fetch relates the correlator's state before and after to its
/// result: on success the returned bytes are exactly the record's payload
/// range and the cursor is known to sit just past it; an unrepresentable
/// seek fails in place; a payload past the end of the data fails with the
/// cursor moved to the record's offset.
pub open spec fn fetch_rel(
    pre: ReaderView,
    post: ReaderView,
    rec: Record,
    exclude_metadata: bool,
    r: Result<Vec<u8>, PadError>,
) -> bool {
    &&& post.data == pre.data
    &&& match r {
        Ok(buf) => {
            &&& fetch_ok(pre, rec, exclude_metadata)
            &&& buf@ == (if fetch_len(rec, exclude_metadata) == 0 {
                Seq::<u8>::empty()
            } else {
                pre.data.subrange(
                    rec.data_offset as int,
                    rec.data_offset + fetch_len(rec, exclude_metadata),
                )
            })
            &&& post.curr == rec.data_offset + fetch_len(rec, exclude_metadata)
        },
        Err(e) => {
            &&& !fetch_ok(pre, rec, exclude_metadata)
            &&& if !seek_representable(pre, rec) {
                e == PadError::SeekOutOfRange && post == pre
            } else {
                e == PadError::ShortRead && post.curr == rec.data_offset
            }
        },
    }
}

/// The payload correlator: a second, independently-positioned cursor over
/// the same data, satisfying per-record payload requests by relative seeks.
pub struct RecordReader {
    data_reader: ByteCursor,
    curr_data_offset: u64,
}

impl View for RecordReader {
    type V = ReaderView;

    closed spec fn view(&self) -> ReaderView {
        ReaderView {
            data: self.data_reader@.data,
            pos: self.data_reader@.pos,
            curr: self.curr_data_offset as int,
        }
    }
}

impl RecordReader {
    /// A correlator whose cursor is seeked to the payload region start.
    pub fn new(cursor: ByteCursor, offset: u64) -> (r: RecordReader)
        ensures
            r@.data == cursor@.data,
            r@.curr == offset,
            reader_wf(r@),
    {
        let mut data_reader = cursor;
        data_reader.seek_to(offset);
        RecordReader { data_reader, curr_data_offset: offset }
    }

    /// Seeks to the record's payload by the signed difference between its
    /// offset and the current one, then reads the requested length.
    fn get_data_for_record(
        &mut self,
        record: &Record,
        exclude_metadata: bool,
    ) -> (r: Result<Vec<u8>, PadError>)
        requires
            reader_wf(old(self)@),
        ensures
            fetch_rel(old(self)@, final(self)@, *record, exclude_metadata, r),
            reader_wf(final(self)@),
    {
        proof {
            self.data_reader.lemma_view_bounds();
        }
        let off = record.data_offset;
        if off >= self.curr_data_offset {
            let diff = off - self.curr_data_offset;
            if diff > i64::MAX as u64 {
                return Err(PadError::SeekOutOfRange);
            }
            match self.data_reader.seek_relative(diff as i64) {
                Ok(_) => {},
                Err(_) => {
                    proof {
                        assert(false);
                    }
                    return Err(PadError::SeekOutOfRange);
                },
            }
        } else {
            let diff = self.curr_data_offset - off;
            if diff > i64::MAX as u64 {
                return Err(PadError::SeekOutOfRange);
            }
            match self.data_reader.seek_relative(-(diff as i64)) {
                Ok(_) => {},
                Err(_) => {
                    proof {
                        assert(false);
                    }
                    return Err(PadError::SeekOutOfRange);
                },
            }
        }
        self.curr_data_offset = off;
        let data_read_len: usize = if exclude_metadata && record.metadata_offset > 0 {
            record.metadata_offset as usize
        } else {
            record.data_len as usize
        };
        match self.data_reader.read_vec(data_read_len) {
            Ok(buf) => {
                self.curr_data_offset = off + data_read_len as u64;
                Ok(buf)
            },
            Err(e) => Err(e),
        }
    }

    /// The payload bytes for a record with any trailing metadata excluded,
    /// when the record locates some; otherwise the full payload.
    pub fn get_data_for_record_without_metadata(&mut self, record: &Record) -> (r: Result<
        Vec<u8>,
        PadError,
    >)
        requires
            reader_wf(old(self)@),
        ensures
            fetch_rel(old(self)@, final(self)@, *record, true, r),
            reader_wf(final(self)@),
    {
        self.get_data_for_record(record, true)
    }

    /// The full payload bytes for a record.
    pub fn get_all_data_for_record(&mut self, record: &Record) -> (r: Result<Vec<u8>, PadError>)
        requires
            reader_wf(old(self)@),
        ensures
            fetch_rel(old(self)@, final(self)@, *record, false, r),
            reader_wf(final(self)@),
    {
        self.get_data_for_record(record, false)
    }
}

} // verus!

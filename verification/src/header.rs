//! The variable-length header: its field grammar, the incremental parse that
//! reports how many more bytes it needs, and the probe-and-retry parser that
//! grows a working buffer until the grammar is satisfied.
//!
//! The header has no declared total length. Its grammar is a fixed sequence
//! of typed fields — length-prefixed strings and big-endian integers — whose
//! total size depends on the string lengths found along the way. Decoding a
//! too-short buffer therefore reports a byte deficit rather than failing,
//! and the streaming parser rewinds and re-reads with an enlarged buffer
//! until the whole sequence fits.

use vstd::prelude::*;

use crate::cursor::{remaining, ByteCursor};
use crate::endian::{be16_at, be32_at, be64_at, read_be_u16, read_be_u32, read_be_u64};
use crate::error::PadError;
use crate::text::{lossy_of, lossy_utf8};

verus! {

/// The type of one header field.
#[derive(Debug, Clone, Copy, PartialEq, Eq, Structural)]
pub enum FieldKind {
    /// A string: 2-byte big-endian length prefix, then that many raw bytes.
    FStr,
    /// A big-endian 16-bit integer.
    F16,
    /// A big-endian 32-bit integer.
    F32,
    /// A big-endian 64-bit integer.
    F64,
}

/// The value of one decoded header field, at the mathematical level.
/// String fields carry their raw bytes, before permissive text decoding.
pub enum FieldVal {
    VStr(Seq<u8>),
    V16(u16),
    V32(u32),
    V64(u64),
}

/// The bytes of a string field value; empty for the other kinds.
pub open spec fn vstr(v: FieldVal) -> Seq<u8> {
    match v {
        FieldVal::VStr(b) => b,
        _ => Seq::empty(),
    }
}

/// The value of a 16-bit field; zero for the other kinds.
pub open spec fn v16(v: FieldVal) -> u16 {
    match v {
        FieldVal::V16(x) => x,
        _ => 0,
    }
}

/// The value of a 32-bit field; zero for the other kinds.
pub open spec fn v32(v: FieldVal) -> u32 {
    match v {
        FieldVal::V32(x) => x,
        _ => 0,
    }
}

/// The value of a 64-bit field; zero for the other kinds.
pub open spec fn v64(v: FieldVal) -> u64 {
    match v {
        FieldVal::V64(x) => x,
        _ => 0,
    }
}

/// Whether a field value carries the kind the grammar asks for.
pub open spec fn val_matches(v: FieldVal, kind: FieldKind) -> bool {
    match kind {
        FieldKind::FStr => v is VStr,
        FieldKind::F16 => v is V16,
        FieldKind::F32 => v is V32,
        FieldKind::F64 => v is V64,
    }
}

/// The kind of the `k`-th header field. The grammar is, in order: five
/// identity strings; eight 32-bit numbers; four 64-bit timestamps; the GUID
/// string and two channel-name strings; six 16-bit coarse-timestamp words;
/// the two region offsets; and the trailing start-marker string.
pub open spec fn kind_at(k: int) -> FieldKind {
    if k < 5 {
        FieldKind::FStr
    } else if k < 13 {
        FieldKind::F32
    } else if k < 17 {
        FieldKind::F64
    } else if k < 20 {
        FieldKind::FStr
    } else if k < 26 {
        FieldKind::F16
    } else if k < 28 {
        FieldKind::F64
    } else {
        FieldKind::FStr
    }
}

/// The outcome of decoding one field at `pos`: the value and the position
/// after it, or how many bytes past the end of `s` the field would reach.
pub enum StepOutcome {
    SFound(FieldVal, int),
    SNeed(int),
}

/// Decodes one field of the given kind at `pos` against the buffer `s`.
pub open spec fn step_at(s: Seq<u8>, kind: FieldKind, pos: int) -> StepOutcome {
    match kind {
        FieldKind::F16 => if pos + 2 <= s.len() {
            StepOutcome::SFound(FieldVal::V16(be16_at(s, pos) as u16), pos + 2)
        } else {
            StepOutcome::SNeed(pos + 2 - s.len())
        },
        FieldKind::F32 => if pos + 4 <= s.len() {
            StepOutcome::SFound(FieldVal::V32(be32_at(s, pos) as u32), pos + 4)
        } else {
            StepOutcome::SNeed(pos + 4 - s.len())
        },
        FieldKind::F64 => if pos + 8 <= s.len() {
            StepOutcome::SFound(FieldVal::V64(be64_at(s, pos) as u64), pos + 8)
        } else {
            StepOutcome::SNeed(pos + 8 - s.len())
        },
        FieldKind::FStr => if pos + 2 > s.len() {
            StepOutcome::SNeed(pos + 2 - s.len())
        } else {
            let n = be16_at(s, pos);
            if pos + 2 + n <= s.len() {
                StepOutcome::SFound(FieldVal::VStr(s.subrange(pos + 2, pos + 2 + n)), pos + 2 + n)
            } else {
                StepOutcome::SNeed(pos + 2 + n - s.len())
            }
        },
    }
}

/// The outcome of decoding a run of header fields: the field values and the
/// position just past the last one, or the byte deficit of the first field
/// that does not fit.
pub enum FieldsParse {
    Found(Seq<FieldVal>, int),
    NeedMore(int),
}

/// Decodes fields `k .. 29` starting at `pos` against the buffer `s`.
/// Decoding can only succeed whole or report a deficit: the grammar has no
/// malformed case, since any string length is acceptable.
pub open spec fn parse_from(s: Seq<u8>, k: int, pos: int) -> FieldsParse
    decreases 29 - k,
{
    if k >= 29 {
        FieldsParse::Found(Seq::empty(), pos)
    } else {
        match step_at(s, kind_at(k), pos) {
            StepOutcome::SNeed(d) => FieldsParse::NeedMore(d),
            StepOutcome::SFound(v, p2) => match parse_from(s, k + 1, p2) {
                FieldsParse::Found(vs, end) => FieldsParse::Found(seq![v] + vs, end),
                FieldsParse::NeedMore(d) => FieldsParse::NeedMore(d),
            },
        }
    }
}

/// Basic shape of a field-run decode: success consumes bytes within the
/// buffer and yields one well-kinded value per field; a deficit is at least
/// one byte, and the total span stays under the per-field maximum.
pub proof fn lemma_parse_shape(s: Seq<u8>, k: int, pos: int)
    requires
        0 <= k <= 29,
        0 <= pos <= s.len(),
    ensures
        parse_from(s, k, pos) matches FieldsParse::Found(vs, end) ==> {
            &&& pos <= end <= s.len()
            &&& end <= pos + (29 - k) * 0x1_0001
            &&& vs.len() == 29 - k
            &&& forall|j: int| 0 <= j < vs.len() ==> val_matches(#[trigger] vs[j], kind_at(k + j))
        },
        parse_from(s, k, pos) matches FieldsParse::NeedMore(d) ==> 1 <= d && s.len() + d <= pos
            + (29 - k) * 0x1_0001,
    decreases 29 - k,
{
    if k >= 29 {
    } else {
        match step_at(s, kind_at(k), pos) {
            StepOutcome::SNeed(d) => {
                assert(1 <= d && s.len() + d <= pos + 0x1_0001);
                assert(pos + 0x1_0001 <= pos + (29 - k) * 0x1_0001) by (nonlinear_arith)
                    requires
                        k <= 28,
                ;
            },
            StepOutcome::SFound(v, p2) => {
                assert(pos <= p2 <= s.len());
                assert(p2 <= pos + 0x1_0001);
                lemma_parse_shape(s, k + 1, p2);
                assert((29 - (k + 1)) * 0x1_0001 + 0x1_0001 == (29 - k) * 0x1_0001)
                    by (nonlinear_arith);
                match parse_from(s, k + 1, p2) {
                    FieldsParse::Found(vs, end) => {
                        assert(val_matches(v, kind_at(k)));
                        let whole = seq![v] + vs;
                        assert(whole.len() == 29 - k);
                        assert forall|j: int| 0 <= j < whole.len() implies val_matches(
                            #[trigger] whole[j],
                            kind_at(k + j),
                        ) by {
                            if j > 0 {
                                assert(whole[j] == vs[j - 1]);
                            }
                        }
                    },
                    FieldsParse::NeedMore(_) => {},
                }
            },
        }
    }
}

/// Decoding one field sees only bytes inside the buffer, so a longer buffer
/// that begins with the same bytes decodes it the same way.
proof fn lemma_step_ext(s: Seq<u8>, e: Seq<u8>, kind: FieldKind, pos: int)
    requires
        0 <= pos <= s.len(),
    ensures
        step_at(s, kind, pos) matches StepOutcome::SFound(v, p2) ==> step_at(s + e, kind, pos)
            == StepOutcome::SFound(v, p2),
{
    let t = s + e;
    assert(forall|i: int| 0 <= i < s.len() ==> t[i] == s[i]);
    match step_at(s, kind, pos) {
        StepOutcome::SFound(v, p2) => {
            if kind is FStr {
                assert(be16_at(t, pos) == be16_at(s, pos));
                let n = be16_at(s, pos);
                assert(t.subrange(pos + 2, pos + 2 + n) =~= s.subrange(pos + 2, pos + 2 + n));
            }
        },
        StepOutcome::SNeed(_) => {},
    }
}

/// What becomes of a field deficit when the buffer grows: fewer than the
/// missing bytes leave the same deficit, reduced; exactly the missing bytes
/// make the field end flush with the new buffer end, or, for a string whose
/// length prefix was the missing part, expose a fresh deficit.
proof fn lemma_step_need_ext(s: Seq<u8>, e: Seq<u8>, kind: FieldKind, pos: int)
    requires
        0 <= pos <= s.len(),
        step_at(s, kind, pos) is SNeed,
    ensures
        e.len() < step_at(s, kind, pos)->SNeed_0 ==> step_at(s + e, kind, pos)
            == StepOutcome::SNeed(step_at(s, kind, pos)->SNeed_0 - e.len()),
        e.len() == step_at(s, kind, pos)->SNeed_0 ==> match step_at(s + e, kind, pos) {
            StepOutcome::SFound(v, p2) => p2 == s.len() + e.len(),
            StepOutcome::SNeed(d2) => d2 >= 1,
        },
{
    let t = s + e;
    let d = step_at(s, kind, pos)->SNeed_0;
    assert(forall|i: int| 0 <= i < s.len() ==> t[i] == s[i]);
    match kind {
        FieldKind::FStr => {
            if pos + 2 > s.len() {
                // The deficit was in the length prefix.
                if e.len() == d {
                    assert(pos + 2 == t.len());
                } else {
                }
            } else {
                // The prefix was readable; the deficit was in the content.
                assert(be16_at(t, pos) == be16_at(s, pos));
            }
        },
        _ => {},
    }
}

/// Fields cannot be decoded from the very end of a buffer: every kind needs
/// at least its length prefix or its fixed width.
proof fn lemma_parse_at_end(s: Seq<u8>, k: int)
    requires
        0 <= k < 29,
    ensures
        parse_from(s, k, s.len() as int) is NeedMore,
{
}

/// Growing the buffer never changes a header that already decoded, and
/// growing it by exactly the reported deficit either completes the decode
/// flush with the buffer end or reports a further deficit. This is what
/// makes the probe-and-retry strategy converge on the one true header.
pub proof fn lemma_parse_ext(s: Seq<u8>, e: Seq<u8>, k: int, pos: int)
    requires
        0 <= k <= 29,
        0 <= pos <= s.len(),
    ensures
        parse_from(s, k, pos) matches FieldsParse::Found(vs, end) ==> parse_from(s + e, k, pos)
            == FieldsParse::Found(vs, end),
        parse_from(s, k, pos) matches FieldsParse::NeedMore(d) ==> {
            &&& e.len() < d ==> parse_from(s + e, k, pos) == FieldsParse::NeedMore(d - e.len())
            &&& e.len() == d ==> match parse_from(s + e, k, pos) {
                FieldsParse::Found(vs2, end2) => end2 == s.len() + e.len(),
                FieldsParse::NeedMore(d2) => d2 >= 1,
            }
        },
    decreases 29 - k,
{
    let t = s + e;
    if k >= 29 {
    } else {
        lemma_parse_shape(s, k, pos);
        lemma_parse_shape(t, k, pos);
        match step_at(s, kind_at(k), pos) {
            StepOutcome::SFound(v, p2) => {
                lemma_step_ext(s, e, kind_at(k), pos);
                assert(step_at(t, kind_at(k), pos) == StepOutcome::SFound(v, p2));
                assert(0 <= p2 <= s.len()) by {
                    lemma_step_in_bounds(s, kind_at(k), pos);
                }
                lemma_parse_ext(s, e, k + 1, p2);
            },
            StepOutcome::SNeed(d) => {
                lemma_step_need_ext(s, e, kind_at(k), pos);
                if e.len() < d {
                } else if e.len() == d {
                    match step_at(t, kind_at(k), pos) {
                        StepOutcome::SFound(v2, q2) => {
                            // The field ends flush with the grown buffer; any
                            // following field must report a fresh deficit.
                            assert(q2 == t.len());
                            if k + 1 < 29 {
                                lemma_parse_at_end(t, k + 1);
                                lemma_parse_shape(t, k + 1, q2);
                                assert(parse_from(t, k + 1, q2) is NeedMore);
                            } else {
                                assert(parse_from(t, k + 1, q2) == FieldsParse::Found(
                                    Seq::<FieldVal>::empty(),
                                    q2,
                                ));
                            }
                        },
                        StepOutcome::SNeed(d2) => {},
                    }
                }
            },
        }
    }
}

/// A decoded field ends inside the buffer.
proof fn lemma_step_in_bounds(s: Seq<u8>, kind: FieldKind, pos: int)
    requires
        0 <= pos <= s.len(),
        step_at(s, kind, pos) is SFound,
    ensures
        pos <= step_at(s, kind, pos)->SFound_1 <= s.len(),
{
}

/// Every header field, at the mathematical level: raw bytes for the string
/// fields, plain integers for the rest.
pub struct HeaderFields {
    pub module_type: Seq<u8>,
    pub port_id: Seq<u8>,
    pub rx_or_tx: Seq<u8>,
    pub description: Seq<u8>,
    pub format_code: Seq<u8>,
    pub numbers0_a: u32,
    pub numbers0_b: u32,
    pub trigger_record_number: u32,
    pub three: u32,
    pub first_record_number: u32,
    pub last_record_number: u32,
    pub record_len: u32,
    pub timestamp_array_size: u32,
    pub ts_first: u64,
    pub ts_last: u64,
    pub ts_stop: u64,
    pub ts_trigger: u64,
    pub guid: Seq<u8>,
    pub channel_a: Seq<u8>,
    pub channel_b: Seq<u8>,
    pub start_hour: u16,
    pub start_minute: u16,
    pub start_millisec: u16,
    pub stop_hour: u16,
    pub stop_minute: u16,
    pub stop_millisec: u16,
    pub records_offset: u64,
    pub record_data_offset: u64,
    pub start: Seq<u8>,
}

/// The header fields named out of a full run of 29 decoded field values.
pub open spec fn fields_of(vs: Seq<FieldVal>) -> HeaderFields {
    HeaderFields {
        module_type: vstr(vs[0]),
        port_id: vstr(vs[1]),
        rx_or_tx: vstr(vs[2]),
        description: vstr(vs[3]),
        format_code: vstr(vs[4]),
        numbers0_a: v32(vs[5]),
        numbers0_b: v32(vs[6]),
        trigger_record_number: v32(vs[7]),
        three: v32(vs[8]),
        first_record_number: v32(vs[9]),
        last_record_number: v32(vs[10]),
        record_len: v32(vs[11]),
        timestamp_array_size: v32(vs[12]),
        ts_first: v64(vs[13]),
        ts_last: v64(vs[14]),
        ts_stop: v64(vs[15]),
        ts_trigger: v64(vs[16]),
        guid: vstr(vs[17]),
        channel_a: vstr(vs[18]),
        channel_b: vstr(vs[19]),
        start_hour: v16(vs[20]),
        start_minute: v16(vs[21]),
        start_millisec: v16(vs[22]),
        stop_hour: v16(vs[23]),
        stop_minute: v16(vs[24]),
        stop_millisec: v16(vs[25]),
        records_offset: v64(vs[26]),
        record_data_offset: v64(vs[27]),
        start: vstr(vs[28]),
    }
}

/// The outcome of decoding a header against a buffer: the named fields and
/// the header's total size, or the byte deficit.
pub enum HeaderParse {
    Found(HeaderFields, int),
    NeedMore(int),
}

/// Decodes the whole header grammar against the buffer.
pub open spec fn parse_header(s: Seq<u8>) -> HeaderParse {
    match parse_from(s, 0, 0) {
        FieldsParse::Found(vs, end) => HeaderParse::Found(fields_of(vs), end),
        FieldsParse::NeedMore(d) => HeaderParse::NeedMore(d),
    }
}

/// A header that decoded from a longer buffer is the same header: extra
/// bytes past the header's end never change what was decoded.
pub proof fn lemma_header_extension(s: Seq<u8>, e: Seq<u8>)
    ensures
        parse_header(s) matches HeaderParse::Found(f, n) ==> parse_header(s + e)
            == HeaderParse::Found(f, n),
{
    lemma_parse_ext(s, e, 0, 0);
}

/// The four 64-bit capture timestamps, in nanoseconds.
#[derive(Debug, Clone, Copy, PartialEq, Eq, Structural)]
pub struct TimestampsNs {
    pub first: u64,
    pub last: u64,
    pub stop: u64,
    pub trigger: u64,
}

/// The two channel-name strings.
#[derive(Debug)]
pub struct ChannelNames {
    pub a: String,
    pub b: String,
}

/// An hour/minute/millisecond wall-clock marker.
#[derive(Debug, Clone, Copy, PartialEq, Eq, Structural)]
pub struct CoarseTimestamp {
    pub hour: u16,
    pub minute: u16,
    pub millisec: u16,
}

impl CoarseTimestamp {
    /// The coarse timestamp held in the first three words of a slice.
    pub fn from_slice(input: &[u16]) -> (r: CoarseTimestamp)
        requires
            input@.len() >= 3,
        ensures
            r.hour == input@[0],
            r.minute == input@[1],
            r.millisec == input@[2],
    {
        CoarseTimestamp { hour: input[0], minute: input[1], millisec: input[2] }
    }

    /// The coarse timestamp held in a triple of words.
    pub fn from_tuple(input: (u16, u16, u16)) -> (r: CoarseTimestamp)
        ensures
            r.hour == input.0,
            r.minute == input.1,
            r.millisec == input.2,
    {
        CoarseTimestamp { hour: input.0, minute: input.1, millisec: input.2 }
    }

    /// Whether the marker is absent: all three components zero.
    pub fn is_null(&self) -> (r: bool)
        ensures
            r == (self.hour == 0 && self.minute == 0 && self.millisec == 0),
    {
        self.hour == 0 && self.minute == 0 && self.millisec == 0
    }
}

/// The decoded capture-file header. Immutable once parsed.
#[derive(Debug)]
pub struct PadHeader {
    pub module_type: String,
    pub port_id: String,
    pub rx_or_tx: String,
    pub description: String,
    pub format_code: String,
    pub numbers0: (u32, u32),
    pub trigger_record_number: u32,
    pub three: u32,
    pub first_record_number: u32,
    pub last_record_number: u32,
    pub record_len: u32,
    pub timestamp_array_size: u32,
    pub timestamps_ns: TimestampsNs,
    pub guid: String,
    pub channel_names: ChannelNames,
    pub start_time: CoarseTimestamp,
    pub stop_time: CoarseTimestamp,
    pub records_offset: u64,
    pub record_data_offset: u64,
    pub start: String,
}

/// Whether a decoded header carries exactly the given mathematical fields,
/// with each string permissively text-decoded from its raw bytes.
pub open spec fn header_matches(h: PadHeader, f: HeaderFields) -> bool {
    &&& h.module_type@ == lossy_of(f.module_type)
    &&& h.port_id@ == lossy_of(f.port_id)
    &&& h.rx_or_tx@ == lossy_of(f.rx_or_tx)
    &&& h.description@ == lossy_of(f.description)
    &&& h.format_code@ == lossy_of(f.format_code)
    &&& h.numbers0.0 == f.numbers0_a
    &&& h.numbers0.1 == f.numbers0_b
    &&& h.trigger_record_number == f.trigger_record_number
    &&& h.three == f.three
    &&& h.first_record_number == f.first_record_number
    &&& h.last_record_number == f.last_record_number
    &&& h.record_len == f.record_len
    &&& h.timestamp_array_size == f.timestamp_array_size
    &&& h.timestamps_ns == (TimestampsNs {
        first: f.ts_first,
        last: f.ts_last,
        stop: f.ts_stop,
        trigger: f.ts_trigger,
    })
    &&& h.guid@ == lossy_of(f.guid)
    &&& h.channel_names.a@ == lossy_of(f.channel_a)
    &&& h.channel_names.b@ == lossy_of(f.channel_b)
    &&& h.start_time == (CoarseTimestamp {
        hour: f.start_hour,
        minute: f.start_minute,
        millisec: f.start_millisec,
    })
    &&& h.stop_time == (CoarseTimestamp {
        hour: f.stop_hour,
        minute: f.stop_minute,
        millisec: f.stop_millisec,
    })
    &&& h.records_offset == f.records_offset
    &&& h.record_data_offset == f.record_data_offset
    &&& h.start@ == lossy_of(f.start)
}

/// One decoded field value, as executable data.
enum FieldValExec {
    VStr(Vec<u8>),
    V16(u16),
    V32(u32),
    V64(u64),
}

impl View for FieldValExec {
    type V = FieldVal;

    closed spec fn view(&self) -> FieldVal {
        match self {
            FieldValExec::VStr(b) => FieldVal::VStr(b@),
            FieldValExec::V16(x) => FieldVal::V16(*x),
            FieldValExec::V32(x) => FieldVal::V32(*x),
            FieldValExec::V64(x) => FieldVal::V64(*x),
        }
    }
}

/// The mathematical values of a run of decoded fields.
spec fn vals_seq(q: Seq<FieldValExec>) -> Seq<FieldVal> {
    Seq::new(q.len(), |j: int| q[j]@)
}

/// The kind of the `k`-th header field, as executable data.
fn kind_of(k: usize) -> (r: FieldKind)
    requires
        k < 29,
    ensures
        r == kind_at(k as int),
{
    if k < 5 {
        FieldKind::FStr
    } else if k < 13 {
        FieldKind::F32
    } else if k < 17 {
        FieldKind::F64
    } else if k < 20 {
        FieldKind::FStr
    } else if k < 26 {
        FieldKind::F16
    } else if k < 28 {
        FieldKind::F64
    } else {
        FieldKind::FStr
    }
}

/// The text decoded from the string field at index `i`.
fn string_field(vals: &Vec<FieldValExec>, i: usize) -> (r: String)
    requires
        i < vals@.len(),
        vals@[i as int]@ is VStr,
    ensures
        r@ == lossy_of(vstr(vals@[i as int]@)),
{
    match &vals[i] {
        FieldValExec::VStr(b) => lossy_utf8(b.as_slice()),
        _ => String::new(),
    }
}

/// The value of the 16-bit field at index `i`.
fn u16_field(vals: &Vec<FieldValExec>, i: usize) -> (r: u16)
    requires
        i < vals@.len(),
        vals@[i as int]@ is V16,
    ensures
        r == v16(vals@[i as int]@),
{
    match &vals[i] {
        FieldValExec::V16(x) => *x,
        _ => 0,
    }
}

/// The value of the 32-bit field at index `i`.
fn u32_field(vals: &Vec<FieldValExec>, i: usize) -> (r: u32)
    requires
        i < vals@.len(),
        vals@[i as int]@ is V32,
    ensures
        r == v32(vals@[i as int]@),
{
    match &vals[i] {
        FieldValExec::V32(x) => *x,
        _ => 0,
    }
}

/// The value of the 64-bit field at index `i`.
fn u64_field(vals: &Vec<FieldValExec>, i: usize) -> (r: u64)
    requires
        i < vals@.len(),
        vals@[i as int]@ is V64,
    ensures
        r == v64(vals@[i as int]@),
{
    match &vals[i] {
        FieldValExec::V64(x) => *x,
        _ => 0,
    }
}

/// The outcome of one decoding attempt against a fixed buffer: the header,
/// or how many more bytes than the buffer holds the grammar needs.
#[derive(Debug)]
pub enum HeaderAttempt {
    Parsed(PadHeader),
    Need(usize),
}

impl PadHeader {
    /// Attempts to decode a header from the front of `buf`. Succeeds exactly
    /// when the whole field grammar fits; otherwise reports the deficit of
    /// the first field that does not.
    pub fn try_from_slice(buf: &[u8]) -> (r: HeaderAttempt)
        ensures
            match parse_header(buf@) {
                HeaderParse::Found(f, end) => r matches HeaderAttempt::Parsed(h)
                    && header_matches(h, f),
                HeaderParse::NeedMore(d) => r matches HeaderAttempt::Need(n) && n == d,
            },
    {
        let ghost s = buf@;
        let mut vals: Vec<FieldValExec> = Vec::new();
        let mut pos: usize = 0;
        let mut i: usize = 0;
        while i < 29
            invariant
                buf@ == s,
                i <= 29,
                pos <= buf@.len(),
                vals@.len() == i,
                match parse_from(s, i as int, pos as int) {
                    FieldsParse::Found(vs2, end) => parse_from(s, 0, 0) == FieldsParse::Found(
                        vals_seq(vals@) + vs2,
                        end,
                    ),
                    FieldsParse::NeedMore(d) => parse_from(s, 0, 0) == FieldsParse::NeedMore(d),
                },
            decreases 29 - i,
        {
            let ghost old_vals = vals@;
            let ghost old_pos = pos as int;
            let kind = kind_of(i);
            let avail = buf.len() - pos;
            let width: usize = match kind {
                FieldKind::F16 => 2,
                FieldKind::F32 => 4,
                FieldKind::F64 => 8,
                FieldKind::FStr => 2,
            };
            if avail < width {
                let need = width - avail;
                proof {
                    assert(step_at(s, kind_at(i as int), old_pos) == StepOutcome::SNeed(
                        need as int,
                    ));
                    assert(parse_from(s, i as int, old_pos) == FieldsParse::NeedMore(need as int));
                }
                return HeaderAttempt::Need(need);
            }
            match kind {
                FieldKind::F16 => {
                    let x = read_be_u16(buf, pos);
                    vals.push(FieldValExec::V16(x));
                    pos = pos + 2;
                },
                FieldKind::F32 => {
                    let x = read_be_u32(buf, pos);
                    vals.push(FieldValExec::V32(x));
                    pos = pos + 4;
                },
                FieldKind::F64 => {
                    let x = read_be_u64(buf, pos);
                    vals.push(FieldValExec::V64(x));
                    pos = pos + 8;
                },
                FieldKind::FStr => {
                    let n = read_be_u16(buf, pos) as usize;
                    if avail - 2 < n {
                        let need = n - (avail - 2);
                        proof {
                            assert(step_at(s, kind_at(i as int), old_pos) == StepOutcome::SNeed(
                                need as int,
                            ));
                            assert(parse_from(s, i as int, old_pos) == FieldsParse::NeedMore(
                                need as int,
                            ));
                        }
                        return HeaderAttempt::Need(need);
                    }
                    let bytes = vstd::slice::slice_to_vec(
                        vstd::slice::slice_subrange(buf, pos + 2, pos + 2 + n),
                    );
                    vals.push(FieldValExec::VStr(bytes));
                    pos = pos + 2 + n;
                },
            }
            proof {
                let v = vals@[i as int]@;
                assert(step_at(s, kind_at(i as int), old_pos) == StepOutcome::SFound(
                    v,
                    pos as int,
                ));
                assert(vals_seq(vals@) =~= vals_seq(old_vals).push(v));
                match parse_from(s, i as int + 1, pos as int) {
                    FieldsParse::Found(vs2, end) => {
                        assert(parse_from(s, i as int, old_pos) == FieldsParse::Found(
                            seq![v] + vs2,
                            end,
                        ));
                        assert(vals_seq(old_vals) + (seq![v] + vs2) =~= vals_seq(vals@) + vs2);
                    },
                    FieldsParse::NeedMore(d) => {
                        assert(parse_from(s, i as int, old_pos) == FieldsParse::NeedMore(d));
                    },
                }
            }
            i = i + 1;
        }
        proof {
            assert(parse_from(s, 29, pos as int) == FieldsParse::Found(
                Seq::<FieldVal>::empty(),
                pos as int,
            ));
            assert(vals_seq(vals@) + Seq::<FieldVal>::empty() =~= vals_seq(vals@));
            lemma_parse_shape(s, 0, 0);
        }
        let ghost vv = vals_seq(vals@);
        let h = PadHeader {
            module_type: string_field(&vals, 0),
            port_id: string_field(&vals, 1),
            rx_or_tx: string_field(&vals, 2),
            description: string_field(&vals, 3),
            format_code: string_field(&vals, 4),
            numbers0: (u32_field(&vals, 5), u32_field(&vals, 6)),
            trigger_record_number: u32_field(&vals, 7),
            three: u32_field(&vals, 8),
            first_record_number: u32_field(&vals, 9),
            last_record_number: u32_field(&vals, 10),
            record_len: u32_field(&vals, 11),
            timestamp_array_size: u32_field(&vals, 12),
            timestamps_ns: TimestampsNs {
                first: u64_field(&vals, 13),
                last: u64_field(&vals, 14),
                stop: u64_field(&vals, 15),
                trigger: u64_field(&vals, 16),
            },
            guid: string_field(&vals, 17),
            channel_names: ChannelNames { a: string_field(&vals, 18), b: string_field(&vals, 19) },
            start_time: CoarseTimestamp {
                hour: u16_field(&vals, 20),
                minute: u16_field(&vals, 21),
                millisec: u16_field(&vals, 22),
            },
            stop_time: CoarseTimestamp {
                hour: u16_field(&vals, 23),
                minute: u16_field(&vals, 24),
                millisec: u16_field(&vals, 25),
            },
            records_offset: u64_field(&vals, 26),
            record_data_offset: u64_field(&vals, 27),
            start: string_field(&vals, 28),
        };
        proof {
            assert(header_matches(h, fields_of(vv)));
        }
        HeaderAttempt::Parsed(h)
    }

    /// Decodes the header at the cursor's position by probe and retry: read
    /// a working buffer, attempt the whole grammar, and on a reported byte
    /// deficit rewind by exactly the buffer's length and re-read it enlarged
    /// by the deficit. Converges on the one header the bytes encode, leaving
    /// the cursor just past the header's real end; fails exactly when the
    /// source ends before the grammar is satisfied, leaving the cursor where
    /// it started.
    pub fn from_cursor(cur: &mut ByteCursor) -> (r: Result<PadHeader, PadError>)
        ensures
            final(cur)@.data == old(cur)@.data,
            match parse_header(remaining(old(cur)@)) {
                HeaderParse::Found(f, n) => {
                    &&& r matches Ok(h) && header_matches(h, f)
                    &&& final(cur)@.pos == old(cur)@.pos + n
                },
                HeaderParse::NeedMore(_) => r == Err::<PadHeader, PadError>(
                    PadError::HeaderIncomplete,
                ) && final(cur)@.pos == old(cur)@.pos,
            },
    {
        proof {
            cur.lemma_view_bounds();
        }
        let ghost d0 = cur@.data;
        let ghost p0 = cur@.pos;
        let ghost rest = remaining(cur@);
        let mut buffer: Vec<u8> = Vec::new();
        let mut expand: usize = 0;
        loop
            invariant
                d0 == old(cur)@.data,
                p0 == old(cur)@.pos,
                cur@.data == d0,
                cur@.pos == p0,
                0 <= p0 <= u64::MAX,
                rest == remaining(cur@),
                buffer@.len() <= rest.len(),
                buffer@ == rest.subrange(0, buffer@.len() as int),
                (buffer@.len() == 0 && expand == 0) || (parse_from(buffer@, 0, 0)
                    == FieldsParse::NeedMore(expand as int) && expand >= 1),
                buffer@.len() + expand <= 29 * 0x1_0001,
            decreases rest.len() - buffer@.len() + (if expand == 0 {
                1int
            } else {
                0int
            }),
        {
            let ghost prevb = buffer@;
            let newlen = buffer.len() + expand;
            match cur.read_vec(newlen) {
                Err(_) => {
                    proof {
                        // Reading the enlarged buffer failed: the source
                        // holds fewer bytes than the grammar needs, so the
                        // header cannot decode from the remaining bytes.
                        assert(newlen > 0 && p0 + newlen > d0.len());
                        assert(rest.len() < newlen);
                        if parse_header(rest) is Found {
                            assert(parse_from(prevb, 0, 0) == FieldsParse::NeedMore(
                                expand as int,
                            ));
                            let ext = rest.skip(prevb.len() as int);
                            assert(rest =~= prevb + ext);
                            assert(ext.len() < expand);
                            lemma_parse_ext(prevb, ext, 0, 0);
                            assert(parse_from(rest, 0, 0) is NeedMore);
                            assert(false);
                        }
                    }
                    return Err(PadError::HeaderIncomplete);
                },
                Ok(b) => {
                    buffer = b;
                },
            }
            proof {
                assert(buffer@ =~= rest.subrange(0, newlen as int));
            }
            match PadHeader::try_from_slice(buffer.as_slice()) {
                HeaderAttempt::Parsed(h) => {
                    proof {
                        match parse_header(buffer@) {
                            HeaderParse::Found(f, end) => {
                                if prevb.len() == 0 && expand == 0 {
                                    // An empty buffer cannot decode: the
                                    // first field alone needs two bytes.
                                    assert(parse_from(buffer@, 0, 0) is NeedMore);
                                    assert(false);
                                } else {
                                    let added = buffer@.skip(prevb.len() as int);
                                    assert(buffer@ =~= prevb + added);
                                    assert(added.len() == expand);
                                    lemma_parse_ext(prevb, added, 0, 0);
                                    assert(end == newlen);
                                }
                                let ext2 = rest.skip(newlen as int);
                                assert(rest =~= buffer@ + ext2);
                                lemma_parse_ext(buffer@, ext2, 0, 0);
                                assert(parse_header(rest) == HeaderParse::Found(f, end));
                            },
                            HeaderParse::NeedMore(_) => {
                                assert(false);
                            },
                        }
                    }
                    return Ok(h);
                },
                HeaderAttempt::Need(n) => {
                    proof {
                        lemma_parse_shape(buffer@, 0, 0);
                        assert(parse_from(buffer@, 0, 0) == FieldsParse::NeedMore(n as int));
                    }
                    expand = n;
                    match cur.seek_relative(-(newlen as i64)) {
                        Ok(_) => {},
                        Err(_) => {
                            proof {
                                assert(false);
                            }
                            return Err(PadError::SeekOutOfRange);
                        },
                    }
                },
            }
        }
    }
}

} // verus!

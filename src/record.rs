//! One record of a MAV-LOG body, laid out as the format flags say, and the body as a
//! sequence of records.
use vstd::bytes::*;
use vstd::prelude::*;
use vstd::slice::*;

use crate::bytes::{push_bytes, push_le16, push_le64, read_le16, read_le64};
use crate::error::LogError;
use crate::header::FormatFlags;

verus! {

/// What a record carries.
#[derive(Clone, Copy, Debug, PartialEq, Eq, Structural)]
pub enum EntryType {
    /// Arbitrary bytes.
    Raw,
    /// One wire-protocol frame.
    Mavlink,
    /// UTF-8 text.
    Text,
}

/// The entry type that a type byte names, if any.
pub open spec fn entry_type_of(code: u8) -> Option<EntryType> {
    if code == 0 {
        Some(EntryType::Raw)
    } else if code == 1 {
        Some(EntryType::Mavlink)
    } else if code == 2 {
        Some(EntryType::Text)
    } else {
        None
    }
}

impl EntryType {
    /// The type byte of the entry type.
    pub open spec fn code(self) -> u8 {
        match self {
            EntryType::Raw => 0,
            EntryType::Mavlink => 1,
            EntryType::Text => 2,
        }
    }

    pub fn as_u8(&self) -> (r: u8)
        ensures
            r == self.code(),
    {
        match self {
            EntryType::Raw => 0,
            EntryType::Mavlink => 1,
            EntryType::Text => 2,
        }
    }

    pub fn from_u8(code: u8) -> (r: Option<Self>)
        ensures
            r == entry_type_of(code),
    {
        match code {
            0 => Some(EntryType::Raw),
            1 => Some(EntryType::Mavlink),
            2 => Some(EntryType::Text),
            _ => None,
        }
    }
}

/// The largest payload that a record can carry.
pub const MAX_PAYLOAD: usize = 65535;

/// One decoded record.
pub struct LogRecord {
    /// What the payload is.
    pub entry_type: EntryType,
    /// Microseconds since the writer started, where the layout keeps timestamps.
    pub timestamp: Option<u64>,
    /// The payload bytes.
    pub payload: Vec<u8>,
}

/// A record as values.
pub struct EntryView {
    pub entry_type: EntryType,
    pub timestamp: Option<u64>,
    pub payload: Seq<u8>,
}

impl View for LogRecord {
    type V = EntryView;

    open spec fn view(&self) -> EntryView {
        EntryView { entry_type: self.entry_type, timestamp: self.timestamp, payload: self.payload@ }
    }
}

/// The length of the wire frame at the start of `b`, as its first bytes give it: a version 1
/// frame (first byte 0xFE) takes 8 bytes besides its payload, a version 2 frame (0xFD) 12,
/// and 13 more where its incompatibility flags mark it signed.
pub open spec fn frame_len(b: Seq<u8>) -> Result<nat, LogError> {
    if b.len() == 0 {
        Err(LogError::Truncated)
    } else if b[0] == 0xFEu8 {
        if b.len() < 2 {
            Err(LogError::Truncated)
        } else {
            Ok((8 + b[1]) as nat)
        }
    } else if b[0] == 0xFDu8 {
        if b.len() < 3 {
            Err(LogError::Truncated)
        } else {
            Ok((12 + b[1] + if b[2] & 1 != 0 { 13int } else { 0int }) as nat)
        }
    } else {
        Err(LogError::BadMagic)
    }
}

/// Reads the length of the wire frame at the start of `b`.
pub fn frame_length(b: &[u8]) -> (r: Result<usize, LogError>)
    ensures
        match r {
            Ok(n) => frame_len(b@) == Ok::<nat, LogError>(n as nat),
            Err(e) => frame_len(b@) == Err::<nat, LogError>(e),
        },
{
    if b.len() == 0 {
        Err(LogError::Truncated)
    } else if b[0] == 0xFE {
        if b.len() < 2 {
            Err(LogError::Truncated)
        } else {
            Ok(8 + b[1] as usize)
        }
    } else if b[0] == 0xFD {
        if b.len() < 3 {
            Err(LogError::Truncated)
        } else {
            let signature: usize = if b[2] & 1 != 0 { 13 } else { 0 };
            Ok(12 + b[1] as usize + signature)
        }
    } else {
        Err(LogError::BadMagic)
    }
}

/// Bytes before the payload: type byte, timestamp and size field, as the flags keep them.
pub open spec fn head_len(flags: FormatFlags) -> int {
    (if flags.mavlink_only { 0int } else { 3int }) + (if flags.no_timestamp { 0int } else { 8int })
}

/// The record on the wire.
pub open spec fn record_bytes(flags: FormatFlags, t: EntryType, ts: u64, payload: Seq<u8>) -> Seq<
    u8,
> {
    (if flags.mavlink_only { Seq::empty() } else { seq![t.code()] }) + (if flags.no_timestamp {
        Seq::empty()
    } else {
        spec_u64_to_le_bytes(ts)
    }) + (if flags.mavlink_only {
        Seq::empty()
    } else {
        spec_u16_to_le_bytes(payload.len() as u16)
    }) + payload
}

/// Why a record cannot be written, if it cannot: a raw or text entry where the flags keep wire
/// frames only, then a payload longer than `MAX_PAYLOAD`, then, where the flags keep wire frames
/// only, a payload whose frame header does not give its whole length (it could not be read back).
pub open spec fn record_refusal(flags: FormatFlags, t: EntryType, payload: Seq<u8>) -> Option<
    LogError,
> {
    if flags.mavlink_only && t != EntryType::Mavlink {
        Some(LogError::InvalidEntryForFlags)
    } else if payload.len() > MAX_PAYLOAD {
        Some(LogError::PayloadTooLarge)
    } else if flags.mavlink_only && frame_len(payload) != Ok::<nat, LogError>(payload.len()) {
        Some(LogError::MalformedFrame)
    } else {
        None
    }
}

/// Encodes one record, unless `record_refusal` gives a reason not to.
pub fn pack_record(flags: &FormatFlags, entry_type: EntryType, ts: u64, payload: &[u8]) -> (r:
    Result<Vec<u8>, LogError>)
    ensures
        match r {
            Ok(v) => record_refusal(*flags, entry_type, payload@) is None && v@ == record_bytes(
                *flags,
                entry_type,
                ts,
                payload@,
            ),
            Err(e) => record_refusal(*flags, entry_type, payload@) == Some(e),
        },
{
    if flags.mavlink_only && entry_type != EntryType::Mavlink {
        return Err(LogError::InvalidEntryForFlags);
    }
    if payload.len() > MAX_PAYLOAD {
        return Err(LogError::PayloadTooLarge);
    }
    if flags.mavlink_only {
        match frame_length(payload) {
            Ok(n) => {
                if n != payload.len() {
                    return Err(LogError::MalformedFrame);
                }
            },
            Err(_) => return Err(LogError::MalformedFrame),
        }
    }
    let mut record: Vec<u8> = Vec::new();
    if !flags.mavlink_only {
        record.push(entry_type.as_u8());
    }
    if !flags.no_timestamp {
        push_le64(&mut record, ts);
    }
    if !flags.mavlink_only {
        push_le16(&mut record, payload.len() as u16);
    }
    push_bytes(&mut record, payload);
    assert(record@ =~= record_bytes(*flags, entry_type, ts, payload@));
    Ok(record)
}

/// The record at the start of `b` and the number of bytes it spans, or why there is none.
pub open spec fn record_from(flags: FormatFlags, b: Seq<u8>) -> Result<(EntryView, nat), LogError> {
    let type_len: int = if flags.mavlink_only { 0 } else { 1 };
    let head = head_len(flags);
    if b.len() < head {
        Err(LogError::Truncated)
    } else if !flags.mavlink_only && entry_type_of(b[0]) is None {
        Err(LogError::UnknownEntryType)
    } else {
        let t = if flags.mavlink_only {
            EntryType::Mavlink
        } else {
            entry_type_of(b[0])->Some_0
        };
        let ts = if flags.no_timestamp {
            None
        } else {
            Some(spec_u64_from_le_bytes(b.subrange(type_len, type_len + 8)))
        };
        let rest = b.skip(head);
        let size: Result<nat, LogError> = if flags.mavlink_only {
            frame_len(rest)
        } else {
            Ok(spec_u16_from_le_bytes(b.subrange(head - 2, head)) as nat)
        };
        match size {
            Err(e) => Err(e),
            Ok(n) => if rest.len() < n {
                Err(LogError::Truncated)
            } else {
                Ok((EntryView { entry_type: t, timestamp: ts, payload: rest.take(n as int) }, (head
                    + n) as nat))
            },
        }
    }
}

/// Decodes the record that starts at `pos`; returns it with the position after it.
pub fn unpack_next_record(flags: &FormatFlags, bytes: &[u8], pos: usize) -> (r: Result<
    (LogRecord, usize),
    LogError,
>)
    requires
        pos <= bytes@.len(),
    ensures
        match r {
            Ok((rec, next)) => record_from(*flags, bytes@.skip(pos as int)) == Ok::<
                (EntryView, nat),
                LogError,
            >((rec@, (next - pos) as nat)) && pos < next <= bytes@.len(),
            Err(e) => record_from(*flags, bytes@.skip(pos as int)) == Err::<
                (EntryView, nat),
                LogError,
            >(e),
        },
{
    let ghost b = bytes@.skip(pos as int);
    let n = bytes.len();
    let head: usize = (if flags.mavlink_only { 0 } else { 3 }) + (if flags.no_timestamp { 0 } else { 8 });
    if n - pos < head {
        return Err(LogError::Truncated);
    }
    let mut at = pos;
    let entry_type = if flags.mavlink_only {
        EntryType::Mavlink
    } else {
        match EntryType::from_u8(bytes[at]) {
            Some(t) => {
                at = at + 1;
                t
            },
            None => return Err(LogError::UnknownEntryType),
        }
    };
    let timestamp = if flags.no_timestamp {
        None
    } else {
        let ts = read_le64(bytes, at);
        assert(bytes@.subrange(at as int, at + 8) =~= b.subrange(at - pos, at - pos + 8));
        at = at + 8;
        Some(ts)
    };
    let size: usize = if flags.mavlink_only {
        let tail = slice_subrange(bytes, at, n);
        assert(tail@ =~= b.skip(head as int));
        match frame_length(tail) {
            Ok(len) => len,
            Err(e) => return Err(e),
        }
    } else {
        let len = read_le16(bytes, at);
        assert(bytes@.subrange(at as int, at + 2) =~= b.subrange(head - 2, head as int));
        at = at + 2;
        len as usize
    };
    assert(at == pos + head);
    if n - at < size {
        return Err(LogError::Truncated);
    }
    let payload = slice_to_vec(slice_subrange(bytes, at, at + size));
    assert(payload@ =~= b.skip(head as int).take(size as int));
    let rec = LogRecord { entry_type, timestamp, payload };
    Ok((rec, at + size))
}

/// The timestamp written for an entry: its own, or zero where it has none.
pub open spec fn written_ts(e: EntryView) -> u64 {
    match e.timestamp {
        Some(t) => t,
        None => 0,
    }
}

/// The bytes of one entry on the wire.
pub open spec fn entry_bytes(flags: FormatFlags, e: EntryView) -> Seq<u8> {
    record_bytes(flags, e.entry_type, written_ts(e), e.payload)
}

/// The bytes of a body that holds `es` in order.
pub open spec fn body_bytes(flags: FormatFlags, es: Seq<EntryView>) -> Seq<u8>
    decreases es.len(),
{
    if es.len() == 0 {
        Seq::empty()
    } else {
        entry_bytes(flags, es[0]) + body_bytes(flags, es.drop_first())
    }
}

/// The records of a body, read from its start to its end, or the first reason it cannot be read.
pub open spec fn records_from(flags: FormatFlags, b: Seq<u8>) -> Result<Seq<EntryView>, LogError>
    decreases b.len(),
{
    if b.len() == 0 {
        Ok(Seq::empty())
    } else {
        match record_from(flags, b) {
            Err(e) => Err(e),
            Ok((e, n)) => if 0 < n <= b.len() {
                match records_from(flags, b.skip(n as int)) {
                    Err(x) => Err(x),
                    Ok(rest) => Ok(seq![e] + rest),
                }
            } else {
                Err(LogError::Truncated)
            },
        }
    }
}

/// An entry that the flags can carry and that reads back as itself: a payload that fits the
/// size field, a timestamp exactly where the layout keeps one, and under the wire-frames-only
/// flag a frame whose header gives its whole length.
pub open spec fn valid_entry(flags: FormatFlags, e: EntryView) -> bool {
    &&& e.payload.len() <= MAX_PAYLOAD
    &&& (e.timestamp is Some) == !flags.no_timestamp
    &&& flags.mavlink_only ==> e.entry_type == EntryType::Mavlink && frame_len(e.payload) == Ok::<
        nat,
        LogError,
    >(e.payload.len())
}

/// The views of a sequence of records.
pub open spec fn views(rs: Seq<LogRecord>) -> Seq<EntryView> {
    rs.map_values(|r: LogRecord| r@)
}

/// Encodes the records one after another, each with its own timestamp (zero where it has none).
pub fn pack_records(flags: &FormatFlags, records: &[LogRecord]) -> (r: Result<Vec<u8>, LogError>)
    ensures
        match r {
            Ok(v) => v@ == body_bytes(*flags, views(records@)),
            Err(e) => exists|i: int|
                0 <= i < records@.len() && #[trigger] pack_refused(*flags, records@[i]@, e),
        },
{
    let mut out: Vec<u8> = Vec::new();
    let mut i: usize = 0;
    assert(views(records@).skip(0) =~= views(records@));
    assert(out@ + body_bytes(*flags, views(records@)) =~= body_bytes(*flags, views(records@)));
    while i < records.len()
        invariant
            i <= records@.len(),
            body_bytes(*flags, views(records@)) == out@ + body_bytes(
                *flags,
                views(records@).skip(i as int),
            ),
        decreases records@.len() - i,
    {
        let rec = &records[i];
        let ts: u64 = match rec.timestamp {
            Some(t) => t,
            None => 0,
        };
        let bytes = match pack_record(flags, rec.entry_type, ts, rec.payload.as_slice()) {
            Ok(b) => b,
            Err(e) => {
                assert(pack_refused(*flags, records@[i as int]@, e));
                return Err(e);
            },
        };
        proof {
            let rest = views(records@).skip(i as int);
            assert(rest[0] == records@[i as int]@);
            assert(rest.drop_first() =~= views(records@).skip(i + 1));
        }
        push_bytes(&mut out, bytes.as_slice());
        i = i + 1;
    }
    assert(views(records@).skip(i as int) =~= Seq::<EntryView>::empty());
    Ok(out)
}

/// `e` is the error with which `pack_record` refuses the entry.
pub open spec fn pack_refused(flags: FormatFlags, r: EntryView, e: LogError) -> bool {
    record_refusal(flags, r.entry_type, r.payload) == Some(e)
}

/// Decodes a whole body into its records.
pub fn unpack_records(flags: &FormatFlags, bytes: &[u8]) -> (r: Result<Vec<LogRecord>, LogError>)
    ensures
        match r {
            Ok(v) => records_from(*flags, bytes@) == Ok::<Seq<EntryView>, LogError>(views(v@)),
            Err(e) => records_from(*flags, bytes@) == Err::<Seq<EntryView>, LogError>(e),
        },
{
    let mut out: Vec<LogRecord> = Vec::new();
    let mut pos: usize = 0;
    assert(bytes@.skip(0) =~= bytes@);
    proof {
        match records_from(*flags, bytes@) {
            Ok(t) => assert(views(out@) + t =~= t),
            Err(_) => {},
        }
    }
    while pos < bytes.len()
        invariant
            pos <= bytes@.len(),
            records_from(*flags, bytes@) == prepend(views(out@), records_from(*flags, bytes@.skip(pos as int))),
        decreases bytes@.len() - pos,
    {
        let ghost b = bytes@.skip(pos as int);
        match unpack_next_record(flags, bytes, pos) {
            Ok((rec, next)) => {
                proof {
                    assert(b.skip((next - pos) as int) =~= bytes@.skip(next as int));
                    let tail = records_from(*flags, bytes@.skip(next as int));
                    assert(views(out@.push(rec)) =~= views(out@) + seq![rec@]);
                    match tail {
                        Ok(t) => assert(views(out@) + seq![rec@] + t =~= views(out@) + (seq![rec@] + t)),
                        Err(_) => {},
                    }
                }
                out.push(rec);
                pos = next;
            },
            Err(e) => return Err(e),
        }
    }
    assert(bytes@.skip(pos as int) =~= Seq::<u8>::empty());
    assert(views(out@) + Seq::<EntryView>::empty() =~= views(out@));
    Ok(out)
}

/// `r` with `done` in front of what it holds.
pub open spec fn prepend(done: Seq<EntryView>, r: Result<Seq<EntryView>, LogError>) -> Result<
    Seq<EntryView>,
    LogError,
> {
    match r {
        Ok(s) => Ok(done + s),
        Err(e) => Err(e),
    }
}

/// One entry that the flags can carry, encoded and followed by any bytes, reads back as
/// itself and spans exactly its encoding.
pub proof fn lemma_record_round_trip(flags: FormatFlags, e: EntryView, tail: Seq<u8>)
    requires
        valid_entry(flags, e),
    ensures
        record_from(flags, entry_bytes(flags, e) + tail) == Ok::<(EntryView, nat), LogError>(
            (e, entry_bytes(flags, e).len()),
        ),
{
    lemma_auto_spec_u16_to_from_le_bytes();
    lemma_auto_spec_u64_to_from_le_bytes();
    let rec = entry_bytes(flags, e);
    let b = rec + tail;
    let head = head_len(flags);
    let type_len: int = if flags.mavlink_only { 0 } else { 1 };
    assert(rec.len() == head + e.payload.len());
    let rest = b.skip(head);
    assert(rest =~= e.payload + tail);
    if !flags.no_timestamp {
        assert(b.subrange(type_len, type_len + 8) =~= spec_u64_to_le_bytes(written_ts(e)));
    }
    if !flags.mavlink_only {
        assert(b[0] == e.entry_type.code());
        assert(b.subrange(head - 2, head) =~= spec_u16_to_le_bytes(e.payload.len() as u16));
    } else {
        assert(rest[0] == e.payload[0]);
        assert(e.payload.len() >= 8);
        assert(rest[1] == e.payload[1]);
        assert(rest[2] == e.payload[2]);
        assert(frame_len(rest) == frame_len(e.payload));
    }
    assert(rest.take(e.payload.len() as int) =~= e.payload);
}

/// Decoding the encoding of entries that the flags can carry gives back the same entries.
pub proof fn lemma_records_round_trip(flags: FormatFlags, es: Seq<EntryView>)
    requires
        forall|i: int| 0 <= i < es.len() ==> valid_entry(flags, #[trigger] es[i]),
    ensures
        records_from(flags, body_bytes(flags, es)) == Ok::<Seq<EntryView>, LogError>(es),
    decreases es.len(),
{
    if es.len() == 0 {
        assert(es =~= Seq::<EntryView>::empty());
    } else {
        let rest = es.drop_first();
        assert forall|i: int| 0 <= i < rest.len() implies valid_entry(flags, #[trigger] rest[i]) by {
            assert(rest[i] == es[i + 1]);
        }
        lemma_records_round_trip(flags, rest);
        let b = body_bytes(flags, es);
        let first = entry_bytes(flags, es[0]);
        assert(valid_entry(flags, es[0]));
        lemma_record_round_trip(flags, es[0], body_bytes(flags, rest));
        assert(b =~= first + body_bytes(flags, rest));
        assert(first.len() > 0);
        assert(b.skip(first.len() as int) =~= body_bytes(flags, rest));
        assert(seq![es[0]] + rest =~= es);
    }
}

/// The entry that a record written with these arguments reads back as.
pub open spec fn written_entry(flags: FormatFlags, t: EntryType, ts: u64, payload: Seq<u8>) -> EntryView {
    EntryView {
        entry_type: t,
        timestamp: if flags.no_timestamp {
            None
        } else {
            Some(ts)
        },
        payload,
    }
}

/// The bytes of records written one after another with the given type, timestamp and payload.
pub open spec fn written_body(flags: FormatFlags, writes: Seq<(EntryType, u64, Seq<u8>)>) -> Seq<u8>
    decreases writes.len(),
{
    if writes.len() == 0 {
        Seq::empty()
    } else {
        record_bytes(flags, writes[0].0, writes[0].1, writes[0].2) + written_body(
            flags,
            writes.drop_first(),
        )
    }
}

/// The entries that records written with the given arguments read back as.
pub open spec fn written_entries(flags: FormatFlags, writes: Seq<(EntryType, u64, Seq<u8>)>) -> Seq<
    EntryView,
> {
    writes.map_values(|w: (EntryType, u64, Seq<u8>)| written_entry(flags, w.0, w.1, w.2))
}

proof fn lemma_written_body(flags: FormatFlags, writes: Seq<(EntryType, u64, Seq<u8>)>)
    requires
        forall|i: int|
            0 <= i < writes.len() ==> record_refusal(
                flags,
                #[trigger] writes[i].0,
                writes[i].2,
            ) is None,
    ensures
        written_body(flags, writes) == body_bytes(flags, written_entries(flags, writes)),
        forall|i: int|
            0 <= i < writes.len() ==> valid_entry(flags, #[trigger] written_entries(flags, writes)[i]),
    decreases writes.len(),
{
    let es = written_entries(flags, writes);
    assert forall|i: int| 0 <= i < writes.len() implies valid_entry(flags, #[trigger] es[i]) by {
        assert(record_refusal(flags, writes[i].0, writes[i].2) is None);
    }
    if writes.len() > 0 {
        let rest = writes.drop_first();
        assert forall|i: int| 0 <= i < rest.len() implies record_refusal(
            flags,
            #[trigger] rest[i].0,
            rest[i].2,
        ) is None by {
            assert(rest[i] == writes[i + 1]);
        }
        lemma_written_body(flags, rest);
        assert(es.drop_first() =~= written_entries(flags, rest));
        let w = writes[0];
        assert(record_bytes(flags, w.0, w.1, w.2) =~= entry_bytes(flags, es[0]));
    } else {
        assert(es =~= Seq::<EntryView>::empty());
    }
}

/// Records that `pack_record` accepted, written one after another, read back as the entries that
/// were written, in order and with nothing left over.
pub proof fn lemma_accepted_records_read_back(
    flags: FormatFlags,
    writes: Seq<(EntryType, u64, Seq<u8>)>,
)
    requires
        forall|i: int|
            0 <= i < writes.len() ==> record_refusal(
                flags,
                #[trigger] writes[i].0,
                writes[i].2,
            ) is None,
    ensures
        records_from(flags, written_body(flags, writes)) == Ok::<Seq<EntryView>, LogError>(
            written_entries(flags, writes),
        ),
{
    lemma_written_body(flags, writes);
    lemma_records_round_trip(flags, written_entries(flags, writes));
}

/// An empty raw or text payload is accepted where the flags carry more than wire frames, and its
/// record is the header fields alone with a size field of zero.
pub proof fn lemma_empty_payload_record(flags: FormatFlags, t: EntryType, ts: u64)
    requires
        !flags.mavlink_only,
    ensures
        record_refusal(flags, t, Seq::empty()) is None,
        record_bytes(flags, t, ts, Seq::empty()).len() == head_len(flags),
        spec_u16_from_le_bytes(
            record_bytes(flags, t, ts, Seq::empty()).subrange(head_len(flags) - 2, head_len(flags)),
        ) == 0,
{
    lemma_auto_spec_u16_to_from_le_bytes();
    lemma_auto_spec_u64_to_from_le_bytes();
    let r = record_bytes(flags, t, ts, Seq::empty());
    assert(r.subrange(head_len(flags) - 2, head_len(flags)) =~= spec_u16_to_le_bytes(0u16));
}

} // verus!

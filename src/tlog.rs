//! Forward reading of a TLOG stream: records of a big-endian 64-bit timestamp in microseconds
//! followed by one wire frame, with no header. A byte that starts no frame is skipped, so that
//! reading goes on at the next frame.
use vstd::bytes::*;
use vstd::prelude::*;
use vstd::slice::*;

use crate::error::LogError;
use crate::reader::{after_failure, failure_of, lemma_after_failure_twice};
use crate::record::{frame_len, frame_length, EntryType, EntryView, LogRecord};

verus! {

/// The 64-bit integer that 8 bytes hold, most significant byte first.
pub open spec fn u64_from_be(s: Seq<u8>) -> u64 {
    spec_u64_from_le_bytes(s.reverse())
}

/// The record at the start of `b` and the number of bytes it spans, or why there is none.
pub open spec fn tlog_record_from(b: Seq<u8>) -> Result<(EntryView, nat), LogError> {
    if b.len() < 8 {
        Err(LogError::Truncated)
    } else {
        let rest = b.skip(8);
        match frame_len(rest) {
            Err(e) => Err(e),
            Ok(n) => if rest.len() < n {
                Err(LogError::Truncated)
            } else {
                Ok(
                    (
                        EntryView {
                            entry_type: EntryType::Mavlink,
                            timestamp: Some(u64_from_be(b.take(8))),
                            payload: rest.take(n as int),
                        },
                        (8 + n) as nat,
                    ),
                )
            },
        }
    }
}

/// The next record at or after `pos`, with the position where it starts and the one after it;
/// `None` at the end of `b`. A position where no record can be read is passed over; where no
/// later position yields a record, the first failure other than a byte that starts no wire frame
/// is reported.
pub open spec fn tlog_scan(b: Seq<u8>, pos: int) -> Result<Option<(EntryView, int, int)>, LogError>
    decreases b.len() - pos,
{
    if pos < 0 || pos >= b.len() {
        Ok(None)
    } else {
        match tlog_record_from(b.skip(pos)) {
            Ok((e, n)) => Ok(Some((e, pos, pos + n))),
            Err(x) => after_failure(failure_of(x), tlog_scan(b, pos + 1)),
        }
    }
}

fn read_be64(b: &[u8], at: usize) -> (r: u64)
    requires
        at + 8 <= b@.len(),
    ensures
        r == u64_from_be(b@.subrange(at as int, at + 8)),
{
    // Reading the length bounds it by usize::MAX, so that `at + 7` cannot overflow.
    let _len: usize = b.len();
    let bytes: [u8; 8] = [
        b[at + 7],
        b[at + 6],
        b[at + 5],
        b[at + 4],
        b[at + 3],
        b[at + 2],
        b[at + 1],
        b[at],
    ];
    assert(bytes@ =~= b@.subrange(at as int, at + 8).reverse());
    u64_from_le_bytes(bytes.as_slice())
}

/// Decodes the TLOG record that starts at `pos`; returns it with the position after it.
pub fn unpack_tlog_record(bytes: &[u8], pos: usize) -> (r: Result<(LogRecord, usize), LogError>)
    requires
        pos <= bytes@.len(),
    ensures
        match r {
            Ok((rec, next)) => tlog_record_from(bytes@.skip(pos as int)) == Ok::<
                (EntryView, nat),
                LogError,
            >((rec@, (next - pos) as nat)) && pos < next <= bytes@.len(),
            Err(e) => tlog_record_from(bytes@.skip(pos as int)) == Err::<(EntryView, nat), LogError>(
                e,
            ),
        },
{
    let ghost b = bytes@.skip(pos as int);
    let n = bytes.len();
    if n - pos < 8 {
        return Err(LogError::Truncated);
    }
    let ts = read_be64(bytes, pos);
    assert(bytes@.subrange(pos as int, pos + 8) =~= b.take(8));
    let at = pos + 8;
    let tail = slice_subrange(bytes, at, n);
    assert(tail@ =~= b.skip(8));
    let size = match frame_length(tail) {
        Ok(len) => len,
        Err(e) => return Err(e),
    };
    if n - at < size {
        return Err(LogError::Truncated);
    }
    let payload = slice_to_vec(slice_subrange(bytes, at, at + size));
    assert(payload@ =~= b.skip(8).take(size as int));
    Ok((LogRecord { entry_type: EntryType::Mavlink, timestamp: Some(ts), payload }, at + size))
}

/// A reader over the bytes of a TLOG stream.
pub struct TlogReader {
    data: Vec<u8>,
    pos: usize,
    skipped: usize,
}

impl TlogReader {
    /// The bytes of the stream.
    pub closed spec fn data_view(&self) -> Seq<u8> {
        self.data@
    }

    /// The position of the next read.
    pub closed spec fn position(&self) -> int {
        self.pos as int
    }

    /// How many bytes were passed over so far because they started no frame.
    pub closed spec fn skipped_view(&self) -> int {
        self.skipped as int
    }

    /// The reader's consistency: the counts stay within the stream.
    pub closed spec fn wf(&self) -> bool {
        self.skipped <= self.pos <= self.data@.len()
    }

    /// A reader at the start of `bytes`.
    pub fn new(bytes: Vec<u8>) -> (r: Self)
        ensures
            r.wf(),
            r.data_view() == bytes@,
            r.position() == 0,
            r.skipped_view() == 0,
    {
        TlogReader { data: bytes, pos: 0, skipped: 0 }
    }

    /// How many bytes were passed over so far because they started no frame.
    pub fn skipped(&self) -> (r: usize)
        ensures
            r == self.skipped_view(),
    {
        self.skipped
    }

    /// Reads the next record: `None` at the end of the stream. Positions where no record can be
    /// read are passed over and counted; where no later position yields a record, the first
    /// failure other than a byte that starts no frame is returned and the position kept.
    pub fn parse_next_entry(&mut self) -> (r: Result<Option<LogRecord>, LogError>)
        requires
            old(self).wf(),
        ensures
            final(self).wf(),
            final(self).data_view() == old(self).data_view(),
            match tlog_scan(old(self).data_view(), old(self).position()) {
                Ok(None) => r is Ok && r->Ok_0 is None && final(self).position() == old(
                    self,
                ).data_view().len() && final(self).skipped_view() == old(self).skipped_view() + (
                old(self).data_view().len() - old(self).position()),
                Ok(Some((e, start, next))) => r is Ok && r->Ok_0 is Some && r->Ok_0->Some_0@ == e
                    && final(self).position() == next && final(self).skipped_view() == old(
                    self,
                ).skipped_view() + (start - old(self).position()),
                Err(x) => r == Err::<Option<LogRecord>, LogError>(x) && final(self).position()
                    == old(self).position() && final(self).skipped_view() == old(
                    self,
                ).skipped_view(),
            },
    {
        let ghost b = self.data@;
        let start_pos = self.pos;
        let mut p = self.pos;
        let mut first: Option<LogError> = None;
        while p < self.data.len()
            invariant
                *self == *old(self),
                b == self.data@,
                self.skipped <= start_pos <= p <= b.len(),
                self.pos == start_pos,
                tlog_scan(b, start_pos as int) == after_failure(first, tlog_scan(b, p as int)),
            decreases b.len() - p,
        {
            match unpack_tlog_record(self.data.as_slice(), p) {
                Ok((rec, next)) => {
                    self.skipped = self.skipped + (p - start_pos);
                    self.pos = next;
                    return Ok(Some(rec));
                },
                Err(e) => {
                    proof {
                        lemma_after_failure_twice(first, failure_of(e), tlog_scan(b, p + 1));
                    }
                    if first.is_none() && e != LogError::BadMagic {
                        first = Some(e);
                    }
                    p = p + 1;
                },
            }
        }
        if let Some(e) = first {
            return Err(e);
        }
        self.skipped = self.skipped + (p - start_pos);
        self.pos = p;
        Ok(None)
    }
}

} // verus!

//! Forward reading of a MAV-LOG file held in memory: the header, then one record at a time.
//! Under the wire-frames-only flag a byte that starts no frame is skipped, so that reading
//! goes on at the next frame.
use vstd::prelude::*;

use crate::error::LogError;
use crate::header::{decoded_header, FileHeader, FormatFlags, HeaderView};
use crate::record::{
    body_bytes, entry_bytes, lemma_record_round_trip, record_from, unpack_next_record, valid_entry,
    EntryView, LogRecord,
};

verus! {

/// What a failure at one position leaves to report: nothing for a byte that starts no wire
/// frame, else the failure itself.
pub open spec fn failure_of(e: LogError) -> Option<LogError> {
    if e == LogError::BadMagic {
        None
    } else {
        Some(e)
    }
}

/// The outcome of reading on after an earlier position failed with `first` left to report: a
/// record found later is the outcome; otherwise `first` is reported where there is one.
pub open spec fn after_failure(
    first: Option<LogError>,
    later: Result<Option<(EntryView, int, int)>, LogError>,
) -> Result<Option<(EntryView, int, int)>, LogError> {
    match later {
        Ok(Some(x)) => Ok(Some(x)),
        Ok(None) => match first {
            Some(e) => Err(e),
            None => Ok(None),
        },
        Err(y) => match first {
            Some(e) => Err(e),
            None => Err(y),
        },
    }
}

/// The earlier of two failures left to report.
pub open spec fn first_failure(a: Option<LogError>, b: Option<LogError>) -> Option<LogError> {
    match a {
        Some(e) => Some(e),
        None => b,
    }
}

/// Reporting the earlier of two failures is the same as reporting them in turn.
pub(crate) proof fn lemma_after_failure_twice(
    a: Option<LogError>,
    b: Option<LogError>,
    r: Result<Option<(EntryView, int, int)>, LogError>,
)
    ensures
        after_failure(a, after_failure(b, r)) == after_failure(first_failure(a, b), r),
{
}

/// The next record at or after `pos`, with the position where it starts and the one after it;
/// `None` at the end of `b`. A position where no record can be read is passed over, and reading
/// goes on one byte later; where no later position yields a record, the first failure other than
/// a byte that starts no wire frame is reported.
pub open spec fn scan(flags: FormatFlags, b: Seq<u8>, pos: int) -> Result<
    Option<(EntryView, int, int)>,
    LogError,
>
    decreases b.len() - pos,
{
    if pos < 0 || pos >= b.len() {
        Ok(None)
    } else {
        match record_from(flags, b.skip(pos)) {
            Ok((e, n)) => Ok(Some((e, pos, pos + n))),
            Err(x) => after_failure(failure_of(x), scan(flags, b, pos + 1)),
        }
    }
}

/// A reader over the bytes of a MAV-LOG file.
pub struct MavLogReader {
    header: FileHeader,
    data: Vec<u8>,
    pos: usize,
    skipped: usize,
}

impl MavLogReader {
    /// The header at the start of the file.
    pub closed spec fn header_view(&self) -> HeaderView {
        self.header@
    }

    /// The record layout of the file.
    pub closed spec fn flags(&self) -> FormatFlags {
        self.header.format_flags
    }

    /// The bytes of the file.
    pub closed spec fn data_view(&self) -> Seq<u8> {
        self.data@
    }

    /// The position of the next read.
    pub closed spec fn position(&self) -> int {
        self.pos as int
    }

    /// How many bytes were passed over so far because they started no frame.
    pub closed spec fn skipped_view(&self) -> int {
        self.skipped as int
    }

    /// The reader's consistency: the counts stay within the file.
    pub closed spec fn wf(&self) -> bool {
        self.skipped <= self.pos <= self.data@.len()
    }

    /// Reads the header at the start of `bytes`; the records follow it.
    pub fn new(bytes: Vec<u8>) -> (r: Result<Self, LogError>)
        ensures
            match r {
                Ok(rd) => {
                    &&& rd.wf()
                    &&& decoded_header(bytes@) == Ok::<(HeaderView, nat), LogError>(
                        (rd.header_view(), rd.position() as nat),
                    )
                    &&& rd.flags() == rd.header_view().format_flags
                    &&& rd.data_view() == bytes@
                    &&& rd.skipped_view() == 0
                },
                Err(e) => decoded_header(bytes@) == Err::<(HeaderView, nat), LogError>(e),
            },
    {
        match FileHeader::decode(bytes.as_slice()) {
            Ok((header, pos)) => Ok(MavLogReader { header, data: bytes, pos, skipped: 0 }),
            Err(e) => Err(e),
        }
    }

    pub fn header(&self) -> (r: &FileHeader)
        ensures
            r@ == self.header_view(),
            r.format_flags == self.flags(),
    {
        &self.header
    }

    /// How many bytes were passed over so far because they started no frame.
    pub fn skipped(&self) -> (r: usize)
        ensures
            r == self.skipped_view(),
    {
        self.skipped
    }

    /// Reads the next record: `None` at the end of the file. Positions where no record can be
    /// read are passed over and counted; where no later position yields a record, the first
    /// failure other than a byte that starts no frame is returned and the position kept.
    pub fn parse_next_entry(&mut self) -> (r: Result<Option<LogRecord>, LogError>)
        requires
            old(self).wf(),
        ensures
            final(self).wf(),
            final(self).header_view() == old(self).header_view(),
            final(self).flags() == old(self).flags(),
            final(self).data_view() == old(self).data_view(),
            match scan(old(self).flags(), old(self).data_view(), old(self).position()) {
                Ok(None) => r is Ok && r->Ok_0 is None && final(self).position() == old(
                    self,
                ).data_view().len() && final(self).skipped_view() == old(self).skipped_view() + (
                old(self).data_view().len() - old(self).position()),
                Ok(Some((e, start, next))) => r is Ok && r->Ok_0 is Some && r->Ok_0->Some_0@ == e
                    && final(self).position() == next && final(self).skipped_view() == old(
                    self,
                ).skipped_view() + (start - old(self).position()),
                Err(x) => r == Err::<Option<LogRecord>, LogError>(x) && final(self).position()
                    == old(self).position() && final(self).skipped_view() == old(
                    self,
                ).skipped_view(),
            },
    {
        let ghost b = self.data@;
        let ghost flags = self.header.format_flags;
        let start_pos = self.pos;
        let mut p = self.pos;
        let mut first: Option<LogError> = None;
        while p < self.data.len()
            invariant
                *self == *old(self),
                b == self.data@,
                flags == self.header.format_flags,
                self.skipped <= start_pos <= p <= b.len(),
                self.pos == start_pos,
                scan(flags, b, start_pos as int) == after_failure(first, scan(flags, b, p as int)),
            decreases b.len() - p,
        {
            match unpack_next_record(&self.header.format_flags, self.data.as_slice(), p) {
                Ok((rec, next)) => {
                    self.skipped = self.skipped + (p - start_pos);
                    self.pos = next;
                    return Ok(Some(rec));
                },
                Err(e) => {
                    proof {
                        lemma_after_failure_twice(first, failure_of(e), scan(flags, b, p + 1));
                    }
                    if first.is_none() && e != LogError::BadMagic {
                        first = Some(e);
                    }
                    p = p + 1;
                },
            }
        }
        if let Some(e) = first {
            return Err(e);
        }
        self.skipped = self.skipped + (p - start_pos);
        self.pos = p;
        Ok(None)
    }
}

/// A stray byte put between records, at which no record can be read, costs the reader that byte
/// alone: reading from it yields the next record, counting one skipped byte.
pub proof fn lemma_stray_byte_between_records(
    flags: FormatFlags,
    before: Seq<u8>,
    stray: u8,
    es: Seq<EntryView>,
)
    requires
        es.len() > 0,
        forall|i: int| 0 <= i < es.len() ==> valid_entry(flags, #[trigger] es[i]),
        record_from(flags, seq![stray] + body_bytes(flags, es)) is Err,
    ensures
        ({
            let b = before + seq![stray] + body_bytes(flags, es);
            let p = before.len() as int;
            scan(flags, b, p) == Ok::<Option<(EntryView, int, int)>, LogError>(
                Some((es[0], p + 1, p + 1 + entry_bytes(flags, es[0]).len())),
            )
        }),
{
    let b = before + seq![stray] + body_bytes(flags, es);
    let p = before.len() as int;
    assert(b.skip(p) =~= seq![stray] + body_bytes(flags, es));
    assert(valid_entry(flags, es[0]));
    lemma_record_round_trip(flags, es[0], body_bytes(flags, es.drop_first()));
    let n = entry_bytes(flags, es[0]).len();
    assert(b.skip(p + 1) =~= entry_bytes(flags, es[0]) + body_bytes(flags, es.drop_first()));
    assert(record_from(flags, b.skip(p + 1)) == Ok::<(EntryView, nat), LogError>((es[0], n)));
    assert(p + 1 < b.len());
    assert(scan(flags, b, p + 1) == Ok::<Option<(EntryView, int, int)>, LogError>(
        Some((es[0], p + 1, p + 1 + n)),
    ));
}

} // verus!

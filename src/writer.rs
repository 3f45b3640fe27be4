//! The MAV-LOG writer's decisions: the header it starts a file with, the bytes of each record
//! and the timestamp each record carries. Whoever owns the file hands the bytes on.
use vstd::prelude::*;
use vstd::utf8::encode_utf8;

use crate::error::LogError;
use crate::header::{lemma_default_names_fit, DefinitionView, FileHeader, HeaderView, FormatFlags, MavlinkDefinitionPayloadType, MavlinkMessageDefinition};
use crate::record::{pack_record, record_bytes, record_refusal, EntryType};

verus! {

/// The timestamp of a record from the time elapsed since the writer's start, and whether the
/// start must be taken anew. Where the clock was seen to go backward (`None`), the record
/// carries zero and the start is reset, so that timestamps never decrease within a start.
pub fn record_timestamp(elapsed_us: Option<u64>) -> (r: (u64, bool))
    ensures
        match elapsed_us {
            Some(t) => r == (t, false),
            None => r == (0u64, true),
        },
{
    match elapsed_us {
        Some(t) => (t, false),
        None => (0, true),
    }
}

/// The size limit to hand to a sink that rotates once a record would take the file past it.
/// With no backups kept rotation is disabled: the limit is one that no file reaches, so the
/// file grows without bound and is never renamed.
pub fn rotation_threshold(max_bytes: u64, backup_count: usize) -> (r: u64)
    ensures
        backup_count == 0 ==> r == u64::MAX,
        backup_count > 0 ==> r == max_bytes,
{
    if backup_count == 0 {
        u64::MAX
    } else {
        max_bytes
    }
}

/// A MAV-LOG writer: its header, the header's bytes, which start the file and every file
/// that rotation begins, and whether it is still open.
pub struct MavLogWriter {
    header: FileHeader,
    prefix: Vec<u8>,
    open: bool,
}

impl MavLogWriter {
    /// The header that the file starts with.
    pub closed spec fn header_view(&self) -> HeaderView {
        self.header@
    }

    /// The bytes that start each file.
    pub closed spec fn prefix_view(&self) -> Seq<u8> {
        self.prefix@
    }

    /// The record layout in use.
    pub closed spec fn flags(&self) -> FormatFlags {
        self.header.format_flags
    }

    /// The writer has not been closed.
    pub closed spec fn is_open(&self) -> bool {
        self.open
    }

    /// A writer with a new header: the given flags and definition, or the defaults. Refuses a
    /// definition whose dialect is longer than 32 bytes.
    pub fn new(
        format_flags: Option<FormatFlags>,
        message_definition: Option<MavlinkMessageDefinition>,
    ) -> (r: Result<Self, LogError>)
        ensures
            match r {
                Ok(w) => {
                    &&& w.prefix_view() == w.header_view().bytes()
                    &&& w.is_open()
                    &&& w.header_view().format_version == 1
                    &&& w.header_view().src_application_id == "mavlink_logger"@
                    &&& w.flags() == match format_flags {
                        Some(f) => f,
                        None => FormatFlags { mavlink_only: false, no_timestamp: false },
                    }
                    &&& match message_definition {
                        Some(d) => w.header_view().message_definition == d@,
                        None => w.header_view().message_definition == (DefinitionView {
                            version_major: 2,
                            version_minor: 0,
                            dialect: "common"@,
                            payload_type: MavlinkDefinitionPayloadType::NoPayload,
                            size: 0,
                            payload: None,
                        }),
                    }
                },
                Err(e) => e == LogError::FieldTooLong && match message_definition {
                    Some(d) => encode_utf8(d@.dialect).len() > 32,
                    None => false,
                },
            },
    {
        let flags = match format_flags {
            Some(f) => f,
            None => FormatFlags::default(),
        };
        let definition = match message_definition {
            Some(d) => d,
            None => MavlinkMessageDefinition::default(),
        };
        let header = FileHeader::new(flags, definition);
        proof {
            lemma_default_names_fit();
        }
        let prefix = match header.pack() {
            Ok(p) => p,
            Err(e) => return Err(e),
        };
        Ok(MavLogWriter { header, prefix, open: true })
    }

    pub fn header(&self) -> (r: &FileHeader)
        ensures
            r@ == self.header_view(),
            r.format_flags == self.flags(),
    {
        &self.header
    }

    /// The bytes that start the file and every file that rotation begins.
    pub fn prefix(&self) -> (r: &[u8])
        ensures
            r@ == self.prefix_view(),
    {
        self.prefix.as_slice()
    }

    /// Closes the writer; closing again changes nothing.
    pub fn close(&mut self)
        ensures
            !final(self).is_open(),
            final(self).header_view() == old(self).header_view(),
            final(self).flags() == old(self).flags(),
            final(self).prefix_view() == old(self).prefix_view(),
    {
        self.open = false;
    }

    /// The record for an entry written `elapsed_us` after the writer's start (`None` where the
    /// clock went backward: see `record_timestamp`).
    pub fn encode(&self, entry_type: EntryType, elapsed_us: Option<u64>, data: &[u8]) -> (r: Result<
        Vec<u8>,
        LogError,
    >)
        ensures
            encoded(self, entry_type, elapsed_us, data@, r),
    {
        if !self.open {
            return Err(LogError::Closed);
        }
        let (ts, _reset) = record_timestamp(elapsed_us);
        pack_record(&self.header.format_flags, entry_type, ts, data)
    }

    /// The record for a wire frame, given as its serialized bytes.
    pub fn write_mavlink(&self, elapsed_us: Option<u64>, frame: &[u8]) -> (r: Result<
        Vec<u8>,
        LogError,
    >)
        ensures
            encoded(self, EntryType::Mavlink, elapsed_us, frame@, r),
    {
        self.encode(EntryType::Mavlink, elapsed_us, frame)
    }

    /// The record for a text, as its UTF-8 bytes.
    pub fn write_text(&self, elapsed_us: Option<u64>, text: &str) -> (r: Result<Vec<u8>, LogError>)
        ensures
            encoded(self, EntryType::Text, elapsed_us, encode_utf8(text@), r),
    {
        self.encode(EntryType::Text, elapsed_us, text.as_bytes())
    }

    /// The record for raw bytes.
    pub fn write_raw(&self, elapsed_us: Option<u64>, data: &[u8]) -> (r: Result<Vec<u8>, LogError>)
        ensures
            encoded(self, EntryType::Raw, elapsed_us, data@, r),
    {
        self.encode(EntryType::Raw, elapsed_us, data)
    }
}

/// `r` is what the writer `w` produces for the entry: `Closed` after close, then the reason
/// `record_refusal` gives, and otherwise the record with the timestamp that `record_timestamp`
/// gives.
pub open spec fn encoded(
    w: &MavLogWriter,
    t: EntryType,
    elapsed_us: Option<u64>,
    data: Seq<u8>,
    r: Result<Vec<u8>, LogError>,
) -> bool {
    let flags = w.flags();
    let ts: u64 = match elapsed_us {
        Some(e) => e,
        None => 0,
    };
    match r {
        Ok(v) => w.is_open() && record_refusal(flags, t, data) is None && v@ == record_bytes(
            flags,
            t,
            ts,
            data,
        ),
        Err(e) => if !w.is_open() {
            e == LogError::Closed
        } else {
            record_refusal(flags, t, data) == Some(e)
        },
    }
}

} // verus!

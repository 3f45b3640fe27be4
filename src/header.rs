use vstd::bytes::*;
use vstd::prelude::*;
use vstd::slice::*;
use vstd::utf8::*;

use std::time::SystemTime;

use crate::bytes::{push_bytes, push_le16, push_le32, push_le64, read_le16, read_le32, read_le64};
use crate::error::LogError;

verus! {

/// Optional changes to the record layout, packed into a 16-bit little-endian word.
#[derive(Clone, Copy, Debug, PartialEq, Eq, Structural)]
pub struct FormatFlags {
    /// Records hold wire frames only: the type byte and the size field are left out.
    pub mavlink_only: bool,
    /// Records carry no timestamp.
    pub no_timestamp: bool,
}

/// The 16-bit word that the flags pack into: bit 0 and bit 1, the other bits zero.
pub open spec fn flag_word(f: FormatFlags) -> u16 {
    ((if f.mavlink_only { 1int } else { 0int }) + (if f.no_timestamp { 2int } else { 0int })) as u16
}

/// The flags that a packed word carries; bits 2 to 15 are ignored.
pub open spec fn flags_of_word(w: u16) -> FormatFlags {
    FormatFlags { mavlink_only: w & 1 != 0, no_timestamp: w & 2 != 0 }
}

/// The two bytes that the flags take on the wire.
pub open spec fn flags_bytes(f: FormatFlags) -> Seq<u8> {
    spec_u16_to_le_bytes(flag_word(f))
}

impl FormatFlags {
    pub fn unpack(packed_data: u16) -> (r: Self)
        ensures
            r == flags_of_word(packed_data),
    {
        FormatFlags { mavlink_only: packed_data & 1 != 0, no_timestamp: packed_data & 2 != 0 }
    }

    pub fn pack(&self) -> (r: [u8; 2])
        ensures
            r@ == flags_bytes(*self),
    {
        let low: u16 = if self.mavlink_only { 1 } else { 0 };
        let high: u16 = if self.no_timestamp { 2 } else { 0 };
        let word = u16_to_le_bytes(low + high);
        let r = [word[0], word[1]];
        assert(r@ =~= flags_bytes(*self));
        r
    }
}

impl Default for FormatFlags {
    fn default() -> (r: Self)
        ensures
            !r.mavlink_only,
            !r.no_timestamp,
    {
        FormatFlags { mavlink_only: false, no_timestamp: false }
    }
}

/// Packing the flags and reading the word back gives the same flags; reading any word and
/// packing again keeps its two low bits and clears the others.
pub proof fn lemma_flags_round_trip(f: FormatFlags, w: u16)
    ensures
        flags_of_word(flag_word(f)) == f,
        flag_word(flags_of_word(w)) == w & 3,
{
    let b = flag_word(f);
    assert((b & 1 != 0 <==> f.mavlink_only) && (b & 2 != 0 <==> f.no_timestamp)) by {
        if f.mavlink_only {
            if f.no_timestamp {
                assert(3u16 & 1 != 0 && 3u16 & 2 != 0) by (bit_vector);
            } else {
                assert(1u16 & 1 != 0 && 1u16 & 2 == 0) by (bit_vector);
            }
        } else {
            if f.no_timestamp {
                assert(2u16 & 1 == 0 && 2u16 & 2 != 0) by (bit_vector);
            } else {
                assert(0u16 & 1 == 0 && 0u16 & 2 == 0) by (bit_vector);
            }
        }
    }
    assert((w & 3) == (if w & 1 != 0 { 1u16 } else { 0u16 }) + (if w & 2 != 0 { 2u16 } else {
        0u16
    })) by (bit_vector);
}

/// How a message definition identifies the messages in use.
#[derive(Clone, Copy, Debug, PartialEq, Eq, Structural)]
pub enum MavlinkDefinitionPayloadType {
    /// No payload: the main definition of the dialect applies.
    NoPayload,
    /// UTF-8, space-delimited URLs of XML definition files.
    Utf8SpaceDelimitedUrlsForXMLFiles,
    /// UTF-8 XML.
    Utf8Xml,
}

/// The payload type that a wire code names, if any.
pub open spec fn payload_type_of(code: u16) -> Option<MavlinkDefinitionPayloadType> {
    if code == 0 {
        Some(MavlinkDefinitionPayloadType::NoPayload)
    } else if code == 1 {
        Some(MavlinkDefinitionPayloadType::Utf8SpaceDelimitedUrlsForXMLFiles)
    } else if code == 2 {
        Some(MavlinkDefinitionPayloadType::Utf8Xml)
    } else {
        None
    }
}

impl MavlinkDefinitionPayloadType {
    /// The 16-bit code of the payload type on the wire.
    pub open spec fn code(self) -> u16 {
        match self {
            MavlinkDefinitionPayloadType::NoPayload => 0,
            MavlinkDefinitionPayloadType::Utf8SpaceDelimitedUrlsForXMLFiles => 1,
            MavlinkDefinitionPayloadType::Utf8Xml => 2,
        }
    }

    pub fn as_u16(&self) -> (r: u16)
        ensures
            r == self.code(),
    {
        match self {
            MavlinkDefinitionPayloadType::NoPayload => 0,
            MavlinkDefinitionPayloadType::Utf8SpaceDelimitedUrlsForXMLFiles => 1,
            MavlinkDefinitionPayloadType::Utf8Xml => 2,
        }
    }

    /// Reads a wire code; codes above 2 are refused.
    pub fn try_from(value: u16) -> (r: Result<Self, LogError>)
        ensures
            match r {
                Ok(t) => payload_type_of(value) == Some(t),
                Err(e) => payload_type_of(value) is None && e == LogError::UnknownDefinitionPayloadType,
            },
    {
        match value {
            0 => Ok(MavlinkDefinitionPayloadType::NoPayload),
            1 => Ok(MavlinkDefinitionPayloadType::Utf8SpaceDelimitedUrlsForXMLFiles),
            2 => Ok(MavlinkDefinitionPayloadType::Utf8Xml),
            _ => Err(LogError::UnknownDefinitionPayloadType),
        }
    }
}

/// `s` followed by zero bytes up to length `n`.
pub open spec fn padded(s: Seq<u8>, n: nat) -> Seq<u8> {
    s + Seq::new((n - s.len()) as nat, |_i: int| 0u8)
}

/// The index of the first zero byte of `s` at or after `i`, or the length of `s`.
pub open spec fn nul_end(s: Seq<u8>, i: int) -> int
    decreases s.len() - i,
{
    if i < 0 || i >= s.len() {
        s.len() as int
    } else if s[i] == 0 {
        i
    } else {
        nul_end(s, i + 1)
    }
}

proof fn lemma_nul_end_bounds(s: Seq<u8>, i: int)
    requires
        0 <= i <= s.len(),
    ensures
        i <= nul_end(s, i) <= s.len(),
    decreases s.len() - i,
{
    if i < s.len() && s[i] != 0 {
        lemma_nul_end_bounds(s, i + 1);
    }
}

/// The bytes of a padded text field, up to its first zero byte.
pub open spec fn until_nul(s: Seq<u8>) -> Seq<u8> {
    s.take(nul_end(s, 0))
}

/// A text that fits a 32-byte field and reads back unchanged: at most 32 bytes, none zero.
pub open spec fn fits_text_field(t: Seq<char>) -> bool {
    encode_utf8(t).len() <= 32 && !encode_utf8(t).contains(0u8)
}

proof fn lemma_ascii_name_fits(t: Seq<char>)
    requires
        t.len() <= 32,
        forall|i: int| 0 <= i < t.len() ==> '\u{1}' <= #[trigger] t[i] <= '\u{7f}',
    ensures
        fits_text_field(t),
{
    assert(is_ascii_chars(t));
    is_ascii_chars_encode_utf8(t);
    if encode_utf8(t).contains(0u8) {
        let i = choose|i: int| 0 <= i < encode_utf8(t).len() && encode_utf8(t)[i] == 0u8;
        assert(t[i] as u8 == 0u8);
    }
}

/// The default application name and the default dialect fit their fields.
pub proof fn lemma_default_names_fit()
    ensures
        fits_text_field("mavlink_logger"@),
        fits_text_field("common"@),
{
    reveal_strlit("mavlink_logger");
    reveal_strlit("common");
    lemma_ascii_name_fits("mavlink_logger"@);
    lemma_ascii_name_fits("common"@);
}

/// Relies on String::from_utf8: it succeeds exactly on valid UTF-8, with the characters that
/// the bytes encode.
#[verifier::external_body]
fn string_from_utf8(bytes: Vec<u8>) -> (r: Option<String>)
    ensures
        match r {
            Some(s) => valid_utf8(bytes@) && s@ == decode_utf8(bytes@),
            None => !valid_utf8(bytes@),
        },
{
    String::from_utf8(bytes).ok()
}

/// Appends `src` and then zero bytes up to `n` bytes in all.
fn push_padded(out: &mut Vec<u8>, src: &[u8], n: usize)
    requires
        src@.len() <= n,
    ensures
        final(out)@ == old(out)@ + padded(src@, n as nat),
{
    push_bytes(out, src);
    let mut i: usize = src.len();
    while i < n
        invariant
            src@.len() <= i <= n,
            out@ == old(out)@ + src@ + Seq::new((i - src@.len()) as nat, |_j: int| 0u8),
        decreases n - i,
    {
        out.push(0u8);
        i = i + 1;
        assert(Seq::new((i - src@.len()) as nat, |_j: int| 0u8) =~= Seq::new(
            (i - 1 - src@.len()) as nat,
            |_j: int| 0u8,
        ).push(0u8));
    }
    assert(old(out)@ + src@ + Seq::new((n - src@.len()) as nat, |_j: int| 0u8) =~= old(out)@
        + padded(src@, n as nat));
}

/// The index of the first zero byte in `b[start..stop]`, or `stop`.
fn text_end(b: &[u8], start: usize, stop: usize) -> (r: usize)
    requires
        start <= stop <= b@.len(),
    ensures
        r == start + nul_end(b@.subrange(start as int, stop as int), 0),
        start <= r <= stop,
{
    let ghost s = b@.subrange(start as int, stop as int);
    let mut i: usize = start;
    while i < stop && b[i] != 0
        invariant
            start <= i <= stop <= b@.len(),
            s == b@.subrange(start as int, stop as int),
            nul_end(s, (i - start) as int) == nul_end(s, 0),
        decreases stop - i,
    {
        assert(s[(i - start) as int] == b@[i as int]);
        i = i + 1;
    }
    if i < stop {
        assert(s[(i - start) as int] == b@[i as int]);
    }
    proof {
        lemma_nul_end_bounds(s, 0);
    }
    i
}

/// Decodes the text of a padded field `b[start..stop]`, up to its first zero byte.
fn read_text(b: &[u8], start: usize, stop: usize) -> (r: Option<String>)
    requires
        start <= stop <= b@.len(),
    ensures
        match r {
            Some(s) => valid_utf8(until_nul(b@.subrange(start as int, stop as int)))
                && s@ == decode_utf8(until_nul(b@.subrange(start as int, stop as int))),
            None => !valid_utf8(until_nul(b@.subrange(start as int, stop as int))),
        },
{
    let end = text_end(b, start, stop);
    let bytes = slice_to_vec(slice_subrange(b, start, end));
    assert(bytes@ =~= until_nul(b@.subrange(start as int, stop as int)));
    string_from_utf8(bytes)
}

/// Which protocol dialect a log uses, and how its message definitions are given.
pub struct MavlinkMessageDefinition {
    /// Major version of the wire protocol.
    pub version_major: u32,
    /// Minor version of the wire protocol.
    pub version_minor: u32,
    /// The dialect's name; at most 32 bytes on the wire.
    pub dialect: String,
    /// How the trailing payload identifies the message definitions.
    pub payload_type: MavlinkDefinitionPayloadType,
    /// Length in bytes of the trailing payload.
    pub size: u32,
    /// The trailing payload, where there is one.
    pub payload: Option<Vec<u8>>,
}

/// A message definition as values.
pub struct DefinitionView {
    pub version_major: u32,
    pub version_minor: u32,
    pub dialect: Seq<char>,
    pub payload_type: MavlinkDefinitionPayloadType,
    pub size: u32,
    pub payload: Option<Seq<u8>>,
}

impl View for MavlinkMessageDefinition {
    type V = DefinitionView;

    open spec fn view(&self) -> DefinitionView {
        DefinitionView {
            version_major: self.version_major,
            version_minor: self.version_minor,
            dialect: self.dialect@,
            payload_type: self.payload_type,
            size: self.size,
            payload: match self.payload {
                Some(p) => Some(p@),
                None => None,
            },
        }
    }
}

impl DefinitionView {
    /// The definition is consistent: its dialect fits the field and reads back, the size is
    /// zero exactly when there is no payload, and a payload holds `size` bytes.
    pub open spec fn wf(self) -> bool {
        &&& fits_text_field(self.dialect)
        &&& (self.payload_type == MavlinkDefinitionPayloadType::NoPayload) == (self.size == 0)
        &&& match self.payload {
            Some(p) => self.payload_type != MavlinkDefinitionPayloadType::NoPayload && p.len()
                == self.size,
            None => self.payload_type == MavlinkDefinitionPayloadType::NoPayload,
        }
    }

    /// The trailing payload bytes that are written for this definition.
    pub open spec fn payload_bytes(self) -> Seq<u8> {
        if self.payload_type != MavlinkDefinitionPayloadType::NoPayload {
            match self.payload {
                Some(p) => p,
                None => Seq::empty(),
            }
        } else {
            Seq::empty()
        }
    }

    /// The 46 fixed bytes of the definition on the wire.
    pub open spec fn fixed_bytes(self) -> Seq<u8> {
        spec_u32_to_le_bytes(self.version_major) + spec_u32_to_le_bytes(self.version_minor)
            + padded(encode_utf8(self.dialect), 32) + spec_u16_to_le_bytes(
            self.payload_type.code(),
        ) + spec_u32_to_le_bytes(self.size)
    }

    /// The definition on the wire: the fixed bytes, then the payload.
    pub open spec fn bytes(self) -> Seq<u8> {
        self.fixed_bytes() + self.payload_bytes()
    }
}

/// The definition that 46 fixed bytes hold, without its payload, or why they hold none.
pub open spec fn definition_from_bytes(b: Seq<u8>) -> Result<DefinitionView, LogError> {
    let code = spec_u16_from_le_bytes(b.subrange(40, 42));
    let text = until_nul(b.subrange(8, 40));
    if payload_type_of(code) is None {
        Err(LogError::UnknownDefinitionPayloadType)
    } else if !valid_utf8(text) {
        Err(LogError::InvalidUtf8)
    } else {
        Ok(
            DefinitionView {
                version_major: spec_u32_from_le_bytes(b.subrange(0, 4)),
                version_minor: spec_u32_from_le_bytes(b.subrange(4, 8)),
                dialect: decode_utf8(text),
                payload_type: payload_type_of(code).unwrap(),
                size: spec_u32_from_le_bytes(b.subrange(42, 46)),
                payload: None,
            },
        )
    }
}

/// `r` is the outcome `spec` describes.
pub open spec fn definition_outcome(
    r: Result<MavlinkMessageDefinition, LogError>,
    spec: Result<DefinitionView, LogError>,
) -> bool {
    match r {
        Ok(d) => spec == Ok::<DefinitionView, LogError>(d@),
        Err(e) => spec == Err::<DefinitionView, LogError>(e),
    }
}

impl MavlinkMessageDefinition {
    /// The dialect of the default definition.
    pub const DEFAULT_DIALECT: &'static str = "common";

    /// Decodes the 46 fixed bytes; the payload is left absent.
    pub fn unpack(packed_data: &[u8; 46]) -> (r: Result<Self, LogError>)
        ensures
            definition_outcome(r, definition_from_bytes(packed_data@)),
    {
        Self::unpack_slice(packed_data.as_slice())
    }

    fn unpack_slice(b: &[u8]) -> (r: Result<Self, LogError>)
        requires
            b@.len() == 46,
        ensures
            definition_outcome(r, definition_from_bytes(b@)),
    {
        let code = read_le16(b, 40);
        let payload_type = match MavlinkDefinitionPayloadType::try_from(code) {
            Ok(t) => t,
            Err(e) => return Err(e),
        };
        let dialect = match read_text(b, 8, 40) {
            Some(s) => s,
            None => return Err(LogError::InvalidUtf8),
        };
        Ok(
            MavlinkMessageDefinition {
                version_major: read_le32(b, 0),
                version_minor: read_le32(b, 4),
                dialect,
                payload_type,
                size: read_le32(b, 42),
                payload: None,
            },
        )
    }

    /// Keeps `packed_data` as the payload where the payload type calls for one.
    pub fn unpack_payload(&mut self, packed_data: &[u8])
        ensures
            final(self)@ == (DefinitionView {
                payload: if old(self).payload_type != MavlinkDefinitionPayloadType::NoPayload {
                    Some(packed_data@)
                } else {
                    old(self)@.payload
                },
                ..old(self)@
            }),
    {
        if self.payload_type != MavlinkDefinitionPayloadType::NoPayload {
            self.payload = Some(slice_to_vec(packed_data));
        }
    }

    /// Encodes the definition; a dialect longer than 32 bytes is refused.
    pub fn pack(&self) -> (r: Result<Vec<u8>, LogError>)
        ensures
            match r {
                Ok(v) => encode_utf8(self.dialect@).len() <= 32 && v@ == self@.bytes(),
                Err(e) => encode_utf8(self.dialect@).len() > 32 && e == LogError::FieldTooLong,
            },
    {
        let text: &[u8] = self.dialect.as_str().as_bytes();
        if text.len() > 32 {
            return Err(LogError::FieldTooLong);
        }
        let mut packed: Vec<u8> = Vec::new();
        push_le32(&mut packed, self.version_major);
        push_le32(&mut packed, self.version_minor);
        push_padded(&mut packed, text, 32);
        push_le16(&mut packed, self.payload_type.as_u16());
        push_le32(&mut packed, self.size);
        assert(packed@ =~= self@.fixed_bytes());
        if self.payload_type != MavlinkDefinitionPayloadType::NoPayload {
            match &self.payload {
                Some(p) => push_bytes(&mut packed, p.as_slice()),
                None => {},
            }
        }
        assert(packed@ =~= self@.bytes());
        Ok(packed)
    }
}

impl Default for MavlinkMessageDefinition {
    fn default() -> (r: Self)
        ensures
            r@ == (DefinitionView {
                version_major: 2,
                version_minor: 0,
                dialect: "common"@,
                payload_type: MavlinkDefinitionPayloadType::NoPayload,
                size: 0,
                payload: None,
            }),
    {
        MavlinkMessageDefinition {
            version_major: 2,
            version_minor: 0,
            dialect: Self::DEFAULT_DIALECT.to_owned(),
            payload_type: MavlinkDefinitionPayloadType::NoPayload,
            size: 0,
            payload: None,
        }
    }
}

/// The header at the start of every MAV-LOG file: 108 fixed bytes, then the definition
/// payload where there is one.
pub struct FileHeader {
    /// Identity of the log, as the 16 bytes of a UUID.
    pub uuid: [u8; 16],
    /// Wall-clock time at which the writer started, in microseconds since the Unix epoch.
    pub timestamp_us: u64,
    /// Name of the application that wrote the log; at most 32 bytes on the wire.
    pub src_application_id: String,
    /// Version of the file format.
    pub format_version: u32,
    /// The record layout in use.
    pub format_flags: FormatFlags,
    /// The dialect and its message definitions.
    pub message_definition: MavlinkMessageDefinition,
}

/// A file header as values.
pub struct HeaderView {
    pub uuid: Seq<u8>,
    pub timestamp_us: u64,
    pub src_application_id: Seq<char>,
    pub format_version: u32,
    pub format_flags: FormatFlags,
    pub message_definition: DefinitionView,
}

impl View for FileHeader {
    type V = HeaderView;

    open spec fn view(&self) -> HeaderView {
        HeaderView {
            uuid: self.uuid@,
            timestamp_us: self.timestamp_us,
            src_application_id: self.src_application_id@,
            format_version: self.format_version,
            format_flags: self.format_flags,
            message_definition: self.message_definition@,
        }
    }
}

impl HeaderView {
    /// The header is consistent: a 16-byte identity, an application name that fits its field
    /// and reads back, and a consistent definition.
    pub open spec fn wf(self) -> bool {
        &&& self.uuid.len() == 16
        &&& fits_text_field(self.src_application_id)
        &&& self.message_definition.wf()
    }

    /// The header on the wire.
    pub open spec fn bytes(self) -> Seq<u8> {
        self.uuid + spec_u64_to_le_bytes(self.timestamp_us) + padded(
            encode_utf8(self.src_application_id),
            32,
        ) + spec_u32_to_le_bytes(self.format_version) + flags_bytes(self.format_flags)
            + self.message_definition.bytes()
    }
}

/// The application name that its field holds; a field that is not UTF-8 reads as empty.
pub open spec fn app_id_from_bytes(b: Seq<u8>) -> Seq<char> {
    let t = until_nul(b.subrange(24, 56));
    if valid_utf8(t) {
        decode_utf8(t)
    } else {
        Seq::empty()
    }
}

/// The header fields that do not belong to the message definition.
pub struct HeaderFields {
    pub uuid: [u8; 16],
    pub timestamp_us: u64,
    pub src_application_id: String,
    pub format_version: u32,
    pub format_flags: FormatFlags,
}

/// The header fields outside the definition, as values.
pub struct FieldsView {
    pub uuid: Seq<u8>,
    pub timestamp_us: u64,
    pub src_application_id: Seq<char>,
    pub format_version: u32,
    pub format_flags: FormatFlags,
}

impl View for HeaderFields {
    type V = FieldsView;

    open spec fn view(&self) -> FieldsView {
        FieldsView {
            uuid: self.uuid@,
            timestamp_us: self.timestamp_us,
            src_application_id: self.src_application_id@,
            format_version: self.format_version,
            format_flags: self.format_flags,
        }
    }
}

/// The fields outside the definition that 108 fixed bytes hold.
pub open spec fn fields_from_bytes(b: Seq<u8>) -> FieldsView {
    FieldsView {
        uuid: b.subrange(0, 16),
        timestamp_us: spec_u64_from_le_bytes(b.subrange(16, 24)),
        src_application_id: app_id_from_bytes(b),
        format_version: spec_u32_from_le_bytes(b.subrange(56, 60)),
        format_flags: flags_of_word(spec_u16_from_le_bytes(b.subrange(60, 62))),
    }
}

/// The format version that 108 fixed bytes carry is the one this library implements.
pub open spec fn supported_version(b: Seq<u8>) -> bool {
    spec_u32_from_le_bytes(b.subrange(56, 60)) == 1
}

/// The header that 108 fixed bytes hold, without the definition payload, or why they hold none:
/// first an unknown format version, then a definition that cannot be read.
pub open spec fn header_from_bytes(b: Seq<u8>) -> Result<HeaderView, LogError> {
    if !supported_version(b) {
        Err(LogError::UnsupportedFormatVersion)
    } else {
        match definition_from_bytes(b.subrange(62, 108)) {
            Err(e) => Err(e),
            Ok(d) => {
                let f = fields_from_bytes(b);
                Ok(
                    HeaderView {
                        uuid: f.uuid,
                        timestamp_us: f.timestamp_us,
                        src_application_id: f.src_application_id,
                        format_version: f.format_version,
                        format_flags: f.format_flags,
                        message_definition: d,
                    },
                )
            },
        }
    }
}

/// What a reader takes from the start of a file: the header with its definition payload and
/// the number of bytes it spans, or why the file cannot be read.
pub open spec fn decoded_header(b: Seq<u8>) -> Result<(HeaderView, nat), LogError> {
    if b.len() < 108 {
        Err(LogError::Truncated)
    } else {
        match header_from_bytes(b.take(108)) {
            Err(e) => Err(e),
            Ok(h) => {
                let size = h.message_definition.size as int;
                if h.message_definition.payload_type == MavlinkDefinitionPayloadType::NoPayload {
                    Ok((h, 108))
                } else if b.len() < 108 + size {
                    Err(LogError::Truncated)
                } else {
                    Ok(
                        (
                            HeaderView {
                                message_definition: DefinitionView {
                                    payload: Some(b.subrange(108, 108 + size)),
                                    ..h.message_definition
                                },
                                ..h
                            },
                            (108 + size) as nat,
                        ),
                    )
                }
            },
        }
    }
}

/// `r` is the outcome `spec` describes.
pub open spec fn header_outcome(
    r: Result<FileHeader, LogError>,
    spec: Result<HeaderView, LogError>,
) -> bool {
    match r {
        Ok(h) => spec == Ok::<HeaderView, LogError>(h@),
        Err(e) => spec == Err::<HeaderView, LogError>(e),
    }
}

/// Relies on uuid::Uuid::new_v4: random bytes, with version 4 in the high nibble of byte 6
/// and the RFC 4122 variant in the high bits of byte 8.
#[verifier::external_body]
fn random_uuid() -> (r: [u8; 16])
    ensures
        r[6] & 0xf0 == 0x40,
        r[8] & 0xc0 == 0x80,
{
    *uuid::Uuid::new_v4().as_bytes()
}

/// Relies on std's SystemTime: the wall-clock time in microseconds since the Unix epoch, or
/// none where the clock reads earlier than the epoch.
#[verifier::external_body]
fn unix_time_us() -> (r: Option<u64>) {
    SystemTime::now().duration_since(SystemTime::UNIX_EPOCH).ok().map(|d| d.as_micros() as u64)
}

/// Reads the fields outside the definition from 108 fixed bytes.
fn read_fields(b: &[u8]) -> (r: HeaderFields)
    requires
        b@.len() == 108,
    ensures
        r@ == fields_from_bytes(b@),
{
    let src_application_id = match read_text(b, 24, 56) {
        Some(s) => s,
        None => String::new(),
    };
    let uuid: [u8; 16] = [
        b[0], b[1], b[2], b[3], b[4], b[5], b[6], b[7], b[8], b[9], b[10], b[11], b[12], b[13],
        b[14], b[15],
    ];
    assert(uuid@ =~= b@.subrange(0, 16));
    HeaderFields {
        uuid,
        timestamp_us: read_le64(b, 16),
        src_application_id,
        format_version: read_le32(b, 56),
        format_flags: FormatFlags::unpack(read_le16(b, 60)),
    }
}

impl FileHeader {
    /// Size of the fixed part of the header in bytes.
    pub const MIN_SIZE: usize = 108;

    /// The file format version that this library writes and reads.
    pub const FILE_FORMAT_VERSION: u32 = 1;

    /// The application name that new headers carry.
    pub const SRC_APPLICATION_ID: &'static str = "mavlink_logger";

    /// A header for a new log with the given identity and wall-clock time in microseconds since
    /// the Unix epoch (zero where the clock read before the epoch), the default application name
    /// and the current version.
    pub fn with_identity(
        uuid: [u8; 16],
        now_us: Option<u64>,
        format_flags: FormatFlags,
        message_definition: MavlinkMessageDefinition,
    ) -> (r: FileHeader)
        ensures
            r.uuid == uuid,
            r.timestamp_us == match now_us {
                Some(t) => t,
                None => 0,
            },
            r@.src_application_id == "mavlink_logger"@,
            r.format_version == 1,
            r.format_flags == format_flags,
            r@.message_definition == message_definition@,
    {
        let timestamp_us: u64 = match now_us {
            Some(t) => t,
            None => 0,
        };
        FileHeader {
            uuid,
            timestamp_us,
            src_application_id: Self::SRC_APPLICATION_ID.to_owned(),
            format_version: Self::FILE_FORMAT_VERSION,
            format_flags,
            message_definition,
        }
    }

    /// A header for a new log: a random version-4 identity and the current wall-clock time, as
    /// `with_identity` lays them out.
    pub fn new(format_flags: FormatFlags, message_definition: MavlinkMessageDefinition) -> (r:
        FileHeader)
        ensures
            r@.uuid[6] & 0xf0 == 0x40,
            r@.uuid[8] & 0xc0 == 0x80,
            r@.src_application_id == "mavlink_logger"@,
            r.format_version == 1,
            r.format_flags == format_flags,
            r@.message_definition == message_definition@,
    {
        Self::with_identity(random_uuid(), unix_time_us(), format_flags, message_definition)
    }

    /// Decodes the 108 fixed bytes. Refuses an unknown format version, then a definition that
    /// cannot be read; an application name that is not UTF-8 reads as empty; the definition
    /// payload is left absent.
    pub fn unpack(packed_data: &[u8; 108]) -> (r: Result<Self, LogError>)
        ensures
            header_outcome(r, header_from_bytes(packed_data@)),
    {
        Self::unpack_slice(packed_data.as_slice())
    }

    /// Decodes the 108 fixed bytes into the fields outside the definition and the definition
    /// or the reason it cannot be read, so that the rest of the header stays usable when the
    /// definition does not. Refuses only an unknown format version.
    pub fn unpack_parts(packed_data: &[u8; 108]) -> (r: Result<
        (HeaderFields, Result<MavlinkMessageDefinition, LogError>),
        LogError,
    >)
        ensures
            match r {
                Ok((f, d)) => supported_version(packed_data@) && f@ == fields_from_bytes(
                    packed_data@,
                ) && definition_outcome(d, definition_from_bytes(packed_data@.subrange(62, 108))),
                Err(e) => !supported_version(packed_data@) && e
                    == LogError::UnsupportedFormatVersion,
            },
    {
        let b = packed_data.as_slice();
        if read_le32(b, 56) != 1 {
            return Err(LogError::UnsupportedFormatVersion);
        }
        let definition = MavlinkMessageDefinition::unpack_slice(slice_subrange(b, 62, 108));
        Ok((read_fields(b), definition))
    }

    fn unpack_slice(b: &[u8]) -> (r: Result<Self, LogError>)
        requires
            b@.len() == 108,
        ensures
            header_outcome(r, header_from_bytes(b@)),
    {
        if read_le32(b, 56) != 1 {
            return Err(LogError::UnsupportedFormatVersion);
        }
        let definition = match MavlinkMessageDefinition::unpack_slice(slice_subrange(b, 62, 108)) {
            Ok(d) => d,
            Err(e) => return Err(e),
        };
        let f = read_fields(b);
        let r = FileHeader {
            uuid: f.uuid,
            timestamp_us: f.timestamp_us,
            src_application_id: f.src_application_id,
            format_version: f.format_version,
            format_flags: f.format_flags,
            message_definition: definition,
        };
        assert(r@.message_definition.payload is None);
        Ok(r)
    }

    /// Reads the header at the start of a file: the fixed bytes, then the definition payload.
    /// Returns the header and the number of bytes it spans. Refuses a file that is too short,
    /// one whose format version is not 1, and a definition that cannot be read.
    pub fn decode(bytes: &[u8]) -> (r: Result<(FileHeader, usize), LogError>)
        ensures
            match r {
                Ok((h, n)) => decoded_header(bytes@) == Ok::<(HeaderView, nat), LogError>(
                    (h@, n as nat),
                ),
                Err(e) => decoded_header(bytes@) == Err::<(HeaderView, nat), LogError>(e),
            },
    {
        if bytes.len() < 108 {
            return Err(LogError::Truncated);
        }
        let fixed = slice_subrange(bytes, 0, 108);
        assert(fixed@ =~= bytes@.take(108));
        assert(fixed@.subrange(56, 60) =~= bytes@.subrange(56, 60));
        let mut header = match Self::unpack_slice(fixed) {
            Ok(h) => h,
            Err(e) => return Err(e),
        };
        if header.message_definition.payload_type == MavlinkDefinitionPayloadType::NoPayload {
            return Ok((header, 108));
        }
        let size = header.message_definition.size as usize;
        if bytes.len() - 108 < size {
            return Err(LogError::Truncated);
        }
        header.message_definition.unpack_payload(slice_subrange(bytes, 108, 108 + size));
        Ok((header, 108 + size))
    }

    /// Encodes the header; an application name or a dialect longer than 32 bytes is refused.
    pub fn pack(&self) -> (r: Result<Vec<u8>, LogError>)
        ensures
            match r {
                Ok(v) => fits_lengths(self@) && v@ == self@.bytes(),
                Err(e) => !fits_lengths(self@) && e == LogError::FieldTooLong,
            },
    {
        let text: &[u8] = self.src_application_id.as_str().as_bytes();
        if text.len() > 32 {
            return Err(LogError::FieldTooLong);
        }
        let definition = match self.message_definition.pack() {
            Ok(d) => d,
            Err(e) => return Err(e),
        };
        let mut packed: Vec<u8> = Vec::new();
        push_bytes(&mut packed, self.uuid.as_slice());
        push_le64(&mut packed, self.timestamp_us);
        push_padded(&mut packed, text, 32);
        push_le32(&mut packed, self.format_version);
        let flags = self.format_flags.pack();
        push_bytes(&mut packed, flags.as_slice());
        push_bytes(&mut packed, definition.as_slice());
        assert(packed@ =~= self@.bytes());
        Ok(packed)
    }
}

/// Both text fields of the header fit their 32 bytes.
pub open spec fn fits_lengths(h: HeaderView) -> bool {
    encode_utf8(h.src_application_id).len() <= 32 && encode_utf8(h.message_definition.dialect).len()
        <= 32
}

impl Default for FileHeader {
    fn default() -> (r: Self)
        ensures
            r@.uuid[6] & 0xf0 == 0x40,
            r@.uuid[8] & 0xc0 == 0x80,
            r@.src_application_id == "mavlink_logger"@,
            r.format_version == 1,
            !r.format_flags.mavlink_only,
            !r.format_flags.no_timestamp,
            r@.message_definition == (DefinitionView {
                version_major: 2,
                version_minor: 0,
                dialect: "common"@,
                payload_type: MavlinkDefinitionPayloadType::NoPayload,
                size: 0,
                payload: None,
            }),
    {
        FileHeader::new(FormatFlags::default(), MavlinkMessageDefinition::default())
    }
}

proof fn lemma_nul_end_padded(t: Seq<u8>, n: nat, i: int)
    requires
        t.len() <= n,
        !t.contains(0u8),
        0 <= i <= t.len(),
    ensures
        nul_end(padded(t, n), i) == t.len(),
    decreases t.len() - i,
{
    let p = padded(t, n);
    if i < t.len() {
        assert(p[i] == t[i]);
        assert(t[i] != 0u8);
        lemma_nul_end_padded(t, n, i + 1);
    } else if i < n {
        assert(p[i] == 0u8);
    }
}

/// A text without zero bytes, padded to a field, reads back unchanged.
proof fn lemma_until_nul_padded(t: Seq<u8>, n: nat)
    requires
        t.len() <= n,
        !t.contains(0u8),
    ensures
        until_nul(padded(t, n)) == t,
{
    lemma_nul_end_padded(t, n, 0);
    assert(until_nul(padded(t, n)) =~= t);
}

proof fn lemma_text_field_round_trip(t: Seq<char>)
    requires
        fits_text_field(t),
    ensures
        until_nul(padded(encode_utf8(t), 32)) == encode_utf8(t),
        valid_utf8(encode_utf8(t)),
        decode_utf8(encode_utf8(t)) == t,
        padded(encode_utf8(t), 32).len() == 32,
{
    broadcast use encode_utf8_valid_utf8, encode_utf8_decode_utf8;

    lemma_until_nul_padded(encode_utf8(t), 32);
}

/// A consistent definition, encoded, reads back as itself without its payload.
pub proof fn lemma_definition_round_trip(d: DefinitionView)
    requires
        d.wf(),
    ensures
        d.fixed_bytes().len() == 46,
        definition_from_bytes(d.fixed_bytes()) == Ok::<DefinitionView, LogError>(
            DefinitionView { payload: None, ..d },
        ),
{
    lemma_auto_spec_u16_to_from_le_bytes();
    lemma_auto_spec_u32_to_from_le_bytes();
    lemma_text_field_round_trip(d.dialect);
    let b = d.fixed_bytes();
    let text = padded(encode_utf8(d.dialect), 32);
    assert(b.subrange(0, 4) =~= spec_u32_to_le_bytes(d.version_major));
    assert(b.subrange(4, 8) =~= spec_u32_to_le_bytes(d.version_minor));
    assert(b.subrange(8, 40) =~= text);
    assert(b.subrange(40, 42) =~= spec_u16_to_le_bytes(d.payload_type.code()));
    assert(b.subrange(42, 46) =~= spec_u32_to_le_bytes(d.size));
    assert(payload_type_of(d.payload_type.code()) == Some(d.payload_type));
}

/// Packing a consistent header of the current version and reading it back gives the same
/// header, spanning all the bytes that were written.
pub proof fn lemma_header_round_trip(h: HeaderView)
    requires
        h.wf(),
        h.format_version == 1,
    ensures
        decoded_header(h.bytes()) == Ok::<(HeaderView, nat), LogError>((h, h.bytes().len())),
{
    lemma_auto_spec_u16_to_from_le_bytes();
    lemma_auto_spec_u32_to_from_le_bytes();
    lemma_auto_spec_u64_to_from_le_bytes();
    lemma_text_field_round_trip(h.src_application_id);
    let d = h.message_definition;
    lemma_definition_round_trip(d);
    lemma_flags_round_trip(h.format_flags, 0);
    let b = h.bytes();
    let fixed = b.take(108);
    assert(fixed.subrange(0, 16) =~= h.uuid);
    assert(fixed.subrange(16, 24) =~= spec_u64_to_le_bytes(h.timestamp_us));
    assert(fixed.subrange(24, 56) =~= padded(encode_utf8(h.src_application_id), 32));
    assert(fixed.subrange(56, 60) =~= spec_u32_to_le_bytes(h.format_version));
    assert(b.subrange(56, 60) =~= spec_u32_to_le_bytes(h.format_version));
    assert(fixed.subrange(60, 62) =~= flags_bytes(h.format_flags));
    assert(fixed.subrange(62, 108) =~= d.fixed_bytes());
    assert(app_id_from_bytes(fixed) == h.src_application_id);
    let hv = header_from_bytes(fixed)->Ok_0;
    assert(hv.uuid == h.uuid);
    if d.payload_type == MavlinkDefinitionPayloadType::NoPayload {
        assert(b.len() == 108);
        assert(hv == h);
    } else {
        let p = d.payload->Some_0;
        assert(b.subrange(108, 108 + d.size as int) =~= p);
    }
}

} // verus!

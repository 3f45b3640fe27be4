use vstd::prelude::*;

verus! {

/// The error kinds of the codec, the writer and the readers.
#[derive(Clone, Copy, Debug, PartialEq, Eq, Structural)]
pub enum LogError {
    /// The input ended in the middle of a field or a record.
    Truncated,
    /// The header carries a format version that this library does not implement.
    UnsupportedFormatVersion,
    /// The message definition names a payload type that is not known.
    UnknownDefinitionPayloadType,
    /// A text field does not hold valid UTF-8.
    InvalidUtf8,
    /// A record carries a type byte that names no entry type.
    UnknownEntryType,
    /// A raw or text entry was written under the wire-frames-only flag.
    InvalidEntryForFlags,
    /// Under the wire-frames-only flag, a payload that is not one whole wire frame.
    MalformedFrame,
    /// A record payload does not fit the 16-bit size field.
    PayloadTooLarge,
    /// A fixed-width text field is longer than 32 bytes.
    FieldTooLong,
    /// The bytes at the read position do not start a wire frame.
    BadMagic,
    /// The writer was closed.
    Closed,
}

} // verus!

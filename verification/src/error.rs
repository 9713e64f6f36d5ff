use vstd::prelude::*;

verus! {

/// The ways in which encoding or decoding a DNS message can fail.
///
/// Decoding never panics on malformed input: every codec entry point
/// returns one of these values instead.
#[derive(Clone, Copy, Debug, PartialEq, Eq, Structural)]
pub enum DnsError {
    /// The buffer is shorter than the structure being read requires.
    TruncatedInput,
    /// A label-length byte uses the reserved bit patterns `0x40..0xC0`,
    /// or a label's content is not ASCII text.
    MalformedLabel,
    /// A label handed to the name encoder is longer than 63 bytes.
    LabelTooLong,
    /// The encoded form of a name would exceed 255 bytes.
    NameTooLong,
    /// A compression pointer cycle, or a pointer that does not reference
    /// strictly earlier content.
    CompressionLoop,
    /// A record's `rdlength` field disagrees with the length of its `rdata`.
    RdataLengthMismatch,
}

} // verus!

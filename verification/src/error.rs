use vstd::prelude::*;

verus! {

/// The place in the stream at which a byte with a fixed value is expected.
#[derive(Clone, Copy, Debug, PartialEq, Eq, Structural)]
pub enum Context {
    /// The very first byte of the stream.
    Signature,
    /// The byte between an inline author's uid and the user name.
    UidSeparator,
}

/// Why decoding stopped. No error is recoverable: a decoder that has returned
/// one yields no further record.
#[derive(Clone, Copy, Debug, PartialEq, Eq, Structural)]
pub enum DecodeError {
    /// A back-reference names a slot of the string table that holds nothing:
    /// no pair was ever inserted there, or it has been evicted.
    StringUnavailable { index: u64 },
    /// A byte with a fixed value was expected and another was found.
    UnexpectedByte { context: Context, expected: u8, received: u8 },
    /// The type byte of a relation member is none of `'0'`, `'1'`, `'2'`.
    UnexpectedElementType { received: u8 },
    /// The byte source itself failed.
    StreamReadError,
    /// Bytes that must be text are not valid UTF-8.
    StringEncodingError,
    /// A signed varint ran off the end of the available bytes.
    UnterminatedSignedInteger,
    /// An unsigned varint ran off the end of the available bytes.
    UnterminatedUnsignedInteger,
    /// The byte source ended in the middle of a frame.
    TruncatedStream,
}

} // verus!

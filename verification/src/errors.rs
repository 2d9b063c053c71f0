use vstd::prelude::*;

verus! {

/// Why a decode failed.
///
/// Every malformed input is reported through one of these variants; the
/// decoder never panics and never returns a partial result.
#[derive(Clone, Copy, Debug, PartialEq, Eq, Structural)]
pub enum DecodeError {
    /// The four leading magic bytes are not the fixed `wtns` tag.
    InvalidMagic,
    /// A read asked for more bytes than remain in the buffer.
    ///
    /// `requested` is the number of bytes the read wanted; `available` is the
    /// number of bytes that were still left at that point.
    BufferTooShort { requested: u64, available: u64 },
    /// A data section was reached before any field-width header section.
    MissingHeader,
    /// The data payload is not a whole number of element-width chunks.
    MisalignedChunk,
    /// Every declared section was consumed and no data section appeared.
    SectionNotFound,
}

impl DecodeError {
    /// A short description of the failure, for diagnostics.
    pub fn message(&self) -> (r: &'static str)
        ensures
            r@ == match self {
                DecodeError::InvalidMagic => "invalid witness file format"@,
                DecodeError::BufferTooShort { .. } => "unexpected end of witness buffer"@,
                DecodeError::MissingHeader => "witness data appeared before the field-width header"@,
                DecodeError::MisalignedChunk => "witness data length is not a multiple of the element width"@,
                DecodeError::SectionNotFound => "witness section not found"@,
            },
    {
        match self {
            DecodeError::InvalidMagic => "invalid witness file format",
            DecodeError::BufferTooShort { .. } => "unexpected end of witness buffer",
            DecodeError::MissingHeader => "witness data appeared before the field-width header",
            DecodeError::MisalignedChunk => "witness data length is not a multiple of the element width",
            DecodeError::SectionNotFound => "witness section not found",
        }
    }
}

} // verus!

//! The mathematical model of the witness container format.
//!
//! These spec functions say, byte for byte, what a decode of a buffer
//! returns: the preamble validation, the section scan, and the chunking of
//! the data payload.  The executable decoder in [`crate::scanner`] is proved
//! to return exactly what this model says, so every statement about
//! decoding can be made — and is made — about these functions.

use crate::cursor::{le_value, spec_read_exact, spec_read_u32, spec_read_u64, spec_skip};
use crate::errors::DecodeError;
use vstd::prelude::*;

verus! {

/// Section id of the field-width header section.
pub const FIELD_WIDTH_SECTION_ID: u32 = 1;

/// Section id of the witness data section.
pub const DATA_SECTION_ID: u32 = 2;

/// Byte length of a field-width header payload: element width (4) +
/// modulus (32) + declared element count (4).
pub const FIELD_WIDTH_PAYLOAD_LEN: u64 = 40;

/// Byte length of the modulus inside a field-width header payload.
pub const MODULUS_LEN: u64 = 32;

/// The fixed four-byte ASCII magic tag `wtns` that opens every container.
pub open spec fn magic_tag() -> Seq<u8> {
    seq![0x77u8, 0x74u8, 0x6eu8, 0x73u8]
}

/// What validating the container preamble returns: the version and the
/// section count, read at offsets 4 and 8 after the magic tag is checked.
pub open spec fn preamble_spec(buf: Seq<u8>) -> Result<(u32, u32), DecodeError> {
    match spec_read_exact(buf, 0, 4) {
        Err(e) => Err(e),
        Ok(m) => if m != magic_tag() {
            Err(DecodeError::InvalidMagic)
        } else {
            match spec_read_u32(buf, 4) {
                Err(e) => Err(e),
                Ok(version) => match spec_read_u32(buf, 8) {
                    Err(e) => Err(e),
                    Ok(count) => Ok((version, count)),
                },
            }
        },
    }
}

/// What the three reads of a field-width header payload at `pos` return:
/// the element width, the raw 32 modulus bytes, and the declared element
/// count, in that order.  The reads always span exactly 40 bytes.
pub open spec fn field_width_spec(buf: Seq<u8>, pos: int) -> Result<
    (u32, Seq<u8>, u32),
    DecodeError,
> {
    match spec_read_u32(buf, pos) {
        Err(e) => Err(e),
        Ok(width) => match spec_read_exact(buf, pos + 4, MODULUS_LEN as int) {
            Err(e) => Err(e),
            Ok(modulus) => match spec_read_u32(buf, pos + 4 + MODULUS_LEN) {
                Err(e) => Err(e),
                Ok(count) => Ok((width, modulus, count)),
            },
        },
    }
}

/// Where the data payload of a container sits, and the element width that
/// applies to it.
pub ghost struct DataLocation {
    /// Element width in bytes, from the last field-width header seen.
    pub width: u32,
    /// Offset of the first payload byte.
    pub start: int,
    /// Payload length in bytes.
    pub length: int,
}

/// What scanning the remaining sections returns.  `pos` is the offset of
/// the next section's id field, `sections_left` the number of sections the
/// preamble still allows, and `width` the element width of the last
/// field-width header seen, if any.
///
/// Each step reads the section id (4 bytes) and length (8 bytes), then:
/// a field-width header section is read field by field and the scan goes
/// on with its width — the cursor advances by the 40 bytes read, whatever
/// the declared length said; a data section ends the scan, after checking
/// that a width was seen, that the payload is in bounds, and that it is a
/// whole number of chunks (a zero width admits no chunking at all, so it
/// counts as misaligned); any other section is skipped over by its
/// declared length.
pub open spec fn scan_spec(
    buf: Seq<u8>,
    pos: int,
    sections_left: nat,
    width: Option<u32>,
) -> Result<DataLocation, DecodeError>
    decreases sections_left,
{
    if sections_left == 0 {
        Err(DecodeError::SectionNotFound)
    } else {
        match spec_read_u32(buf, pos) {
            Err(e) => Err(e),
            Ok(id) => match spec_read_u64(buf, pos + 4) {
                Err(e) => Err(e),
                Ok(length) => {
                    let body = pos + 12;
                    if id == FIELD_WIDTH_SECTION_ID {
                        match field_width_spec(buf, body) {
                            Err(e) => Err(e),
                            Ok((w, _modulus, _count)) => scan_spec(
                                buf,
                                body + FIELD_WIDTH_PAYLOAD_LEN,
                                (sections_left - 1) as nat,
                                Some(w),
                            ),
                        }
                    } else if id == DATA_SECTION_ID {
                        match width {
                            None => Err(DecodeError::MissingHeader),
                            Some(w) => match spec_read_exact(buf, body, length as int) {
                                Err(e) => Err(e),
                                Ok(_payload) => if w == 0 || (length as int) % (w as int) != 0 {
                                    Err(DecodeError::MisalignedChunk)
                                } else {
                                    Ok(DataLocation { width: w, start: body, length: length as int })
                                },
                            },
                        }
                    } else {
                        match spec_skip(buf, body, length as int) {
                            Err(e) => Err(e),
                            Ok(next) => scan_spec(buf, next, (sections_left - 1) as nat, width),
                        }
                    }
                },
            },
        }
    }
}

/// Where the data payload of `buf` sits: preamble validation followed by
/// the section scan from offset 12.
pub open spec fn locate_data(buf: Seq<u8>) -> Result<DataLocation, DecodeError> {
    match preamble_spec(buf) {
        Err(e) => Err(e),
        Ok((_version, count)) => scan_spec(buf, 12, count as nat, None::<u32>),
    }
}

/// The chunks of a data payload: `payload.len() / width` consecutive
/// non-overlapping `width`-byte slices, in payload order.
pub open spec fn chunks_of(payload: Seq<u8>, width: nat) -> Seq<Seq<u8>>
    recommends
        width > 0,
        payload.len() % width == 0,
{
    Seq::new(payload.len() / width, |i: int| payload.subrange(i * width, i * width + width))
}

/// What decoding `buf` returns: the ordered chunks of the data payload,
/// each still in raw little-endian bytes, or the error the scan reports.
pub open spec fn decode_spec(buf: Seq<u8>) -> Result<Seq<Seq<u8>>, DecodeError> {
    match locate_data(buf) {
        Err(e) => Err(e),
        Ok(loc) => Ok(
            chunks_of(buf.subrange(loc.start, loc.start + loc.length), loc.width as nat),
        ),
    }
}

/// The little-endian encoding of `v` in `n` bytes: the write side of
/// [`le_value`], used to build containers in specifications.
pub open spec fn le_bytes(v: nat, n: nat) -> Seq<u8>
    decreases n,
{
    if n == 0 {
        Seq::empty()
    } else {
        seq![(v % 256) as u8] + le_bytes(v / 256, (n - 1) as nat)
    }
}

/// A section as a value: its id and its payload.  The encoded form
/// declares the payload's own length.
pub ghost struct Section {
    /// Section id tag.
    pub id: u32,
    /// Payload bytes.
    pub payload: Seq<u8>,
}

/// The encoded form of one section: id (4 bytes), declared length
/// (8 bytes, equal to the payload length), then the payload.
pub open spec fn encode_section(s: Section) -> Seq<u8> {
    le_bytes(s.id as nat, 4) + le_bytes(s.payload.len(), 8) + s.payload
}

/// The encoded form of a section list, in order, with no gaps.
pub open spec fn encode_sections(ss: Seq<Section>) -> Seq<u8>
    decreases ss.len(),
{
    if ss.len() == 0 {
        Seq::empty()
    } else {
        encode_section(ss[0]) + encode_sections(ss.drop_first())
    }
}

/// A whole container holding the given sections: magic tag, version,
/// section count, then the encoded sections.
pub open spec fn build_container(version: u32, ss: Seq<Section>) -> Seq<u8> {
    magic_tag() + le_bytes(version as nat, 4) + le_bytes(ss.len(), 4) + encode_sections(ss)
}

/// A section that encodes faithfully: its length fits the length field,
/// and a field-width header section carries exactly the 40 payload bytes
/// the scanner's fixed reads consume, so the scan stays frame-aligned.
pub open spec fn wf_section(s: Section) -> bool {
    &&& s.payload.len() < 0x1_0000_0000_0000_0000
    &&& s.id == FIELD_WIDTH_SECTION_ID ==> s.payload.len() == FIELD_WIDTH_PAYLOAD_LEN
}

/// Every section of the list encodes faithfully.
pub open spec fn wf_sections(ss: Seq<Section>) -> bool {
    forall|i: int| 0 <= i < ss.len() ==> wf_section(#[trigger] ss[i])
}

/// What scanning a section list yields, at the level of the list itself:
/// the element width in force when the first data section is met, and
/// that section's payload.  [`crate::laws`] proves that scanning the
/// encoded bytes of a well-formed list agrees with this.
pub open spec fn scan_sections_model(ss: Seq<Section>, width: Option<u32>) -> Result<
    (u32, Seq<u8>),
    DecodeError,
>
    decreases ss.len(),
{
    if ss.len() == 0 {
        Err(DecodeError::SectionNotFound)
    } else {
        let s = ss[0];
        if s.id == FIELD_WIDTH_SECTION_ID {
            scan_sections_model(
                ss.drop_first(),
                Some(le_value(s.payload.subrange(0, 4)) as u32),
            )
        } else if s.id == DATA_SECTION_ID {
            match width {
                None => Err(DecodeError::MissingHeader),
                Some(w) => if w == 0 || s.payload.len() % (w as nat) != 0 {
                    Err(DecodeError::MisalignedChunk)
                } else {
                    Ok((w, s.payload))
                },
            }
        } else {
            scan_sections_model(ss.drop_first(), width)
        }
    }
}

} // verus!

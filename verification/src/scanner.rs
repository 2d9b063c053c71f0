//! The executable decoder: preamble validation, section scan, chunking.
//!
//! Every function here is proved to return exactly what the corresponding
//! spec function of [`crate::model`] says, for every input buffer.

use crate::cursor::ByteCursor;
use crate::errors::DecodeError;
use crate::model::{
    chunks_of, decode_spec, field_width_spec, locate_data, magic_tag, preamble_spec, scan_spec,
    DATA_SECTION_ID, FIELD_WIDTH_PAYLOAD_LEN, FIELD_WIDTH_SECTION_ID, MODULUS_LEN,
};
use vstd::arithmetic::div_mod::lemma_fundamental_div_mod;
use vstd::prelude::*;
use vstd::slice::{slice_subrange, slice_to_vec};

verus! {

/// The validated fixed preamble of a container: the magic tag has been
/// checked, and these two fields follow it.
pub struct ContainerHeader {
    /// Format version; recorded but not constrained.
    pub version: u32,
    /// Number of sections that follow the preamble.
    pub section_count: u32,
}

/// The payload of a field-width header section.
pub struct FieldWidthHeader {
    /// Bytes per field element.
    pub element_width: u32,
    /// The 32 raw modulus bytes, preserved as they stand in the buffer
    /// (a little-endian signed encoding; see [`FieldWidthHeader::modulus_bigint`]).
    pub modulus: Vec<u8>,
    /// Declared element count; informational, never cross-checked against
    /// the data payload.
    pub declared_count: u32,
}

/// Read and validate the container preamble: the 4-byte magic tag, the
/// version, and the section count.  Leaves the cursor at the first
/// section.
pub fn read_container_header(cursor: &mut ByteCursor) -> (r: Result<ContainerHeader, DecodeError>)
    requires
        old(cursor).wf(),
        old(cursor).position() == 0,
    ensures
        final(cursor).wf(),
        final(cursor).bytes() == old(cursor).bytes(),
        match preamble_spec(old(cursor).bytes()) {
            Ok((version, count)) => {
                &&& r matches Ok(h) && h.version == version && h.section_count == count
                &&& final(cursor).position() == 12
            },
            Err(e) => r == Err::<ContainerHeader, DecodeError>(e),
        },
{
    let magic = match cursor.read_exact(4) {
        Ok(m) => m,
        Err(e) => {
            return Err(e);
        },
    };
    if !(magic[0] == 0x77 && magic[1] == 0x74 && magic[2] == 0x6e && magic[3] == 0x73) {
        proof {
            assert(magic@ != magic_tag());
        }
        return Err(DecodeError::InvalidMagic);
    }
    proof {
        assert(magic@ =~= magic_tag());
    }
    let version = match cursor.read_u32_le() {
        Ok(v) => v,
        Err(e) => {
            return Err(e);
        },
    };
    let section_count = match cursor.read_u32_le() {
        Ok(v) => v,
        Err(e) => {
            return Err(e);
        },
    };
    Ok(ContainerHeader { version, section_count })
}

/// Read the three fields of a field-width header payload, advancing the
/// cursor by exactly the 40 bytes they occupy.
pub fn read_field_width_header(cursor: &mut ByteCursor) -> (r: Result<
    FieldWidthHeader,
    DecodeError,
>)
    requires
        old(cursor).wf(),
    ensures
        final(cursor).wf(),
        final(cursor).bytes() == old(cursor).bytes(),
        match field_width_spec(old(cursor).bytes(), old(cursor).position()) {
            Ok((width, modulus, count)) => {
                &&& r matches Ok(h)
                &&& h.element_width == width
                &&& h.modulus@ == modulus
                &&& h.declared_count == count
                &&& final(cursor).position() == old(cursor).position() + FIELD_WIDTH_PAYLOAD_LEN
            },
            Err(e) => r == Err::<FieldWidthHeader, DecodeError>(e),
        },
{
    let element_width = match cursor.read_u32_le() {
        Ok(v) => v,
        Err(e) => {
            return Err(e);
        },
    };
    let modulus = match cursor.read_exact(MODULUS_LEN) {
        Ok(m) => m,
        Err(e) => {
            return Err(e);
        },
    };
    let declared_count = match cursor.read_u32_le() {
        Ok(v) => v,
        Err(e) => {
            return Err(e);
        },
    };
    Ok(FieldWidthHeader { element_width, modulus, declared_count })
}

/// Split a payload into its consecutive `width`-byte chunks, in order.
fn split_chunks(payload: &Vec<u8>, width: u32) -> (r: Vec<Vec<u8>>)
    requires
        width > 0,
        payload@.len() % (width as nat) == 0,
    ensures
        r@.len() == chunks_of(payload@, width as nat).len(),
        forall|i: int|
            0 <= i < r@.len() ==> (#[trigger] r@[i])@ == chunks_of(payload@, width as nat)[i],
{
    let w = width as usize;
    let count = payload.len() / w;
    proof {
        lemma_fundamental_div_mod(payload@.len() as int, w as int);
    }
    let mut out: Vec<Vec<u8>> = Vec::new();
    let mut i: usize = 0;
    while i < count
        invariant
            0 < w <= u32::MAX,
            count == payload@.len() / (w as nat),
            payload@.len() == (w as nat) * (count as nat),
            payload@.len() <= usize::MAX,
            0 <= i <= count,
            out@.len() == i,
            forall|j: int|
                0 <= j < i ==> (#[trigger] out@[j])@ == payload@.subrange(j * w, j * w + w),
        decreases count - i,
    {
        proof {
            let ii = i as int;
            let ww = w as int;
            let cc = count as int;
            assert((ii + 1) * ww <= cc * ww) by (nonlinear_arith)
                requires
                    0 <= ii < cc,
                    0 < ww,
            ;
            assert((ii + 1) * ww == ii * ww + ww) by (nonlinear_arith);
            assert(cc * ww == ww * cc) by (nonlinear_arith);
            assert(ii * ww + ww <= payload@.len());
        }
        let start = i * w;
        let chunk = slice_subrange(payload.as_slice(), start, start + w);
        out.push(slice_to_vec(chunk));
        i = i + 1;
    }
    proof {
        assert(chunks_of(payload@, width as nat).len() == payload@.len() / (width as nat));
        assert forall|j: int| 0 <= j < out@.len() implies (#[trigger] out@[j])@ == chunks_of(
            payload@,
            width as nat,
        )[j] by {
            assert(chunks_of(payload@, width as nat)[j] == payload@.subrange(
                j * width,
                j * width + width,
            ));
        }
    }
    out
}

/// Decode a witness container down to the raw chunks of its data payload.
///
/// Validates the preamble, scans the declared sections in file order,
/// remembers the element width of the last field-width header seen, and on
/// the first data section returns its payload split into element-width
/// chunks — exactly what [`decode_spec`] says, for every buffer.  Sections
/// after the data section are never read.
pub fn decode_data_chunks(buffer: &[u8]) -> (r: Result<Vec<Vec<u8>>, DecodeError>)
    ensures
        match decode_spec(buffer@) {
            Ok(chunks) => {
                &&& r matches Ok(v)
                &&& v@.len() == chunks.len()
                &&& forall|i: int| 0 <= i < chunks.len() ==> (#[trigger] v@[i])@ == chunks[i]
            },
            Err(e) => r == Err::<Vec<Vec<u8>>, DecodeError>(e),
        },
{
    let mut cursor = ByteCursor::new(buffer);
    let header = match read_container_header(&mut cursor) {
        Ok(h) => h,
        Err(e) => {
            return Err(e);
        },
    };
    let mut width: Option<u32> = None;
    let mut sections_left: u32 = header.section_count;
    while sections_left > 0
        invariant
            cursor.wf(),
            cursor.bytes() == buffer@,
            locate_data(buffer@) == scan_spec(
                buffer@,
                cursor.position(),
                sections_left as nat,
                width,
            ),
        decreases sections_left,
    {
        let ghost pos0 = cursor.position();
        let ghost width0 = width;
        let id = match cursor.read_u32_le() {
            Ok(v) => v,
            Err(e) => {
                return Err(e);
            },
        };
        let length = match cursor.read_u64_le() {
            Ok(v) => v,
            Err(e) => {
                return Err(e);
            },
        };
        if id == FIELD_WIDTH_SECTION_ID {
            let h = match read_field_width_header(&mut cursor) {
                Ok(h) => h,
                Err(e) => {
                    return Err(e);
                },
            };
            width = Some(h.element_width);
        } else if id == DATA_SECTION_ID {
            let w = match width {
                Some(w) => w,
                None => {
                    return Err(DecodeError::MissingHeader);
                },
            };
            let payload = match cursor.read_exact(length) {
                Ok(p) => p,
                Err(e) => {
                    return Err(e);
                },
            };
            if w == 0 || length % (w as u64) != 0 {
                return Err(DecodeError::MisalignedChunk);
            }
            return Ok(split_chunks(&payload, w));
        } else {
            match cursor.skip(length) {
                Ok(_) => {},
                Err(e) => {
                    return Err(e);
                },
            };
        }
        sections_left = sections_left - 1;
    }
    Err(DecodeError::SectionNotFound)
}

} // verus!

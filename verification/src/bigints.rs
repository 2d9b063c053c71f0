//! Field elements as arbitrary-precision integers.
//!
//! The chunks the scanner produces are turned into `num_bigint` values
//! here.  The conversions themselves are calls into `num_bigint` behind
//! trusted wrappers; what each call returns is given a name
//! ([`biguint_of_le`], [`bigint_of_signed_le`]) that the contracts of the
//! decode entry points speak of exactly.

use crate::errors::DecodeError;
use crate::model::decode_spec;
use crate::scanner::{decode_data_chunks, FieldWidthHeader};
use num_bigint::{BigInt, BigUint};
use vstd::prelude::*;

verus! {

/// `num_bigint::BigUint`, declared so its values can pass through
/// verified signatures.  The value is opaque to the verifier; everything
/// known about one comes from the named results below.
#[verifier::external_type_specification]
#[verifier::external_body]
pub struct ExBigUint(BigUint);

/// `num_bigint::BigInt`, declared for the same reason.
#[verifier::external_type_specification]
#[verifier::external_body]
pub struct ExBigInt(BigInt);

/// The arbitrary-precision integer a byte string encodes when read as an
/// **unsigned** little-endian number — the interpretation every data
/// payload chunk gets.  The value is a function of the bytes alone.
pub uninterp spec fn biguint_of_le(s: Seq<u8>) -> BigUint;

/// The arbitrary-precision integer a byte string encodes when read as a
/// **signed** (two's-complement) little-endian number — the
/// interpretation the modulus field gets, and only it.  The value is a
/// function of the bytes alone.
pub uninterp spec fn bigint_of_signed_le(s: Seq<u8>) -> BigInt;

/// Relies on `num_bigint::BigUint::from_bytes_le`: reads the bytes as an
/// unsigned little-endian integer, a pure function of the bytes.
#[verifier::external_body]
fn biguint_from_le(chunk: &[u8]) -> (r: BigUint)
    ensures
        r == biguint_of_le(chunk@),
{
    BigUint::from_bytes_le(chunk)
}

/// Relies on `num_bigint::BigInt::from_signed_bytes_le`: reads the bytes
/// as a signed two's-complement little-endian integer, a pure function of
/// the bytes.
#[verifier::external_body]
fn bigint_from_signed_le(bytes: &[u8]) -> (r: BigInt)
    ensures
        r == bigint_of_signed_le(bytes@),
{
    BigInt::from_signed_bytes_le(bytes)
}

impl FieldWidthHeader {
    /// The modulus as a big integer: the stored bytes under the signed
    /// little-endian interpretation the format uses for this one field.
    pub fn modulus_bigint(&self) -> (r: BigInt)
        ensures
            r == bigint_of_signed_le(self.modulus@),
    {
        bigint_from_signed_le(self.modulus.as_slice())
    }
}

/// The witness vector encoded by the given data payload chunks: chunk `i`
/// decodes — unsigned little-endian — to element `i`.
pub open spec fn witness_values(chunks: Seq<Seq<u8>>) -> Seq<BigUint> {
    chunks.map_values(|c: Seq<u8>| biguint_of_le(c))
}

/// What [`parse_witness_to_bigints`] returns for a buffer: the witness
/// vector of its data payload, or the error the scan reports.
pub open spec fn parse_witness_spec(buf: Seq<u8>) -> Result<Seq<BigUint>, DecodeError> {
    match decode_spec(buf) {
        Err(e) => Err(e),
        Ok(chunks) => Ok(witness_values(chunks)),
    }
}

/// Decode a witness container into its ordered vector of field elements.
///
/// The result is exactly [`parse_witness_spec`] of the buffer: one element
/// per chunk of the data payload, in payload order, each read as an
/// unsigned little-endian integer.
pub fn parse_witness_to_bigints(buffer: &[u8]) -> (r: Result<Vec<BigUint>, DecodeError>)
    ensures
        match parse_witness_spec(buffer@) {
            Ok(values) => r matches Ok(v) && v@ == values,
            Err(e) => r == Err::<Vec<BigUint>, DecodeError>(e),
        },
{
    let chunks = match decode_data_chunks(buffer) {
        Ok(c) => c,
        Err(e) => {
            return Err(e);
        },
    };
    let ghost spec_chunks = match decode_spec(buffer@) {
        Ok(c) => c,
        Err(_) => Seq::empty(),
    };
    let mut out: Vec<BigUint> = Vec::new();
    let mut i: usize = 0;
    while i < chunks.len()
        invariant
            decode_spec(buffer@) == Ok::<Seq<Seq<u8>>, DecodeError>(spec_chunks),
            chunks@.len() == spec_chunks.len(),
            forall|j: int| 0 <= j < spec_chunks.len() ==> (#[trigger] chunks@[j])@ == spec_chunks[j],
            0 <= i <= chunks@.len(),
            out@.len() == i,
            forall|j: int| 0 <= j < i ==> out@[j] == biguint_of_le(#[trigger] spec_chunks[j]),
        decreases chunks@.len() - i,
    {
        let element = biguint_from_le(chunks[i].as_slice());
        out.push(element);
        i = i + 1;
    }
    proof {
        assert(out@ =~= witness_values(spec_chunks));
    }
    Ok(out)
}

/// `out` is a value the conversion function `f` may return for some byte
/// slice holding `bytes`.
pub open spec fn converted_from<T, F: Fn(&[u8]) -> T>(f: F, bytes: Seq<u8>, out: T) -> bool {
    exists|c: &[u8]| c@ == bytes && f.ensures((c,), out)
}

/// Decode a witness container, converting each element chunk with the
/// given function.
///
/// The conversion function is applied to each `element_width`-byte chunk
/// of the data payload in order; whatever it may return for chunk `i`
/// bounds what element `i` of the output can be.
pub fn parse_witness_to<T, F: Fn(&[u8]) -> T>(buffer: &[u8], from_le_bytes: F) -> (r: Result<
    Vec<T>,
    DecodeError,
>)
    requires
        forall|c: &[u8]| #[trigger] from_le_bytes.requires((c,)),
    ensures
        match decode_spec(buffer@) {
            Ok(chunks) => {
                &&& r matches Ok(v)
                &&& v@.len() == chunks.len()
                &&& forall|i: int|
                    0 <= i < chunks.len() ==> converted_from(
                        from_le_bytes,
                        chunks[i],
                        #[trigger] v@[i],
                    )
            },
            Err(e) => r == Err::<Vec<T>, DecodeError>(e),
        },
{
    let chunks = match decode_data_chunks(buffer) {
        Ok(c) => c,
        Err(e) => {
            return Err(e);
        },
    };
    let ghost spec_chunks = match decode_spec(buffer@) {
        Ok(c) => c,
        Err(_) => Seq::empty(),
    };
    let mut out: Vec<T> = Vec::new();
    let mut i: usize = 0;
    while i < chunks.len()
        invariant
            forall|c: &[u8]| #[trigger] from_le_bytes.requires((c,)),
            decode_spec(buffer@) == Ok::<Seq<Seq<u8>>, DecodeError>(spec_chunks),
            chunks@.len() == spec_chunks.len(),
            forall|j: int| 0 <= j < spec_chunks.len() ==> (#[trigger] chunks@[j])@ == spec_chunks[j],
            0 <= i <= chunks@.len(),
            out@.len() == i,
            forall|j: int|
                0 <= j < i ==> converted_from(from_le_bytes, spec_chunks[j], #[trigger] out@[j]),
        decreases chunks@.len() - i,
    {
        let ghost out_before = out@;
        let chunk = chunks[i].as_slice();
        let element = from_le_bytes(chunk);
        out.push(element);
        proof {
            assert(out@ == out_before.push(element));
            assert forall|j: int|
                0 <= j < i + 1 implies converted_from(
                from_le_bytes,
                spec_chunks[j],
                #[trigger] out@[j],
            ) by {
                if j < i as int {
                    assert(out@[j] == out_before[j]);
                } else {
                    assert(out@[j] == element);
                    assert(chunk@ == spec_chunks[j]);
                    assert(from_le_bytes.ensures((chunk,), element));
                }
            }
        }
        i = i + 1;
    }
    Ok(out)
}

} // verus!

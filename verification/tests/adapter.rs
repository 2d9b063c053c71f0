use std::collections::HashMap;

use num_bigint::{BigInt, BigUint};
use witnesscalc_adapter::bigints::{parse_witness_to, parse_witness_to_bigints};
use witnesscalc_adapter::cursor::ByteCursor;
use witnesscalc_adapter::errors::DecodeError;
use witnesscalc_adapter::inputs::convert_inputs_to_json;
use witnesscalc_adapter::scanner::FieldWidthHeader;

fn example_container() -> Vec<u8> {
    let mut buf = Vec::new();
    buf.extend_from_slice(b"wtns");
    buf.extend_from_slice(&2u32.to_le_bytes());
    buf.extend_from_slice(&2u32.to_le_bytes());
    // field-width header section: width 8, modulus bytes 0..32, declared count 2
    buf.extend_from_slice(&1u32.to_le_bytes());
    buf.extend_from_slice(&40u64.to_le_bytes());
    buf.extend_from_slice(&8u32.to_le_bytes());
    let modulus: Vec<u8> = (0u8..32).collect();
    buf.extend_from_slice(&modulus);
    buf.extend_from_slice(&2u32.to_le_bytes());
    // data section: two 8-byte chunks, 7 and 9
    buf.extend_from_slice(&2u32.to_le_bytes());
    buf.extend_from_slice(&16u64.to_le_bytes());
    buf.extend_from_slice(&7u64.to_le_bytes());
    buf.extend_from_slice(&9u64.to_le_bytes());
    buf
}

#[test]
fn test_cursor_reads_little_endian() {
    let bytes = [0x78, 0x56, 0x34, 0x12, 0xff, 0x00, 0x00, 0x00, 0x00, 0x00, 0x00, 0x01];
    let mut cursor = ByteCursor::new(&bytes);
    assert_eq!(cursor.read_u32_le(), Ok(0x12345678));
    assert_eq!(cursor.read_u64_le(), Ok(0x0100_0000_0000_00ffu64));
}

#[test]
fn test_cursor_bounds() {
    let bytes = [1, 2, 3];
    let mut cursor = ByteCursor::new(&bytes);
    assert_eq!(
        cursor.read_u32_le(),
        Err(DecodeError::BufferTooShort { requested: 4, available: 3 })
    );
    // the failed read consumed nothing
    assert_eq!(cursor.read_exact(3), Ok(vec![1, 2, 3]));
    assert_eq!(
        cursor.skip(1),
        Err(DecodeError::BufferTooShort { requested: 1, available: 0 })
    );
}

#[test]
fn test_parse_witness_to_chunk_lengths() {
    let buf = example_container();
    let lengths = parse_witness_to(&buf, |chunk: &[u8]| chunk.len()).unwrap();
    assert_eq!(lengths, vec![8, 8]);
}

#[test]
fn test_parse_witness_to_u64() {
    let buf = example_container();
    let values = parse_witness_to(&buf, |chunk: &[u8]| {
        let mut raw = [0u8; 8];
        raw.copy_from_slice(chunk);
        u64::from_le_bytes(raw)
    })
    .unwrap();
    assert_eq!(values, vec![7, 9]);
}

#[test]
fn test_parse_witness_to_bigints_matches_generic() {
    let buf = example_container();
    let direct = parse_witness_to_bigints(&buf).unwrap();
    let via_generic = parse_witness_to(&buf, BigUint::from_bytes_le).unwrap();
    assert_eq!(direct, via_generic);
    assert_eq!(direct, vec![BigUint::from(7u8), BigUint::from(9u8)]);
}

#[test]
fn test_modulus_preserved_and_signed() {
    // all-ones bytes decode to -1 under the signed interpretation
    let header = FieldWidthHeader {
        element_width: 32,
        modulus: vec![0xff; 32],
        declared_count: 0,
    };
    assert_eq!(header.modulus_bigint(), BigInt::from(-1));
    let header = FieldWidthHeader {
        element_width: 32,
        modulus: {
            let mut m = vec![0u8; 32];
            m[0] = 1;
            m
        },
        declared_count: 0,
    };
    assert_eq!(header.modulus_bigint(), BigInt::from(1));
}

#[test]
fn test_convert_inputs_to_json_sorted_keys() {
    let mut inputs = HashMap::new();
    inputs.insert("b".to_string(), vec!["3".to_string()]);
    inputs.insert("a".to_string(), vec!["2".to_string()]);
    let json = convert_inputs_to_json(inputs);
    assert_eq!(json, "{\"a\":[\"2\"],\"b\":[\"3\"]}");
}

#[test]
fn test_convert_inputs_to_json_empty() {
    let json = convert_inputs_to_json(HashMap::new());
    assert_eq!(json, "{}");
}

#[test]
fn test_convert_inputs_to_json_multiple_values() {
    let mut inputs = HashMap::new();
    inputs.insert("in".to_string(), vec!["0".to_string(), "1".to_string()]);
    let json = convert_inputs_to_json(inputs);
    assert_eq!(json, "{\"in\":[\"0\",\"1\"]}");
}

#[test]
fn test_error_messages() {
    assert_eq!(DecodeError::InvalidMagic.message(), "invalid witness file format");
    assert_eq!(DecodeError::SectionNotFound.message(), "witness section not found");
    assert_eq!(
        DecodeError::BufferTooShort { requested: 4, available: 0 }.message(),
        "unexpected end of witness buffer"
    );
    assert_eq!(
        DecodeError::MissingHeader.message(),
        "witness data appeared before the field-width header"
    );
    assert_eq!(
        DecodeError::MisalignedChunk.message(),
        "witness data length is not a multiple of the element width"
    );
}

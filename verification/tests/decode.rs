use num_bigint::BigUint;
use witnesscalc_adapter::errors::DecodeError;
use witnesscalc_adapter::bigints::parse_witness_to_bigints;

fn section(id: u32, payload: &[u8]) -> Vec<u8> {
    let mut out = Vec::new();
    out.extend_from_slice(&id.to_le_bytes());
    out.extend_from_slice(&(payload.len() as u64).to_le_bytes());
    out.extend_from_slice(payload);
    out
}

fn header_section(element_width: u32, modulus: [u8; 32], declared_count: u32) -> Vec<u8> {
    let mut payload = Vec::new();
    payload.extend_from_slice(&element_width.to_le_bytes());
    payload.extend_from_slice(&modulus);
    payload.extend_from_slice(&declared_count.to_le_bytes());
    section(1, &payload)
}

fn container(magic: &[u8; 4], version: u32, section_count: u32, sections: &[Vec<u8>]) -> Vec<u8> {
    let mut out = Vec::new();
    out.extend_from_slice(magic);
    out.extend_from_slice(&version.to_le_bytes());
    out.extend_from_slice(&section_count.to_le_bytes());
    for s in sections {
        out.extend_from_slice(s);
    }
    out
}

fn single_element_container() -> Vec<u8> {
    let mut data = [0u8; 32];
    data[0] = 6;
    container(
        b"wtns",
        1,
        2,
        &[header_section(32, [0u8; 32], 1), section(2, &data)],
    )
}

#[test]
fn test_decode_single_element() {
    let buf = single_element_container();
    let witness = parse_witness_to_bigints(&buf).unwrap();
    assert_eq!(witness.len(), 1);
    assert_eq!(witness[0], BigUint::from(6u8));
}

#[test]
fn test_invalid_magic() {
    let mut data = [0u8; 32];
    data[0] = 6;
    let buf = container(
        b"xxxx",
        1,
        2,
        &[header_section(32, [0u8; 32], 1), section(2, &data)],
    );
    assert_eq!(parse_witness_to_bigints(&buf), Err(DecodeError::InvalidMagic));
}

#[test]
fn test_section_not_found() {
    let buf = container(b"wtns", 1, 1, &[header_section(32, [0u8; 32], 1)]);
    assert_eq!(parse_witness_to_bigints(&buf), Err(DecodeError::SectionNotFound));
}

#[test]
fn test_four_elements_width_eight() {
    let mut data = Vec::new();
    for value in 0u64..4 {
        data.extend_from_slice(&value.to_le_bytes());
    }
    let buf = container(
        b"wtns",
        1,
        2,
        &[header_section(8, [0u8; 32], 4), section(2, &data)],
    );
    let witness = parse_witness_to_bigints(&buf).unwrap();
    assert_eq!(witness.len(), 4);
    for (i, value) in witness.iter().enumerate() {
        assert_eq!(*value, BigUint::from(i));
    }
}

#[test]
fn test_data_before_header() {
    let data = [0u8; 32];
    let buf = container(
        b"wtns",
        1,
        2,
        &[section(2, &data), header_section(32, [0u8; 32], 1)],
    );
    assert_eq!(parse_witness_to_bigints(&buf), Err(DecodeError::MissingHeader));
}

#[test]
fn test_misaligned_chunk() {
    let data = [0u8; 10];
    let buf = container(
        b"wtns",
        1,
        2,
        &[header_section(4, [0u8; 32], 2), section(2, &data)],
    );
    assert_eq!(parse_witness_to_bigints(&buf), Err(DecodeError::MisalignedChunk));
}

#[test]
fn test_zero_width_is_misaligned() {
    let data = [0u8; 8];
    let buf = container(
        b"wtns",
        1,
        2,
        &[header_section(0, [0u8; 32], 0), section(2, &data)],
    );
    assert_eq!(parse_witness_to_bigints(&buf), Err(DecodeError::MisalignedChunk));
}

#[test]
fn test_empty_buffer() {
    assert_eq!(
        parse_witness_to_bigints(&[]),
        Err(DecodeError::BufferTooShort { requested: 4, available: 0 })
    );
}

#[test]
fn test_short_magic() {
    assert_eq!(
        parse_witness_to_bigints(b"wt"),
        Err(DecodeError::BufferTooShort { requested: 4, available: 2 })
    );
}

#[test]
fn test_truncation_always_fails_cleanly() {
    let buf = single_element_container();
    for cut in 0..buf.len() {
        let result = parse_witness_to_bigints(&buf[..cut]);
        assert!(matches!(result, Err(DecodeError::BufferTooShort { .. })));
    }
}

#[test]
fn test_unknown_section_tolerated() {
    let mut data = [0u8; 32];
    data[0] = 6;
    let plain = container(
        b"wtns",
        1,
        2,
        &[header_section(32, [0u8; 32], 1), section(2, &data)],
    );
    let with_extra = container(
        b"wtns",
        1,
        3,
        &[
            header_section(32, [0u8; 32], 1),
            section(7, &[0xde, 0xad, 0xbe, 0xef]),
            section(2, &data),
        ],
    );
    assert_eq!(
        parse_witness_to_bigints(&plain).unwrap(),
        parse_witness_to_bigints(&with_extra).unwrap()
    );
}

#[test]
fn test_unknown_section_before_header_tolerated() {
    let mut data = [0u8; 32];
    data[0] = 6;
    let with_extra = container(
        b"wtns",
        1,
        3,
        &[
            section(1000, &[1, 2, 3]),
            header_section(32, [0u8; 32], 1),
            section(2, &data),
        ],
    );
    let witness = parse_witness_to_bigints(&with_extra).unwrap();
    assert_eq!(witness, vec![BigUint::from(6u8)]);
}

#[test]
fn test_sections_after_data_never_read() {
    let mut data = [0u8; 32];
    data[0] = 6;
    let mut buf = container(
        b"wtns",
        1,
        3,
        &[header_section(32, [0u8; 32], 1), section(2, &data)],
    );
    // a garbage trailer where the third section should be: never reached
    buf.extend_from_slice(&[0xff, 0xff]);
    let witness = parse_witness_to_bigints(&buf).unwrap();
    assert_eq!(witness, vec![BigUint::from(6u8)]);
}

#[test]
fn test_empty_data_payload() {
    let buf = container(
        b"wtns",
        1,
        2,
        &[header_section(32, [0u8; 32], 0), section(2, &[])],
    );
    let witness = parse_witness_to_bigints(&buf).unwrap();
    assert_eq!(witness.len(), 0);
}

#[test]
fn test_declared_count_plays_no_part() {
    let mut data = [0u8; 16];
    data[0] = 1;
    data[8] = 2;
    let buf = container(
        b"wtns",
        1,
        2,
        &[header_section(8, [0u8; 32], 99), section(2, &data)],
    );
    let witness = parse_witness_to_bigints(&buf).unwrap();
    assert_eq!(witness.len(), 2);
    assert_eq!(witness[0], BigUint::from(1u8));
    assert_eq!(witness[1], BigUint::from(2u8));
}

#[test]
fn test_last_header_wins() {
    let data = [5u8; 16];
    let buf = container(
        b"wtns",
        1,
        3,
        &[
            header_section(32, [0u8; 32], 1),
            header_section(8, [0u8; 32], 2),
            section(2, &data),
        ],
    );
    let witness = parse_witness_to_bigints(&buf).unwrap();
    assert_eq!(witness.len(), 2);
}

#[test]
fn test_decode_large_element() {
    // a chunk with its top byte set exercises the full width
    let mut data = [0u8; 32];
    data[31] = 0x80;
    let buf = container(
        b"wtns",
        1,
        2,
        &[header_section(32, [0u8; 32], 1), section(2, &data)],
    );
    let witness = parse_witness_to_bigints(&buf).unwrap();
    let expected = BigUint::from(0x80u8) << (8 * 31);
    assert_eq!(witness[0], expected);
}

#[test]
fn test_count_overruns_buffer() {
    // five sections declared, one present: the scan runs off the end
    let buf = container(b"wtns", 1, 5, &[header_section(32, [0u8; 32], 1)]);
    let result = parse_witness_to_bigints(&buf);
    assert!(matches!(result, Err(DecodeError::BufferTooShort { .. })));
}

#[test]
fn test_first_data_section_wins() {
    let first = [1u8; 8];
    let second = [2u8; 8];
    let buf = container(
        b"wtns",
        1,
        3,
        &[
            header_section(8, [0u8; 32], 1),
            section(2, &first),
            section(2, &second),
        ],
    );
    let witness = parse_witness_to_bigints(&buf).unwrap();
    assert_eq!(witness.len(), 1);
    assert_eq!(witness[0], BigUint::from_bytes_le(&first));
}

#[test]
fn test_decode_deterministic() {
    let buf = single_element_container();
    let first = parse_witness_to_bigints(&buf);
    let second = parse_witness_to_bigints(&buf);
    assert_eq!(first, second);
}

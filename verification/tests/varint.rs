use holi_p2p::varint::{
    decode_u32_varint, decode_u64_varint, encode_u32_varint, encode_u64_varint, VarintError,
};

fn encoded_u32(value: u32) -> Vec<u8> {
    let mut buf = Vec::new();
    encode_u32_varint(value, &mut buf);
    buf
}

fn encoded_u64(value: u64) -> Vec<u8> {
    let mut buf = Vec::new();
    encode_u64_varint(value, &mut buf);
    buf
}

#[test]
fn roundtrip_varint() {
    let values = [0u32, 1, 2, 127, 128, 129, 16_383, 16_384, u32::MAX];
    for value in values {
        let mut buf = Vec::new();
        encode_u32_varint(value, &mut buf);
        let (decoded, used) = decode_u32_varint(&buf).unwrap();
        assert_eq!(decoded, value);
        assert_eq!(used, buf.len());
    }
}

#[test]
fn roundtrip_varint_u64() {
    let values = [0u64, 1, 2, 127, 128, 129, 16_383, 16_384, u64::MAX];
    for value in values {
        let mut buf = Vec::new();
        encode_u64_varint(value, &mut buf);
        let (decoded, used) = decode_u64_varint(&buf).unwrap();
        assert_eq!(decoded, value);
        assert_eq!(used, buf.len());
    }
}

#[test]
fn varint_exact_bytes() {
    assert_eq!(encoded_u32(0), vec![0x00]);
    assert_eq!(encoded_u32(1), vec![0x01]);
    assert_eq!(encoded_u32(127), vec![0x7F]);
    assert_eq!(encoded_u32(128), vec![0x80, 0x01]);
    assert_eq!(encoded_u32(300), vec![0xAC, 0x02]);
    assert_eq!(encoded_u32(16_383), vec![0xFF, 0x7F]);
    assert_eq!(encoded_u32(16_384), vec![0x80, 0x80, 0x01]);
    assert_eq!(encoded_u32(u32::MAX), vec![0xFF, 0xFF, 0xFF, 0xFF, 0x0F]);
    assert_eq!(encoded_u64(300), vec![0xAC, 0x02]);
    assert_eq!(
        encoded_u64(u64::MAX),
        vec![0xFF, 0xFF, 0xFF, 0xFF, 0xFF, 0xFF, 0xFF, 0xFF, 0xFF, 0x01]
    );
}

#[test]
fn varint_encode_appends() {
    let mut buf = vec![0xAA, 0xBB];
    encode_u32_varint(300, &mut buf);
    encode_u64_varint(1, &mut buf);
    assert_eq!(buf, vec![0xAA, 0xBB, 0xAC, 0x02, 0x01]);
}

#[test]
fn varint_length_bounds() {
    let mut shift = 0;
    while shift < 32 {
        let n = encoded_u32(1u32 << shift).len();
        assert!((1..=5).contains(&n));
        assert_eq!(n, shift / 7 + 1);
        shift += 1;
    }
    let mut shift = 0;
    while shift < 64 {
        let n = encoded_u64(1u64 << shift).len();
        assert!((1..=10).contains(&n));
        assert_eq!(n, shift / 7 + 1);
        shift += 1;
    }
}

#[test]
fn varint_decode_stops_at_terminator() {
    assert_eq!(decode_u32_varint(&[0xAC, 0x02, 0xFF, 0xFF]), Ok((300, 2)));
    assert_eq!(decode_u64_varint(&[0x05, 0x80]), Ok((5, 1)));
}

#[test]
fn varint_decode_empty_is_eof() {
    assert_eq!(decode_u32_varint(&[]), Err(VarintError::UnexpectedEof));
    assert_eq!(decode_u64_varint(&[]), Err(VarintError::UnexpectedEof));
}

#[test]
fn varint_decode_truncated_is_eof() {
    let whole = encoded_u32(u32::MAX);
    for cut in 0..whole.len() {
        assert_eq!(decode_u32_varint(&whole[..cut]), Err(VarintError::UnexpectedEof));
    }
    let whole = encoded_u64(u64::MAX);
    for cut in 0..whole.len() {
        assert_eq!(decode_u64_varint(&whole[..cut]), Err(VarintError::UnexpectedEof));
    }
    assert_eq!(decode_u32_varint(&[0x80; 5]), Err(VarintError::UnexpectedEof));
    assert_eq!(decode_u64_varint(&[0x80; 10]), Err(VarintError::UnexpectedEof));
}

#[test]
fn varint_decode_overlong_is_overflow() {
    assert_eq!(
        decode_u32_varint(&[0x80, 0x80, 0x80, 0x80, 0x80, 0x00]),
        Err(VarintError::Overflow)
    );
    assert_eq!(decode_u32_varint(&[0xFF; 6]), Err(VarintError::Overflow));
    assert_eq!(decode_u64_varint(&[0x80; 11]), Err(VarintError::Overflow));
    let mut long = vec![0x80; 10];
    long.push(0x00);
    assert_eq!(decode_u64_varint(&long), Err(VarintError::Overflow));
}

#[test]
fn varint_decode_accepts_non_canonical() {
    assert_eq!(decode_u32_varint(&[0x80, 0x00]), Ok((0, 2)));
    assert_eq!(decode_u32_varint(&[0x81, 0x80, 0x80, 0x80, 0x00]), Ok((1, 5)));
    assert_eq!(decode_u64_varint(&[0xFF, 0x80, 0x00]), Ok((127, 3)));
}

#[test]
fn varint_decode_drops_bits_past_the_width() {
    assert_eq!(decode_u32_varint(&[0xFF, 0xFF, 0xFF, 0xFF, 0x7F]), Ok((u32::MAX, 5)));
    assert_eq!(decode_u32_varint(&[0x80, 0x80, 0x80, 0x80, 0x10]), Ok((0, 5)));
    assert_eq!(decode_u32_varint(&[0x81, 0x80, 0x80, 0x80, 0x1F]), Ok((0xF000_0001, 5)));
    assert_eq!(
        decode_u64_varint(&[0xFF, 0xFF, 0xFF, 0xFF, 0xFF, 0xFF, 0xFF, 0xFF, 0xFF, 0x7F]),
        Ok((u64::MAX, 10))
    );
    assert_eq!(
        decode_u64_varint(&[0x80, 0x80, 0x80, 0x80, 0x80, 0x80, 0x80, 0x80, 0x80, 0x02]),
        Ok((0, 10))
    );
}

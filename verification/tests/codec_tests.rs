use vector_store::codec;

#[test]
fn deleted_vectors_and_slice_equality() {
    let v = vec![1, 456, 65570];
    assert!(v == [1, 456, 65570]);
}

#[test]
fn deleted_db_vectors_and_slice_equality() {
    let v = vec![1, 456, 65570];
    assert!(v == [1, 456, 65570]);
}

#[test]
fn u64_codec_round_trip() {
    for x in [0u64, 1, 255, 256, 0xDEAD_BEEF, u64::MAX] {
        let b = codec::encode_u64(x);
        assert_eq!(b.len(), 8);
        assert_eq!(codec::decode_u64(&b), Some(x));
    }
    assert_eq!(codec::encode_u64(0x0102_0304_0506_0708), vec![1, 2, 3, 4, 5, 6, 7, 8]);
    assert_eq!(codec::decode_u64(&[1, 2, 3]), None);
}

#[test]
fn u64_codec_keeps_order() {
    // Big-endian keys compare bytewise in numeric order.
    let a = codec::encode_u64(3);
    let b = codec::encode_u64(300);
    assert!(a < b);
}

#[test]
fn u128_codec_round_trip() {
    for x in [0u128, 1, u64::MAX as u128 + 5, u128::MAX] {
        let b = codec::encode_u128(x);
        assert_eq!(b.len(), 16);
        assert_eq!(codec::decode_u128(&b), Some(x));
    }
    assert_eq!(codec::decode_u128(&[0; 15]), None);
}

#[test]
fn i32_codec_round_trip() {
    for x in [0i32, 1, -1, i32::MAX, i32::MIN, 42, -42] {
        let b = codec::encode_i32(x);
        assert_eq!(b.len(), 4);
        assert_eq!(codec::decode_i32(&b), Some(x));
    }
    assert_eq!(codec::decode_i32(&[0; 5]), None);
}

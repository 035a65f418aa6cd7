use ordered_varint::{Error, Signed, Unsigned, Variable};

#[test]
fn unsigned_exact_bytes() {
    assert_eq!(0_u8.to_variable_vec().unwrap(), vec![0x00]);
    assert_eq!(15_u8.to_variable_vec().unwrap(), vec![0x0F]);
    assert_eq!(16_u8.to_variable_vec().unwrap(), vec![0x10, 0x10]);
    assert_eq!(255_u8.to_variable_vec().unwrap(), vec![0x10, 0xFF]);
    assert_eq!(4095_u16.to_variable_vec().unwrap(), vec![0x1F, 0xFF]);
    assert_eq!(4096_u16.to_variable_vec().unwrap(), vec![0x20, 0x10, 0x00]);
}

#[test]
fn signed_exact_bytes() {
    assert_eq!(0_i8.to_variable_vec().unwrap(), vec![0x80]);
    assert_eq!(7_i8.to_variable_vec().unwrap(), vec![0x87]);
    assert_eq!((-1_i8).to_variable_vec().unwrap(), vec![0x7F]);
    assert_eq!((-8_i8).to_variable_vec().unwrap(), vec![0x78]);
    assert_eq!(127_i8.to_variable_vec().unwrap(), vec![0x88, 0x7F]);
    assert_eq!((-128_i8).to_variable_vec().unwrap(), vec![0x77, 0x80]);
}

#[test]
fn unsigned_range_enforcement() {
    let mut out = Vec::new();
    assert_eq!(
        Unsigned::encode_be_bytes(1_u128 << 124, &mut out),
        Err(Error::OutOfRange)
    );
    assert!(out.is_empty(), "a failed encode must write nothing");
    assert_eq!(
        Unsigned::encode_be_bytes((1_u128 << 124) - 1, &mut out),
        Ok(16)
    );
    assert_eq!(out.len(), 16);
}

#[test]
fn signed_range_enforcement() {
    let mut out = Vec::new();
    assert_eq!(
        Signed::encode_be_bytes(1_i128 << 123, &mut out),
        Err(Error::OutOfRange)
    );
    assert_eq!(
        Signed::encode_be_bytes(-(1_i128 << 123) - 1, &mut out),
        Err(Error::OutOfRange)
    );
    assert!(out.is_empty(), "a failed encode must write nothing");
    assert_eq!(Signed::encode_be_bytes((1_i128 << 123) - 1, &mut out), Ok(16));
    assert_eq!(out.len(), 16);
    out.clear();
    assert_eq!(Signed::encode_be_bytes(-(1_i128 << 123), &mut out), Ok(16));
    assert_eq!(out.len(), 16);
}

#[test]
fn narrowing_out_of_range() {
    // 2^32 occupies four payload bytes, which a u32 header allows, but the
    // value itself does not fit a u32.
    let bytes = (1_u64 << 32).to_variable_vec().unwrap();
    assert_eq!(u32::decode_variable(&bytes[..]), Err(Error::OutOfRange));
    assert_eq!(u64::decode_variable(&bytes[..]), Ok(1_u64 << 32));

    let bytes = (1_i64 << 31).to_variable_vec().unwrap();
    assert_eq!(i32::decode_variable(&bytes[..]), Err(Error::OutOfRange));
    assert_eq!(i64::decode_variable(&bytes[..]), Ok(1_i64 << 31));
}

#[test]
fn narrowing_invalid_header() {
    // u64::MAX needs eight payload bytes; a u32 can never need more than
    // four, so the header alone is rejected.
    let bytes = u64::MAX.to_variable_vec().unwrap();
    assert_eq!(u32::decode_variable(&bytes[..]), Err(Error::InvalidHeader));
    let bytes = i64::MIN.to_variable_vec().unwrap();
    assert_eq!(i32::decode_variable(&bytes[..]), Err(Error::InvalidHeader));
}

#[test]
fn truncated_input() {
    assert_eq!(u32::decode_variable(&[]), Err(Error::Truncated));
    assert_eq!(i32::decode_variable(&[]), Err(Error::Truncated));
    // Header announces one payload byte; none follows.
    assert_eq!(u8::decode_variable(&[0x10]), Err(Error::Truncated));
    assert_eq!(i8::decode_variable(&[0x88]), Err(Error::Truncated));
    // Header announces two payload bytes; only one follows.
    assert_eq!(u16::decode_variable(&[0x20, 0x01]), Err(Error::Truncated));
    assert_eq!(Unsigned::decode_variable(&[]), Err(Error::Truncated));
    assert_eq!(Signed::decode_variable(&[]), Err(Error::Truncated));
}

#[test]
fn decode_ignores_trailing_bytes() {
    let mut bytes = 300_u16.to_variable_vec().unwrap();
    let consumed = bytes.len();
    bytes.extend_from_slice(&[0xAB, 0xCD, 0xEF]);
    assert_eq!(u16::decode_variable(&bytes[..]), Ok(300));
    let (value, used) = Unsigned::decode_variable_bytes(&bytes[..], 16).unwrap();
    assert_eq!(value, 300);
    assert_eq!(used, consumed);

    let mut bytes = (-300_i16).to_variable_vec().unwrap();
    let consumed = bytes.len();
    bytes.extend_from_slice(&[0xAB]);
    assert_eq!(i16::decode_variable(&bytes[..]), Ok(-300));
    let (value, used) = Signed::decode_variable_bytes(&bytes[..], 16).unwrap();
    assert_eq!(value, -300);
    assert_eq!(used, consumed);
}

#[test]
fn ordering_across_sign_boundary() {
    let pairs = [
        (i64::MIN as i128, -(1_i128 << 62)),
        (-(1_i128 << 62), -4096),
        (-4096, -1),
        (-1, 0),
        (0, 1),
        (1, 4096),
        (4096, i64::MAX as i128),
        (i64::MAX as i128, (1_i128 << 123) - 1),
        (-(1_i128 << 123), i64::MIN as i128),
    ];
    for (a, b) in pairs {
        let ea = Signed::from(a).to_variable_vec().unwrap();
        let eb = Signed::from(b).to_variable_vec().unwrap();
        assert!(ea < eb, "{a} should order before {b}: {ea:02x?} vs {eb:02x?}");
    }
}

#[test]
fn length_thresholds() {
    // Unsigned: the byte count steps up exactly when the four header bits
    // run out.
    assert_eq!(0_u128.to_variable_vec().unwrap().len(), 1);
    assert_eq!(15_u128.to_variable_vec().unwrap().len(), 1);
    assert_eq!(16_u128.to_variable_vec().unwrap().len(), 2);
    // Signed: the step comes when the three header bits (plus sign) run
    // out, on either side of zero.
    assert_eq!(0_i128.to_variable_vec().unwrap().len(), 1);
    assert_eq!(127_i128.to_variable_vec().unwrap().len(), 2);
    assert_eq!((-128_i128).to_variable_vec().unwrap().len(), 2);
    // Growing magnitude never shrinks the encoding.
    let mut last = 0;
    for value in [0_u64, 1, 15, 16, 255, 4096, 65535, 1 << 20, 1 << 40, u64::MAX] {
        let len = value.to_variable_vec().unwrap().len();
        assert!(len >= last, "length shrank at {value}");
        last = len;
    }
}

#[test]
fn canonical_struct_roundtrip() {
    for value in [0_u128, 1, 15, 16, 0xFFFF, 1 << 80, (1 << 124) - 1] {
        let wrapped = Unsigned::from(value);
        let bytes = wrapped.to_variable_vec().unwrap();
        assert_eq!(Unsigned::decode_variable(&bytes[..]).unwrap(), wrapped);
        assert_eq!(u128::from(Unsigned::decode_variable(&bytes[..]).unwrap()), value);
    }
    for value in [0_i128, -1, 7, -8, 127, -128, 1 << 80, -(1 << 123)] {
        let wrapped = Signed::from(value);
        let bytes = wrapped.to_variable_vec().unwrap();
        assert_eq!(Signed::decode_variable(&bytes[..]).unwrap(), wrapped);
        assert_eq!(i128::from(Signed::decode_variable(&bytes[..]).unwrap()), value);
    }
}

#[test]
fn header_payload_counts() {
    // The first byte of an encoding announces how many payload bytes
    // follow it.
    for value in [0_u64, 15, 16, 4095, 4096, 1 << 20, u64::MAX] {
        let bytes = value.to_variable_vec().unwrap();
        assert_eq!(Unsigned::header_extra_bytes(bytes[0]), bytes.len() - 1);
    }
    for value in [0_i64, 7, -8, 127, -128, 1 << 20, -(1 << 20), i64::MIN, i64::MAX] {
        let bytes = value.to_variable_vec().unwrap();
        assert_eq!(Signed::header_extra_bytes(bytes[0]), bytes.len() - 1);
    }
}

#[test]
fn conversion_failures() {
    assert_eq!(u8::try_from(Unsigned::from(256_u16)), Err(Error::OutOfRange));
    assert_eq!(u8::try_from(Unsigned::from(255_u16)), Ok(255));
    assert_eq!(i8::try_from(Signed::from(128_i16)), Err(Error::OutOfRange));
    assert_eq!(i8::try_from(Signed::from(-129_i16)), Err(Error::OutOfRange));
    assert_eq!(i8::try_from(Signed::from(-128_i16)), Ok(-128));
}

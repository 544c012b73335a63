//! Concrete wire-format scenarios, error cases, and the layout's edge rules.

use bytes_codec::codec::BytesConvertable;
use bytes_codec::codec::DecodeError;

#[test]
fn encode_u32_300() {
    assert_eq!(300u32.into_bytes(), vec![0x00, 0x00, 0x01, 0x2C]);
    assert_eq!(
        <u32 as BytesConvertable>::from_bytes(vec![0x00, 0x00, 0x01, 0x2C]),
        Ok(300)
    );
}

#[test]
fn encode_bool_sentinels() {
    assert_eq!(true.into_bytes(), vec![0x01]);
    assert_eq!(false.into_bytes(), vec![0x00]);
    assert_eq!(<bool as BytesConvertable>::from_bytes(vec![0x01]), Ok(true));
    assert_eq!(<bool as BytesConvertable>::from_bytes(vec![0x00]), Ok(false));
}

#[test]
fn bool_decode_is_lenient() {
    // Any byte other than the true-sentinel reads as false, by the
    // documented policy; only an empty input is an error.
    assert_eq!(<bool as BytesConvertable>::from_bytes(vec![0x02]), Ok(false));
    assert_eq!(<bool as BytesConvertable>::from_bytes(vec![0xFF]), Ok(false));
    assert_eq!(
        <bool as BytesConvertable>::from_bytes(vec![]),
        Err(DecodeError::TruncatedInput)
    );
}

#[test]
fn encode_char_a() {
    assert_eq!('A'.into_bytes(), vec![0x00, 0x00, 0x00, 0x41]);
    assert_eq!(
        <char as BytesConvertable>::from_bytes(vec![0x00, 0x00, 0x00, 0x41]),
        Ok('A')
    );
}

#[test]
fn encode_text_hi() {
    assert_eq!(String::from("hi").into_bytes(), vec![0x68, 0x69]);
    assert_eq!(
        <String as BytesConvertable>::from_bytes(vec![0x68, 0x69]),
        Ok(String::from("hi"))
    );
}

#[test]
fn encode_vec_i16() {
    let v: Vec<i16> = vec![1, -1];
    assert_eq!(v.clone().into_bytes(), vec![0x00, 0x01, 0xFF, 0xFF]);
    assert_eq!(
        <Vec<i16> as BytesConvertable>::from_bytes(vec![0x00, 0x01, 0xFF, 0xFF]),
        Ok(v)
    );
}

#[test]
fn empty_vectors() {
    assert_eq!(Vec::<u8>::new().into_bytes(), Vec::<u8>::new());
    assert_eq!(Vec::<i64>::new().into_bytes(), Vec::<u8>::new());
    assert_eq!(Vec::<bool>::new().into_bytes(), Vec::<u8>::new());
    assert_eq!(Vec::<char>::new().into_bytes(), Vec::<u8>::new());
    assert_eq!(
        <Vec<u32> as BytesConvertable>::from_bytes(vec![]),
        Ok(Vec::new())
    );
    assert_eq!(
        <Vec<char> as BytesConvertable>::from_bytes(vec![]),
        Ok(Vec::new())
    );
}

#[test]
fn fixed_width_lengths() {
    assert_eq!(0x7Fi8.into_bytes().len(), 1);
    assert_eq!((-2i16).into_bytes().len(), 2);
    assert_eq!(7i32.into_bytes().len(), 4);
    assert_eq!(7i64.into_bytes().len(), 8);
    assert_eq!(7i128.into_bytes().len(), 16);
    assert_eq!(7u8.into_bytes().len(), 1);
    assert_eq!(7u16.into_bytes().len(), 2);
    assert_eq!(7u32.into_bytes().len(), 4);
    assert_eq!(7u64.into_bytes().len(), 8);
    assert_eq!(7u128.into_bytes().len(), 16);
    assert_eq!(true.into_bytes().len(), 1);
    assert_eq!('z'.into_bytes().len(), 4);
    assert_eq!(().into_bytes().len(), 0);
}

#[test]
fn encoding_is_deterministic() {
    assert_eq!(12345u64.into_bytes(), 12345u64.into_bytes());
    assert_eq!((-77i32).into_bytes(), (-77i32).into_bytes());
    assert_eq!(String::from("déjà").into_bytes(), String::from("déjà").into_bytes());
    assert_eq!(vec![1u16, 2, 3].into_bytes(), vec![1u16, 2, 3].into_bytes());
}

#[test]
fn truncated_inputs_are_rejected() {
    assert_eq!(
        <u32 as BytesConvertable>::from_bytes(vec![0x01, 0x02, 0x03]),
        Err(DecodeError::TruncatedInput)
    );
    assert_eq!(
        <u128 as BytesConvertable>::from_bytes(vec![0xFF; 15]),
        Err(DecodeError::TruncatedInput)
    );
    assert_eq!(
        <i16 as BytesConvertable>::from_bytes(vec![0x01]),
        Err(DecodeError::TruncatedInput)
    );
    assert_eq!(
        <char as BytesConvertable>::from_bytes(vec![0x00, 0x00, 0x41]),
        Err(DecodeError::TruncatedInput)
    );
}

#[test]
fn fixed_width_decode_reads_only_the_prefix() {
    // Excess trailing bytes are ignored by fixed-width scalar decode.
    assert_eq!(
        <u16 as BytesConvertable>::from_bytes(vec![0x00, 0x01, 0xAA, 0xBB]),
        Ok(1)
    );
    assert_eq!(
        <bool as BytesConvertable>::from_bytes(vec![0x01, 0x63]),
        Ok(true)
    );
}

#[test]
fn vector_decode_drops_partial_window() {
    assert_eq!(
        <Vec<u16> as BytesConvertable>::from_bytes(vec![0x00, 0x01, 0x00, 0x02, 0xAA]),
        Ok(vec![1, 2])
    );
}

#[test]
fn invalid_utf8_is_rejected() {
    assert_eq!(
        <String as BytesConvertable>::from_bytes(vec![0xFF]),
        Err(DecodeError::MalformedText)
    );
    assert_eq!(
        <String as BytesConvertable>::from_bytes(vec![0xC3, 0x28]),
        Err(DecodeError::MalformedText)
    );
}

#[test]
fn multibyte_text_decodes() {
    // 0xC3 0xA9 is the two-byte UTF-8 form of 'é'.
    assert_eq!(
        <String as BytesConvertable>::from_bytes(vec![0xC3, 0xA9]),
        Ok(String::from("é"))
    );
}

#[test]
fn surrogate_is_rejected_as_char() {
    let bytes = 0xD800u32.into_bytes();
    assert_eq!(bytes, vec![0x00, 0x00, 0xD8, 0x00]);
    assert_eq!(
        <char as BytesConvertable>::from_bytes(bytes),
        Err(DecodeError::InvalidScalar)
    );
    assert_eq!(
        <char as BytesConvertable>::from_bytes(vec![0x00, 0x11, 0x00, 0x00]),
        Err(DecodeError::InvalidScalar)
    );
}

#[test]
fn vec_char_rejects_invalid_window() {
    let mut bytes = 'o'.into_bytes();
    bytes.extend_from_slice(&[0x00, 0x00, 0xDC, 0x00]);
    assert_eq!(
        <Vec<char> as BytesConvertable>::from_bytes(bytes),
        Err(DecodeError::InvalidScalar)
    );
}

#[test]
fn unit_decode_accepts_anything() {
    assert_eq!(<() as BytesConvertable>::from_bytes(vec![1, 2, 3]), Ok(()));
}

#[test]
fn byte_vector_is_identity() {
    let data = vec![0u8, 255, 7, 13];
    assert_eq!(data.clone().into_bytes(), data);
    assert_eq!(
        <Vec<u8> as BytesConvertable>::from_bytes(data.clone()),
        Ok(data)
    );
}

#[test]
fn signed_negative_values() {
    assert_eq!((-1i32).into_bytes(), vec![0xFF, 0xFF, 0xFF, 0xFF]);
    assert_eq!((-2i8).into_bytes(), vec![0xFE]);
    assert_eq!(
        <i8 as BytesConvertable>::from_bytes(vec![0x80]),
        Ok(i8::MIN)
    );
    assert_eq!(
        <i64 as BytesConvertable>::from_bytes(i64::MIN.into_bytes()),
        Ok(i64::MIN)
    );
    assert_eq!(
        <i128 as BytesConvertable>::from_bytes(i128::MIN.into_bytes()),
        Ok(i128::MIN)
    );
    assert_eq!(
        <i128 as BytesConvertable>::from_bytes(i128::MAX.into_bytes()),
        Ok(i128::MAX)
    );
}

#[test]
fn u128_extremes() {
    assert_eq!(u128::MAX.into_bytes(), vec![0xFF; 16]);
    assert_eq!(
        <u128 as BytesConvertable>::from_bytes(vec![0xFF; 16]),
        Ok(u128::MAX)
    );
    assert_eq!(0u128.into_bytes(), vec![0x00; 16]);
}

#[test]
fn float_values_travel_as_their_bit_patterns() {
    // Floats are carried by the caller as their IEEE-754 bit patterns in the
    // matching unsigned codec.
    let bits32: u32 = 1.5f32.to_bits();
    let back32 = <u32 as BytesConvertable>::from_bytes(bits32.into_bytes()).unwrap();
    assert_eq!(f32::from_bits(back32), 1.5f32);

    let bits64: u64 = (-0.125f64).to_bits();
    let back64 = <u64 as BytesConvertable>::from_bytes(bits64.into_bytes()).unwrap();
    assert_eq!(f64::from_bits(back64), -0.125f64);
}

#[test]
fn test_boxed_downcast_error() {
    let err = DecodeError::TruncatedInput;
    println!("{}", err.message());
    println!("{err:?}");
}

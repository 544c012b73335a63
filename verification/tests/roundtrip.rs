//! Round-trip tests over randomly drawn values, one per supported type.

use bytes_codec::codec::BytesConvertable;
use rand::distributions::Alphanumeric;
use rand::thread_rng;
use rand::Rng;

fn random_string() -> String {
    thread_rng()
        .sample_iter(&Alphanumeric)
        .take(30)
        .map(char::from)
        .collect()
}

fn scalar_round_trip<T>(test_data: T)
where
    T: BytesConvertable + Clone + PartialEq + std::fmt::Debug,
{
    let bytes = test_data.clone().into_bytes();
    let back = <T as BytesConvertable>::from_bytes(bytes).unwrap();
    assert_eq!(test_data, back);
}

fn vector_round_trip<T>()
where
    T: BytesConvertable + Clone + PartialEq + std::fmt::Debug,
    Vec<T>: BytesConvertable,
    rand::distributions::Standard: rand::distributions::Distribution<T>,
{
    let mut rng = rand::thread_rng();
    let num_pts: usize = rng.gen_range(10..50);
    let test_data = (0..num_pts).map(|_| rng.gen()).collect::<Vec<T>>();
    let bytes = test_data.clone().into_bytes();
    let back = <Vec<T> as BytesConvertable>::from_bytes(bytes).unwrap();
    assert_eq!(test_data, back);
}

#[test]
fn test_bytes_conversion_i8() {
    scalar_round_trip::<i8>(rand::thread_rng().gen());
}

#[test]
fn test_bytes_conversion_i16() {
    scalar_round_trip::<i16>(rand::thread_rng().gen());
}

#[test]
fn test_bytes_conversion_i32() {
    scalar_round_trip::<i32>(rand::thread_rng().gen());
}

#[test]
fn test_bytes_conversion_i64() {
    scalar_round_trip::<i64>(rand::thread_rng().gen());
}

#[test]
fn test_bytes_conversion_i128() {
    scalar_round_trip::<i128>(rand::thread_rng().gen());
}

#[test]
fn test_bytes_conversion_u8() {
    scalar_round_trip::<u8>(rand::thread_rng().gen());
}

#[test]
fn test_bytes_conversion_u16() {
    scalar_round_trip::<u16>(rand::thread_rng().gen());
}

#[test]
fn test_bytes_conversion_u32() {
    scalar_round_trip::<u32>(rand::thread_rng().gen());
}

#[test]
fn test_bytes_conversion_u64() {
    scalar_round_trip::<u64>(rand::thread_rng().gen());
}

#[test]
fn test_bytes_conversion_u128() {
    scalar_round_trip::<u128>(rand::thread_rng().gen());
}

#[test]
fn test_bytes_conversion_char() {
    scalar_round_trip::<char>(rand::thread_rng().gen());
}

#[test]
fn test_bytes_conversion_bool() {
    scalar_round_trip::<bool>(rand::thread_rng().gen());
}

#[test]
#[allow(non_snake_case)]
fn test_bytes_conversion_String() {
    let test_data: String = random_string();
    let bytes = <String as BytesConvertable>::into_bytes(test_data.clone());
    let back = <String as BytesConvertable>::from_bytes(bytes).unwrap();
    assert_eq!(test_data, back);
}

#[test]
fn test_bytes_conversion_vec_i8() {
    vector_round_trip::<i8>();
}

#[test]
fn test_bytes_conversion_vec_i16() {
    vector_round_trip::<i16>();
}

#[test]
fn test_bytes_conversion_vec_i32() {
    vector_round_trip::<i32>();
}

#[test]
fn test_bytes_conversion_vec_i64() {
    vector_round_trip::<i64>();
}

#[test]
fn test_bytes_conversion_vec_i128() {
    vector_round_trip::<i128>();
}

#[test]
fn test_bytes_conversion_vec_u8() {
    vector_round_trip::<u8>();
}

#[test]
fn test_bytes_conversion_vec_u16() {
    vector_round_trip::<u16>();
}

#[test]
fn test_bytes_conversion_vec_u32() {
    vector_round_trip::<u32>();
}

#[test]
fn test_bytes_conversion_vec_u64() {
    vector_round_trip::<u64>();
}

#[test]
fn test_bytes_conversion_vec_u128() {
    vector_round_trip::<u128>();
}

#[test]
fn test_bytes_conversion_vec_char() {
    vector_round_trip::<char>();
}

#[test]
fn test_bytes_conversion_vec_bool() {
    vector_round_trip::<bool>();
}

#[test]
fn test_bytes_conversion_unit() {
    let bytes = ().into_bytes();
    assert_eq!(bytes, Vec::<u8>::new());
    let back = <() as BytesConvertable>::from_bytes(bytes).unwrap();
    assert_eq!((), back);
}

use std::mem::ManuallyDrop;

use ffi_core::ffi::buffer::FFIBuffer;
use ffi_core::ffi::default::FFIDefault;
use ffi_core::{check_remaining, DecodeError, Lift, Lower};

struct Tag;

fn encode<T: Lower<Tag>>(v: T) -> Vec<u8> {
    let mut buf = Vec::new();
    T::write(v, &mut buf);
    buf
}

fn decode<T: Lift<Tag>>(bytes: &[u8]) -> (Result<T, DecodeError>, usize) {
    let mut cursor = bytes;
    let r = T::try_read(&mut cursor);
    (r, cursor.len())
}

#[test]
fn u32_42_is_big_endian() {
    assert_eq!(encode(42u32), vec![0x00, 0x00, 0x00, 0x2A]);
    let (r, left) = decode::<u32>(&[0x00, 0x00, 0x00, 0x2A]);
    assert_eq!(r, Ok(42));
    assert_eq!(left, 0);
}

#[test]
fn string_hi_encoding() {
    assert_eq!(encode(String::from("hi")), vec![0x00, 0x00, 0x00, 0x02, 0x68, 0x69]);
}

#[test]
fn option_encodings() {
    assert_eq!(encode(None::<u8>), vec![0x00]);
    assert_eq!(encode(Some(5u8)), vec![0x01, 0x05]);
}

#[test]
fn list_of_bytes_encoding() {
    assert_eq!(encode(vec![1u8, 2, 3]), vec![0x00, 0x00, 0x00, 0x03, 0x01, 0x02, 0x03]);
}

#[test]
fn signed_integers_are_twos_complement() {
    assert_eq!(encode(-1i16), vec![0xff, 0xff]);
    assert_eq!(encode(-2i8), vec![0xfe]);
    assert_eq!(encode(i64::MIN), vec![0x80, 0, 0, 0, 0, 0, 0, 0]);
    assert_eq!(encode(-5i32), vec![0xff, 0xff, 0xff, 0xfb]);
    assert_eq!(decode::<i32>(&[0xff, 0xff, 0xff, 0xfb]).0, Ok(-5));
    assert_eq!(decode::<i64>(&[0x80, 0, 0, 0, 0, 0, 0, 0]).0, Ok(i64::MIN));
}

#[test]
fn unsigned_widths() {
    assert_eq!(encode(0x0102u16), vec![0x01, 0x02]);
    assert_eq!(encode(0x0102030405060708u64), vec![1, 2, 3, 4, 5, 6, 7, 8]);
    assert_eq!(decode::<u16>(&[0x01, 0x02, 0x99]), (Ok(0x0102), 1));
    assert_eq!(decode::<u8>(&[7]).0, Ok(7));
}

#[test]
fn bool_encoding() {
    assert_eq!(encode(true), vec![1]);
    assert_eq!(encode(false), vec![0]);
    assert_eq!(decode::<bool>(&[1]).0, Ok(true));
    assert_eq!(decode::<bool>(&[2]).0, Err(DecodeError::InvalidEncoding));
    assert_eq!(<bool as Lower<Tag>>::lower(true), 1i8);
    assert_eq!(<bool as Lift<Tag>>::try_lift(0i8), Ok(false));
    assert_eq!(<bool as Lift<Tag>>::try_lift(3i8), Err(DecodeError::InvalidEncoding));
}

#[test]
fn round_trip_primitives() {
    assert_eq!(<u8 as Lift<Tag>>::try_lift(<u8 as Lower<Tag>>::lower(200)), Ok(200));
    assert_eq!(<i16 as Lift<Tag>>::try_lift(<i16 as Lower<Tag>>::lower(-300)), Ok(-300));
    assert_eq!(<u64 as Lift<Tag>>::try_lift(<u64 as Lower<Tag>>::lower(u64::MAX)), Ok(u64::MAX));
    for v in [i32::MIN, -1, 0, 1, i32::MAX] {
        let bytes = encode(v);
        assert_eq!(decode::<i32>(&bytes), (Ok(v), 0));
    }
}

#[test]
fn round_trip_string() {
    let s = String::from("héllo, wörld ✓");
    let lowered = <String as Lower<Tag>>::lower(s.clone());
    assert_eq!(lowered.as_slice(), s.as_bytes());
    assert_eq!(<String as Lift<Tag>>::try_lift(lowered), Ok(s.clone()));
    let bytes = encode(s.clone());
    assert_eq!(decode::<String>(&bytes), (Ok(s), 0));
}

#[test]
fn round_trip_option() {
    let v = Some(vec![String::from("a"), String::from("")]);
    let lowered = <Option<Vec<String>> as Lower<Tag>>::lower(v.clone());
    assert_eq!(<Option<Vec<String>> as Lift<Tag>>::try_lift(lowered), Ok(v));
    let none: Option<u32> = None;
    let lowered = <Option<u32> as Lower<Tag>>::lower(none);
    assert_eq!(<Option<u32> as Lift<Tag>>::try_lift(lowered), Ok(None));
}

#[test]
fn round_trip_list() {
    let v: Vec<Option<i64>> = vec![Some(-1), None, Some(1 << 40)];
    let lowered = <Vec<Option<i64>> as Lower<Tag>>::lower(v.clone());
    assert_eq!(<Vec<Option<i64>> as Lift<Tag>>::try_lift(lowered), Ok(v));
    let empty: Vec<bool> = vec![];
    let lowered = <Vec<bool> as Lower<Tag>>::lower(empty);
    assert_eq!(lowered.as_slice(), &[0, 0, 0, 0]);
    assert_eq!(<Vec<bool> as Lift<Tag>>::try_lift(lowered), Ok(vec![]));
}

#[test]
fn lower_into_buffer_holds_the_encoding() {
    let b = <Vec<u8> as Lower<Tag>>::lower_into_buffer(vec![9u8]);
    assert_eq!(b.destroy_into_vec(), vec![0, 0, 0, 1, 9]);
}

#[test]
fn insufficient_data_for_four_byte_integer() {
    assert_eq!(decode::<u32>(&[0x00, 0x00, 0x2A]).0, Err(DecodeError::InsufficientData));
    assert_eq!(decode::<i32>(&[]).0, Err(DecodeError::InsufficientData));
    assert_eq!(decode::<u64>(&[1, 2, 3, 4, 5, 6, 7]).0, Err(DecodeError::InsufficientData));
    assert_eq!(check_remaining(&[1, 2, 3], 4), Err(DecodeError::InsufficientData));
    assert_eq!(check_remaining(&[1, 2, 3], 3), Ok(()));
}

#[test]
fn option_invalid_tag() {
    assert_eq!(decode::<Option<u8>>(&[2, 5]).0, Err(DecodeError::InvalidEncoding));
    assert_eq!(decode::<Option<u8>>(&[0xff]).0, Err(DecodeError::InvalidEncoding));
    let b = FFIBuffer::from_vec(vec![7]);
    assert_eq!(<Option<u8> as Lift<Tag>>::try_lift(b), Err(DecodeError::InvalidEncoding));
}

#[test]
fn trailing_data_is_rejected() {
    let mut bytes = encode(vec![1u8, 2, 3]);
    bytes.push(0);
    let b = FFIBuffer::from_vec(bytes);
    assert_eq!(<Vec<u8> as Lift<Tag>>::try_lift(b), Err(DecodeError::TrailingData));
    let b = FFIBuffer::from_vec(vec![1, 5, 0]);
    assert_eq!(<Option<u8> as Lift<Tag>>::try_lift_from_buffer(b), Err(DecodeError::TrailingData));
    let b = FFIBuffer::from_vec(vec![1, 5]);
    assert_eq!(<Option<u8> as Lift<Tag>>::try_lift_from_buffer(b), Ok(Some(5)));
}

#[test]
fn negative_length_prefix_is_overflow() {
    assert_eq!(decode::<String>(&[0xff, 0xff, 0xff, 0xff]).0, Err(DecodeError::Overflow));
    assert_eq!(decode::<Vec<u8>>(&[0x80, 0, 0, 0]).0, Err(DecodeError::Overflow));
}

#[test]
fn string_errors() {
    assert_eq!(decode::<String>(&[0, 0, 0, 1, 0xff]).0, Err(DecodeError::InvalidEncoding));
    assert_eq!(decode::<String>(&[0, 0, 0, 3, b'a']).0, Err(DecodeError::InsufficientData));
    let b = FFIBuffer::from_vec(vec![0xc3, 0x28]);
    assert_eq!(<String as Lift<Tag>>::try_lift(b), Err(DecodeError::InvalidEncoding));
}

#[test]
fn list_element_errors_propagate() {
    assert_eq!(decode::<Vec<bool>>(&[0, 0, 0, 2, 1, 9]).0, Err(DecodeError::InvalidEncoding));
    assert_eq!(decode::<Vec<u16>>(&[0, 0, 0, 2, 0, 1, 0]).0, Err(DecodeError::InsufficientData));
}

#[test]
fn reads_advance_the_cursor() {
    let mut bytes = encode(String::from("ab"));
    bytes.extend(encode(7u8));
    let mut cursor = bytes.as_slice();
    assert_eq!(<String as Lift<Tag>>::try_read(&mut cursor), Ok(String::from("ab")));
    assert_eq!(<u8 as Lift<Tag>>::try_read(&mut cursor), Ok(7));
    assert!(cursor.is_empty());
}

#[test]
fn ffi_defaults() {
    assert!(!bool::ffi_default());
    assert_eq!(u32::ffi_default(), 0);
    assert_eq!(i64::ffi_default(), 0);
    assert_eq!(String::ffi_default(), String::new());
    assert_eq!(Vec::<u8>::ffi_default(), Vec::<u8>::new());
    assert_eq!(Option::<u8>::ffi_default(), None);
    assert!(FFIBuffer::ffi_default().is_empty());
    let m: ManuallyDrop<u16> = FFIDefault::ffi_default();
    assert_eq!(*m, 0);
}

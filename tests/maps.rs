use ffi_core::ffi::buffer::FFIBuffer;
use ffi_core::map_codec::{lower_map_entries, map_type_id_meta, try_lift_map_entries, try_read_map_entries, write_map_entries};
use ffi_core::DecodeError;

struct Tag;

#[test]
fn map_entries_encoding() {
    let mut buf = Vec::new();
    write_map_entries::<Tag, u8, bool>(vec![(1, true), (2, false)], &mut buf);
    assert_eq!(buf, vec![0, 0, 0, 2, 1, 1, 2, 0]);
}

#[test]
fn map_entries_round_trip() {
    let entries = vec![(String::from("k"), Some(3u32)), (String::from("other"), None)];
    let b = lower_map_entries::<Tag, String, Option<u32>>(entries.clone());
    assert_eq!(try_lift_map_entries::<Tag, String, Option<u32>>(b), Ok(entries));
    let empty: Vec<(u8, u8)> = vec![];
    let b = lower_map_entries::<Tag, u8, u8>(empty);
    assert_eq!(b.as_slice(), &[0, 0, 0, 0]);
    assert_eq!(try_lift_map_entries::<Tag, u8, u8>(b), Ok(vec![]));
}

#[test]
fn map_duplicate_keys_are_all_read() {
    let bytes = [0, 0, 0, 2, 7, 1, 7, 2];
    let mut cursor = &bytes[..];
    let r = try_read_map_entries::<Tag, u8, u8>(&mut cursor);
    assert_eq!(r, Ok(vec![(7, 1), (7, 2)]));
    let last = r.unwrap().into_iter().collect::<std::collections::HashMap<u8, u8>>();
    assert_eq!(last.get(&7), Some(&2));
    assert!(cursor.is_empty());
}

#[test]
fn map_errors() {
    let b = FFIBuffer::from_vec(vec![0, 0, 0, 1, 5, 6, 9]);
    assert_eq!(try_lift_map_entries::<Tag, u8, u8>(b), Err(DecodeError::TrailingData));
    let b = FFIBuffer::from_vec(vec![0, 0, 0, 2, 5, 6]);
    assert_eq!(try_lift_map_entries::<Tag, u8, u8>(b), Err(DecodeError::InsufficientData));
    let b = FFIBuffer::from_vec(vec![0xff, 0, 0, 0]);
    assert_eq!(try_lift_map_entries::<Tag, u8, u8>(b), Err(DecodeError::Overflow));
    let b = FFIBuffer::from_vec(vec![0, 0, 0, 1, 5, 2]);
    assert_eq!(try_lift_map_entries::<Tag, u8, bool>(b), Err(DecodeError::InvalidEncoding));
}

#[test]
fn map_fingerprint() {
    let m = map_type_id_meta::<Tag, String, Vec<u8>>();
    assert_eq!(m.as_slice(), &[14, 11, 13, 0]);
}

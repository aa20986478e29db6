use ffi_core::ffi::buffer::FFIBuffer;
use ffi_core::ffi::call::{FFIErrStatus, FFIStatusCode};
use ffi_core::ffi::foreignbytes::FFIForeignBytes;

#[test]
fn buffer_ownership_round_trip() {
    let v = vec![1u8, 2, 3, 250];
    let b = FFIBuffer::from_vec(v.clone());
    assert_eq!(b.len(), 4);
    assert!(b.capacity() >= 4);
    assert!(!b.is_empty());
    assert_eq!(b.destroy_into_vec(), v);
}

#[test]
fn buffer_capacity_is_recorded() {
    let mut v: Vec<u8> = Vec::with_capacity(32);
    v.push(1);
    let cap = v.capacity();
    let b = FFIBuffer::from_vec(v);
    assert_eq!(b.capacity(), cap);
    assert_eq!(b.len(), 1);
}

#[test]
fn empty_buffer_destroys_to_empty() {
    let b = FFIBuffer::new();
    assert!(b.is_empty());
    assert_eq!(b.len(), 0);
    assert_eq!(b.destroy_into_vec(), Vec::<u8>::new());
    let d = FFIBuffer::default();
    assert!(d.is_empty());
    d.destroy();
}

#[test]
fn buffer_with_size_is_zeroed() {
    let b = FFIBuffer::new_with_size(5);
    assert_eq!(b.len(), 5);
    assert_eq!(b.as_slice(), &[0, 0, 0, 0, 0]);
    assert_eq!(FFIBuffer::new_with_size(0).len(), 0);
}

#[test]
fn foreign_bytes_view() {
    let data = [4u8, 5, 6];
    let f = FFIForeignBytes::from_slice(&data).unwrap();
    assert_eq!(f.len(), 3);
    assert!(!f.is_empty());
    assert_eq!(f.as_slice(), &[4, 5, 6]);
    let e = FFIForeignBytes::from_slice(&[]).unwrap();
    assert!(e.is_empty());
    assert_eq!(e.as_slice(), &[] as &[u8]);
}

#[test]
fn status_codes_round_trip() {
    for (n, s) in [
        (0, FFIStatusCode::Success),
        (1, FFIStatusCode::Error),
        (2, FFIStatusCode::UnexpectedError),
        (3, FFIStatusCode::Cancelled),
    ] {
        assert_eq!(FFIStatusCode::try_from(n), Ok(s));
        let back: i32 = s.into();
        assert_eq!(back, n);
    }
    assert_eq!(FFIStatusCode::try_from(4), Err(4));
    assert_eq!(FFIStatusCode::try_from(-1), Err(-1));
}

#[test]
fn error_status_holds_a_buffer() {
    let st = FFIErrStatus { code: 1, error: FFIBuffer::from_vec(vec![0, 0, 0, 0]) };
    assert_eq!(FFIStatusCode::try_from(st.code), Ok(FFIStatusCode::Error));
    assert_eq!(st.error.len(), 4);
}

use ffi_core::metadata::codes::{TYPE_HASH_MAP, TYPE_STRING, TYPE_U8};
use ffi_core::metadata::{checksum_metadata, MetadataBuffer};
use ffi_core::TypeId;

struct Tag;

fn meta<T: TypeId<Tag>>() -> MetadataBuffer {
    T::type_id_meta()
}

#[test]
fn u8_fingerprint_is_one_zero_byte() {
    let m = meta::<u8>();
    assert_eq!(m.as_slice(), &[0]);
    assert_eq!(m.size, 1);
    assert_eq!(m.checksum(), 45472);
    assert_eq!(checksum_metadata(&[TYPE_U8]), 45472);
}

#[test]
fn fingerprint_is_deterministic() {
    let a = meta::<Vec<Option<String>>>();
    let b = meta::<Vec<Option<String>>>();
    assert_eq!(a.as_slice(), b.as_slice());
    assert_eq!(a.as_slice(), &[13, 12, 11]);
    assert_eq!(a.checksum(), b.checksum());
}

#[test]
fn list_fingerprints_differ_by_element() {
    let u = meta::<Vec<u8>>();
    let i = meta::<Vec<i8>>();
    assert_eq!(u.as_slice(), &[13, 0]);
    assert_eq!(i.as_slice(), &[13, 4]);
    assert_ne!(u.as_slice(), i.as_slice());
    assert_eq!(u.checksum(), 36465);
    assert_eq!(i.checksum(), 37677);
}

#[test]
fn primitive_codes() {
    assert_eq!(meta::<u16>().as_slice(), &[1]);
    assert_eq!(meta::<u32>().as_slice(), &[2]);
    assert_eq!(meta::<u64>().as_slice(), &[3]);
    assert_eq!(meta::<i8>().as_slice(), &[4]);
    assert_eq!(meta::<i16>().as_slice(), &[5]);
    assert_eq!(meta::<i32>().as_slice(), &[6]);
    assert_eq!(meta::<i64>().as_slice(), &[7]);
    assert_eq!(meta::<bool>().as_slice(), &[10]);
    assert_eq!(meta::<String>().as_slice(), &[11]);
    assert_eq!(TYPE_HASH_MAP, 14);
}

#[test]
fn empty_checksum() {
    assert_eq!(MetadataBuffer::new().checksum(), 24586);
    assert_eq!(checksum_metadata(&[]), 24586);
    assert_eq!(checksum_metadata(&[12, TYPE_STRING]), 62011);
}

#[test]
fn builder_appends() {
    let m = MetadataBuffer::from_code(7)
        .concat_u32(0x0403_0201)
        .concat_bool(true)
        .concat_str("ab")
        .concat_long_str("xyz")
        .concat(MetadataBuffer::from_code(9));
    assert_eq!(
        m.as_slice(),
        &[7, 1, 2, 3, 4, 1, 2, b'a', b'b', 3, 0, b'x', b'y', b'z', 9]
    );
    assert_eq!(m.checksum(), checksum_metadata(m.as_slice()));
    let arr: [u8; 3] = m.into_array::<3>();
    assert_eq!(arr, [7, 1, 2]);
}

#[test]
fn long_str_length_is_two_bytes_low_first() {
    let s = "a".repeat(300);
    let m = MetadataBuffer::new().concat_long_str(&s);
    assert_eq!(&m.as_slice()[..2], &[44, 1]);
    assert_eq!(m.size, 302);
}

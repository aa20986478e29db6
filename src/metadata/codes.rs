use vstd::prelude::*;

verus! {

/// Fingerprint code of `u8`.
pub const TYPE_U8: u8 = 0;
/// Fingerprint code of `u16`.
pub const TYPE_U16: u8 = 1;
/// Fingerprint code of `u32`.
pub const TYPE_U32: u8 = 2;
/// Fingerprint code of `u64`.
pub const TYPE_U64: u8 = 3;
/// Fingerprint code of `i8`.
pub const TYPE_I8: u8 = 4;
/// Fingerprint code of `i16`.
pub const TYPE_I16: u8 = 5;
/// Fingerprint code of `i32`.
pub const TYPE_I32: u8 = 6;
/// Fingerprint code of `i64`.
pub const TYPE_I64: u8 = 7;
/// Fingerprint code of `f32`.
pub const TYPE_F32: u8 = 8;
/// Fingerprint code of `f64`.
pub const TYPE_F64: u8 = 9;
/// Fingerprint code of `bool`.
pub const TYPE_BOOL: u8 = 10;
/// Fingerprint code of `String`.
pub const TYPE_STRING: u8 = 11;
/// Fingerprint code of an optional value.
pub const TYPE_OPTION: u8 = 12;
/// Fingerprint code of a list.
pub const TYPE_VEC: u8 = 13;
/// Fingerprint code of a key-value map.
pub const TYPE_HASH_MAP: u8 = 14;

} // verus!

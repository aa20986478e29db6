use vstd::prelude::*;

pub mod converter_impls;
pub mod converter_traits;
pub mod ffi;
pub mod laws;
pub mod map_codec;
pub mod metadata;
pub mod wire;

pub use converter_traits::{FFIConverter, Lift, Lower, TypeId};

verus! {

/// Why a value could not be decoded from its wire bytes.
#[derive(Debug, Clone, Copy, PartialEq, Eq, Structural)]
pub enum DecodeError {
    /// The cursor ran out before a field was complete.
    InsufficientData,
    /// A tag byte out of range, or bytes that are not UTF-8.
    InvalidEncoding,
    /// A length prefix that does not fit the platform's size type.
    Overflow,
    /// Bytes were left over after a self-contained value was decoded.
    TrailingData,
}

pub type FFIResult<T> = Result<T, DecodeError>;

/// Succeeds exactly when `buf` still holds at least `num_bytes` bytes.
pub fn check_remaining(buf: &[u8], num_bytes: usize) -> (r: FFIResult<()>)
    ensures
        r is Ok <==> buf@.len() >= num_bytes,
        r is Err ==> r == Err::<(), DecodeError>(DecodeError::InsufficientData),
{
    if buf.len() < num_bytes {
        Err(DecodeError::InsufficientData)
    } else {
        Ok(())
    }
}

} // verus!

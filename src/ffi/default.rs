use vstd::prelude::*;
use crate::ffi::buffer::FFIBuffer;

verus! {

/// A safe zero value for a type that crosses the boundary, put in an output
/// slot before a call that may fail.
pub trait FFIDefault: Sized {
    /// Whether `v` is the zero value of the type.
    spec fn is_ffi_default(v: Self) -> bool;

    fn ffi_default() -> (r: Self)
        ensures
            Self::is_ffi_default(r),
    ;
}

impl FFIDefault for bool {
    open spec fn is_ffi_default(v: bool) -> bool {
        !v
    }

    fn ffi_default() -> (r: bool) {
        false
    }
}

impl FFIDefault for u8 {
    open spec fn is_ffi_default(v: u8) -> bool {
        v == 0
    }

    fn ffi_default() -> (r: u8) {
        0
    }
}

impl FFIDefault for i8 {
    open spec fn is_ffi_default(v: i8) -> bool {
        v == 0
    }

    fn ffi_default() -> (r: i8) {
        0
    }
}

impl FFIDefault for u16 {
    open spec fn is_ffi_default(v: u16) -> bool {
        v == 0
    }

    fn ffi_default() -> (r: u16) {
        0
    }
}

impl FFIDefault for i16 {
    open spec fn is_ffi_default(v: i16) -> bool {
        v == 0
    }

    fn ffi_default() -> (r: i16) {
        0
    }
}

impl FFIDefault for u32 {
    open spec fn is_ffi_default(v: u32) -> bool {
        v == 0
    }

    fn ffi_default() -> (r: u32) {
        0
    }
}

impl FFIDefault for i32 {
    open spec fn is_ffi_default(v: i32) -> bool {
        v == 0
    }

    fn ffi_default() -> (r: i32) {
        0
    }
}

impl FFIDefault for u64 {
    open spec fn is_ffi_default(v: u64) -> bool {
        v == 0
    }

    fn ffi_default() -> (r: u64) {
        0
    }
}

impl FFIDefault for i64 {
    open spec fn is_ffi_default(v: i64) -> bool {
        v == 0
    }

    fn ffi_default() -> (r: i64) {
        0
    }
}

impl FFIDefault for () {
    open spec fn is_ffi_default(v: ()) -> bool {
        true
    }

    fn ffi_default() -> (r: ()) {
    }
}

impl FFIDefault for FFIBuffer {
    open spec fn is_ffi_default(v: FFIBuffer) -> bool {
        v@.len() == 0
    }

    fn ffi_default() -> (r: FFIBuffer) {
        FFIBuffer::new()
    }
}

impl<T> FFIDefault for Option<T> {
    open spec fn is_ffi_default(v: Option<T>) -> bool {
        v is None
    }

    fn ffi_default() -> (r: Option<T>) {
        None
    }
}

impl FFIDefault for String {
    open spec fn is_ffi_default(v: String) -> bool {
        v@.len() == 0
    }

    fn ffi_default() -> (r: String) {
        String::new()
    }
}

impl<T> FFIDefault for Vec<T> {
    open spec fn is_ffi_default(v: Vec<T>) -> bool {
        v@.len() == 0
    }

    fn ffi_default() -> (r: Vec<T>) {
        Vec::new()
    }
}

impl<T: FFIDefault> FFIDefault for std::mem::ManuallyDrop<T> {
    open spec fn is_ffi_default(v: std::mem::ManuallyDrop<T>) -> bool {
        T::is_ffi_default(v@)
    }

    fn ffi_default() -> (r: std::mem::ManuallyDrop<T>) {
        std::mem::ManuallyDrop::new(T::ffi_default())
    }
}

} // verus!

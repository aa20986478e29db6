use vstd::prelude::*;
use crate::ffi::buffer::FFIBuffer;

verus! {

/// The outcome of a call across the boundary, with the error buffer that
/// goes with it. `code` is the signed 32-bit tag of an `FFIStatusCode`.
pub struct FFIErrStatus {
    pub code: i32,
    pub error: FFIBuffer,
}

/// The four outcomes of a call across the boundary.
#[derive(Debug, Clone, Copy, PartialEq, Eq, Structural)]
pub enum FFIStatusCode {
    /// The call completed and its output is valid.
    Success,
    /// A recoverable error; the error buffer holds the encoded error value.
    Error,
    /// An unrecoverable fault; the error buffer holds a diagnostic string.
    UnexpectedError,
    /// The call was aborted before producing a result.
    Cancelled,
}

/// The numeric tag of each outcome on the wire.
pub open spec fn status_code_value(s: FFIStatusCode) -> i32 {
    match s {
        FFIStatusCode::Success => 0,
        FFIStatusCode::Error => 1,
        FFIStatusCode::UnexpectedError => 2,
        FFIStatusCode::Cancelled => 3,
    }
}

/// The outcome a numeric tag stands for, or the tag itself when it stands
/// for none.
pub open spec fn status_code_from(value: i32) -> Result<FFIStatusCode, i32> {
    if value == 0 {
        Ok(FFIStatusCode::Success)
    } else if value == 1 {
        Ok(FFIStatusCode::Error)
    } else if value == 2 {
        Ok(FFIStatusCode::UnexpectedError)
    } else if value == 3 {
        Ok(FFIStatusCode::Cancelled)
    } else {
        Err(value)
    }
}

impl TryFrom<i32> for FFIStatusCode {
    type Error = i32;

    fn try_from(value: i32) -> (r: Result<Self, i32>) {
        match value {
            0 => Ok(Self::Success),
            1 => Ok(Self::Error),
            2 => Ok(Self::UnexpectedError),
            3 => Ok(Self::Cancelled),
            n => Err(n),
        }
    }
}

impl vstd::std_specs::convert::TryFromSpecImpl<i32> for FFIStatusCode {
    open spec fn obeys_try_from_spec() -> bool {
        true
    }

    open spec fn try_from_spec(v: i32) -> Result<Self, i32> {
        status_code_from(v)
    }
}

impl From<FFIStatusCode> for i32 {
    fn from(s: FFIStatusCode) -> (r: i32) {
        match s {
            FFIStatusCode::Success => 0,
            FFIStatusCode::Error => 1,
            FFIStatusCode::UnexpectedError => 2,
            FFIStatusCode::Cancelled => 3,
        }
    }
}

impl vstd::std_specs::convert::FromSpecImpl<FFIStatusCode> for i32 {
    open spec fn obeys_from_spec() -> bool {
        true
    }

    open spec fn from_spec(s: FFIStatusCode) -> i32 {
        status_code_value(s)
    }
}

/// Every outcome survives the trip through its numeric tag.
pub proof fn lemma_status_code_round_trip(s: FFIStatusCode)
    ensures
        status_code_from(status_code_value(s)) == Ok::<FFIStatusCode, i32>(s),
{
}

} // verus!

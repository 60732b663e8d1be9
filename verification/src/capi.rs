//! What crosses a foreign-function boundary when an operation fails: a
//! stable numeric code and the message to keep for the caller.

use vstd::prelude::*;
use crate::encoders::q64::Q64Error;
use crate::error::{UubedError, UubedResult};

verus! {

/// The version of the library, as major, minor and patch number.
pub const VERSION: &'static str = "0.1.0";

/// The outcome of an operation as foreign callers see it.
#[derive(Debug, Clone, Copy, PartialEq, Eq, Structural)]
pub enum UubedErrorCode {
    /// The operation succeeded.
    Success,
    /// Q64 encoding or decoding failed.
    Q64Error,
    /// SimHash computation failed.
    SimHashError,
    /// Top-k selection failed.
    TopKError,
    /// Z-order encoding failed.
    ZOrderError,
    /// An input did not pass validation.
    ValidationError,
    /// Memory could not be allocated.
    MemoryError,
    /// An internal computation failed.
    ComputationError,
    /// A parameter was unusable, such as a null pointer.
    InvalidParameter,
    /// The buffer offered is too small for the result.
    BufferTooSmall,
    /// Anything else.
    UnknownError,
}

impl UubedErrorCode {
    /// The number that stands for this outcome. The numbers never change.
    pub open spec fn value_spec(self) -> int {
        match self {
            UubedErrorCode::Success => 0,
            UubedErrorCode::Q64Error => 1,
            UubedErrorCode::SimHashError => 2,
            UubedErrorCode::TopKError => 3,
            UubedErrorCode::ZOrderError => 4,
            UubedErrorCode::ValidationError => 5,
            UubedErrorCode::MemoryError => 6,
            UubedErrorCode::ComputationError => 7,
            UubedErrorCode::InvalidParameter => 8,
            UubedErrorCode::BufferTooSmall => 9,
            UubedErrorCode::UnknownError => 10,
        }
    }

    /// The number that stands for this outcome.
    pub fn value(self) -> (number: i32)
        ensures
            number == self.value_spec(),
    {
        match self {
            UubedErrorCode::Success => 0,
            UubedErrorCode::Q64Error => 1,
            UubedErrorCode::SimHashError => 2,
            UubedErrorCode::TopKError => 3,
            UubedErrorCode::ZOrderError => 4,
            UubedErrorCode::ValidationError => 5,
            UubedErrorCode::MemoryError => 6,
            UubedErrorCode::ComputationError => 7,
            UubedErrorCode::InvalidParameter => 8,
            UubedErrorCode::BufferTooSmall => 9,
            UubedErrorCode::UnknownError => 10,
        }
    }
}

/// The code of each family of errors.
pub open spec fn error_to_code_spec(error: UubedError) -> UubedErrorCode {
    match error {
        UubedError::Q64Error(_) => UubedErrorCode::Q64Error,
        UubedError::SimHashError(_) => UubedErrorCode::SimHashError,
        UubedError::TopKError(_) => UubedErrorCode::TopKError,
        UubedError::ZOrderError(_) => UubedErrorCode::ZOrderError,
        UubedError::ValidationError(_) => UubedErrorCode::ValidationError,
        UubedError::MemoryError(_) => UubedErrorCode::MemoryError,
        UubedError::ComputationError(_) => UubedErrorCode::ComputationError,
    }
}

/// Gives the code of an error: that of its family.
pub fn error_to_code(error: &UubedError) -> (code: UubedErrorCode)
    ensures
        code == error_to_code_spec(*error),
{
    match error {
        UubedError::Q64Error(_) => UubedErrorCode::Q64Error,
        UubedError::SimHashError(_) => UubedErrorCode::SimHashError,
        UubedError::TopKError(_) => UubedErrorCode::TopKError,
        UubedError::ZOrderError(_) => UubedErrorCode::ZOrderError,
        UubedError::ValidationError(_) => UubedErrorCode::ValidationError,
        UubedError::MemoryError(_) => UubedErrorCode::MemoryError,
        UubedError::ComputationError(_) => UubedErrorCode::ComputationError,
    }
}

/// Passes a success through and turns a failure into its code and the
/// message to keep as the last error.
pub fn handle_result<T>(result: UubedResult<T>) -> (handled: Result<T, (UubedErrorCode, String)>)
    ensures
        result matches Ok(value) ==> handled == Ok::<T, (UubedErrorCode, String)>(value),
        result matches Err(error) ==> (handled matches Err(report) && report.0
            == error_to_code_spec(error) && report.1@ == error.message()),
{
    match result {
        Ok(value) => Ok(value),
        Err(error) => {
            let code = error_to_code(&error);
            let message = error.to_string();
            Err((code, message))
        },
    }
}

/// Passes a success through and turns a Q64 failure into the Q64 code and
/// the message to keep as the last error.
pub fn handle_q64_result<T>(result: Result<T, Q64Error>) -> (handled: Result<
    T,
    (UubedErrorCode, String),
>)
    ensures
        result matches Ok(value) ==> handled == Ok::<T, (UubedErrorCode, String)>(value),
        result matches Err(error) ==> (handled matches Err(report) && report.0
            == UubedErrorCode::Q64Error && report.1@ == "Q64 error: "@ + error.message@),
{
    match result {
        Ok(value) => Ok(value),
        Err(error) => {
            let message = error.to_string();
            Err((UubedErrorCode::Q64Error, message))
        },
    }
}

} // verus!

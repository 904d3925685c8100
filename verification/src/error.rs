//! The error taxonomy: every way an operation can refuse to run. An
//! operation that fails with one of these has made no observable change.

use vstd::prelude::*;

verus! {

/// Why an operation was refused.
#[derive(Clone, Copy, Debug, PartialEq, Eq, Structural)]
pub enum ErrorCode {
    /// The caller does not control the record's owner identity.
    Unauthorized,
    /// No record exists at the derived address.
    NotFound,
    /// A record already exists at the derived address.
    AlreadyExists,
    /// The url and title lists have different lengths.
    LengthMismatch,
    /// A title or url exceeds its length bound.
    FieldTooLong,
    /// The batch would push the record past its link capacity.
    CapacityExceeded,
    /// The handle (username) exceeds its length bound.
    HandleTooLong,
    /// The backing storage could not be resized to the required footprint.
    ResizeFailed,
}

impl ErrorCode {
    /// A short stable name for the error, for hosts that report it.
    pub fn describe(&self) -> (r: &'static str)
        ensures
            r@.len() > 0,
    {
        let r = match self {
            ErrorCode::Unauthorized => "unauthorized",
            ErrorCode::NotFound => "not found",
            ErrorCode::AlreadyExists => "already exists",
            ErrorCode::LengthMismatch => "length mismatch",
            ErrorCode::FieldTooLong => "field too long",
            ErrorCode::CapacityExceeded => "capacity exceeded",
            ErrorCode::HandleTooLong => "handle too long",
            ErrorCode::ResizeFailed => "resize failed",
        };
        proof {
            reveal_strlit("unauthorized");
            reveal_strlit("not found");
            reveal_strlit("already exists");
            reveal_strlit("length mismatch");
            reveal_strlit("field too long");
            reveal_strlit("capacity exceeded");
            reveal_strlit("handle too long");
            reveal_strlit("resize failed");
        }
        r
    }
}

} // verus!

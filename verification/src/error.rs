//! The error type every operation of the library reports.
#[allow(unused_imports)]
use vstd::prelude::*;
#[allow(unused_imports)]
use vstd::string::*;

verus! {

/// The class of a failure, as clients see it.
#[derive(Debug, Clone, Copy, PartialEq, Eq, Structural)]
pub enum ErrorCode {
    BadRequest,
    Unauthorized,
    Forbidden,
    NotFound,
    PreconditionFailed,
    RateLimited,
    Internal,
}

/// A failure: its class, a message for the caller, and for a caller that came
/// too often, in how many seconds to come again.
#[derive(Debug)]
pub struct RtDbError {
    pub code: ErrorCode,
    pub message: String,
    pub retry_after: Option<u32>,
}

/// The mathematical form of an error.
pub struct ErrorV {
    pub code: ErrorCode,
    pub message: Seq<char>,
    pub retry_after: Option<u32>,
}

impl View for RtDbError {
    type V = ErrorV;

    open spec fn view(&self) -> ErrorV {
        ErrorV { code: self.code, message: self.message@, retry_after: self.retry_after }
    }
}

/// A bad-request error with the given message.
pub open spec fn bad(message: Seq<char>) -> ErrorV {
    ErrorV { code: ErrorCode::BadRequest, message, retry_after: None }
}

/// An internal error with the given message.
pub open spec fn internal(message: Seq<char>) -> ErrorV {
    ErrorV { code: ErrorCode::Internal, message, retry_after: None }
}

/// A forbidden error with the given message.
pub open spec fn denied(message: Seq<char>) -> ErrorV {
    ErrorV { code: ErrorCode::Forbidden, message, retry_after: None }
}

/// The error of a caller that came too often.
pub open spec fn too_often(retry_after: u32) -> ErrorV {
    ErrorV {
        code: ErrorCode::RateLimited,
        message: "rate limited"@,
        retry_after: Some(retry_after),
    }
}

/// A not-found error with the given message.
pub open spec fn missing(message: Seq<char>) -> ErrorV {
    ErrorV { code: ErrorCode::NotFound, message, retry_after: None }
}

impl RtDbError {
    /// A malformed or unsupported request.
    pub fn bad_request(message: String) -> (e: RtDbError)
        ensures
            e@ == bad(message@),
    {
        RtDbError { code: ErrorCode::BadRequest, message, retry_after: None }
    }

    /// A failure of the server itself.
    pub fn internal(message: String) -> (e: RtDbError)
        ensures
            e@ == internal(message@),
    {
        RtDbError { code: ErrorCode::Internal, message, retry_after: None }
    }

    /// A named thing that does not exist.
    pub fn not_found(message: String) -> (e: RtDbError)
        ensures
            e@ == missing(message@),
    {
        RtDbError { code: ErrorCode::NotFound, message, retry_after: None }
    }

    /// A request whose precondition on the stored data does not hold.
    pub fn precondition_failed(message: String) -> (e: RtDbError)
        ensures
            e@ == (ErrorV { code: ErrorCode::PreconditionFailed, message: message@, retry_after: None }),
    {
        RtDbError { code: ErrorCode::PreconditionFailed, message, retry_after: None }
    }

    /// A request the caller is not allowed to make.
    pub fn forbidden(message: String) -> (e: RtDbError)
        ensures
            e@ == denied(message@),
    {
        RtDbError { code: ErrorCode::Forbidden, message, retry_after: None }
    }

    /// A request that came too often.
    pub fn rate_limited(retry_after: u32) -> (e: RtDbError)
        ensures
            e@ == too_often(retry_after),
    {
        RtDbError {
            code: ErrorCode::RateLimited,
            message: "rate limited".to_owned(),
            retry_after: Some(retry_after),
        }
    }
}

} // verus!

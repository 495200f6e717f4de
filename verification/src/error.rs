//! Error codes shared by every layer of the service.
use vstd::prelude::*;

verus! {

/// The standard library's I/O error, carried through error enums of this
/// crate; nothing here looks inside it.
#[verifier::external_type_specification]
#[verifier::external_body]
pub struct ExIoError(std::io::Error);

/// Coordination-service error code, transmitted as a `u16`.
///
/// Codes are grouped: 0-99 success and business errors, 255 is reserved for
/// unexpected internal errors.
#[derive(Debug, Clone, Copy, PartialEq, Eq, Structural)]
pub enum ErrorCode {
    Success,
    PathNotFound,
    PathAlreadyExists,
    VersionConflict,
    PermissionDenied,
    InvalidPath,
    SessionExpired,
    LockBusy,
    ResourceExhausted,
    StorageCorruption,
    TransportUnavailable,
    UnsupportedVersion,
    SessionNotFound,
    LockNotFound,
    LockNotHeld,
    LockTimeout,
    ServiceNotFound,
    Internal,
}

/// The wire value of each error code.
pub open spec fn error_code_value(code: ErrorCode) -> u16 {
    match code {
        ErrorCode::Success => 0,
        ErrorCode::PathNotFound => 1,
        ErrorCode::PathAlreadyExists => 2,
        ErrorCode::VersionConflict => 3,
        ErrorCode::PermissionDenied => 4,
        ErrorCode::InvalidPath => 5,
        ErrorCode::SessionExpired => 6,
        ErrorCode::LockBusy => 7,
        ErrorCode::ResourceExhausted => 8,
        ErrorCode::StorageCorruption => 9,
        ErrorCode::TransportUnavailable => 10,
        ErrorCode::UnsupportedVersion => 11,
        ErrorCode::SessionNotFound => 12,
        ErrorCode::LockNotFound => 13,
        ErrorCode::LockNotHeld => 14,
        ErrorCode::LockTimeout => 15,
        ErrorCode::ServiceNotFound => 16,
        ErrorCode::Internal => 255,
    }
}

impl ErrorCode {
    /// The raw `u16` value used on the wire.
    pub fn as_u16(self) -> (r: u16)
        ensures
            r == error_code_value(self),
    {
        match self {
            ErrorCode::Success => 0,
            ErrorCode::PathNotFound => 1,
            ErrorCode::PathAlreadyExists => 2,
            ErrorCode::VersionConflict => 3,
            ErrorCode::PermissionDenied => 4,
            ErrorCode::InvalidPath => 5,
            ErrorCode::SessionExpired => 6,
            ErrorCode::LockBusy => 7,
            ErrorCode::ResourceExhausted => 8,
            ErrorCode::StorageCorruption => 9,
            ErrorCode::TransportUnavailable => 10,
            ErrorCode::UnsupportedVersion => 11,
            ErrorCode::SessionNotFound => 12,
            ErrorCode::LockNotFound => 13,
            ErrorCode::LockNotHeld => 14,
            ErrorCode::LockTimeout => 15,
            ErrorCode::ServiceNotFound => 16,
            ErrorCode::Internal => 255,
        }
    }

    /// Decodes a wire value; values that name no code decode to `Internal`.
    pub fn from_u16(value: u16) -> (r: ErrorCode)
        ensures
            r == (match error_code_of(value) {
                Some(c) => c,
                None => ErrorCode::Internal,
            }),
    {
        match value {
            0 => ErrorCode::Success,
            1 => ErrorCode::PathNotFound,
            2 => ErrorCode::PathAlreadyExists,
            3 => ErrorCode::VersionConflict,
            4 => ErrorCode::PermissionDenied,
            5 => ErrorCode::InvalidPath,
            6 => ErrorCode::SessionExpired,
            7 => ErrorCode::LockBusy,
            8 => ErrorCode::ResourceExhausted,
            9 => ErrorCode::StorageCorruption,
            10 => ErrorCode::TransportUnavailable,
            11 => ErrorCode::UnsupportedVersion,
            12 => ErrorCode::SessionNotFound,
            13 => ErrorCode::LockNotFound,
            14 => ErrorCode::LockNotHeld,
            15 => ErrorCode::LockTimeout,
            16 => ErrorCode::ServiceNotFound,
            _ => ErrorCode::Internal,
        }
    }
}

/// The code that a wire value names, if any.
pub open spec fn error_code_of(value: u16) -> Option<ErrorCode> {
    if value == 0 { Some(ErrorCode::Success) }
    else if value == 1 { Some(ErrorCode::PathNotFound) }
    else if value == 2 { Some(ErrorCode::PathAlreadyExists) }
    else if value == 3 { Some(ErrorCode::VersionConflict) }
    else if value == 4 { Some(ErrorCode::PermissionDenied) }
    else if value == 5 { Some(ErrorCode::InvalidPath) }
    else if value == 6 { Some(ErrorCode::SessionExpired) }
    else if value == 7 { Some(ErrorCode::LockBusy) }
    else if value == 8 { Some(ErrorCode::ResourceExhausted) }
    else if value == 9 { Some(ErrorCode::StorageCorruption) }
    else if value == 10 { Some(ErrorCode::TransportUnavailable) }
    else if value == 11 { Some(ErrorCode::UnsupportedVersion) }
    else if value == 12 { Some(ErrorCode::SessionNotFound) }
    else if value == 13 { Some(ErrorCode::LockNotFound) }
    else if value == 14 { Some(ErrorCode::LockNotHeld) }
    else if value == 15 { Some(ErrorCode::LockTimeout) }
    else if value == 16 { Some(ErrorCode::ServiceNotFound) }
    else if value == 255 { Some(ErrorCode::Internal) }
    else { None }
}

/// Decoding the wire value of a code gives the code back.
pub proof fn lemma_error_code_round_trip(code: ErrorCode)
    ensures
        error_code_of(error_code_value(code)) == Some(code),
{
}

/// A structured error: a code plus a human-readable message.
#[derive(Debug, Clone, PartialEq, Eq)]
pub struct RookeeperError {
    pub code: ErrorCode,
    pub message: String,
}

impl RookeeperError {
    /// Builds an error from its code and message.
    pub fn new(code: ErrorCode, message: String) -> (r: RookeeperError)
        ensures
            r.code == code,
            r.message@ == message@,
    {
        RookeeperError { code, message }
    }
}

} // verus!

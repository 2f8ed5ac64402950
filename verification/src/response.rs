//! API error taxonomy and response envelopes.
//!
//! Every error the HTTP surface can report is a variant of [`ApiError`];
//! each maps to a fixed status code and a stable machine-readable error
//! code string, so that callers never see a stack trace.

use vstd::prelude::*;

verus! {

/// A failure of the storage layer, mapped to `ApiError::Internal` (a 5xx)
/// at the HTTP boundary.
#[derive(Debug, PartialEq, Eq, Structural)]
pub enum StorageError {
    /// A uniqueness constraint was violated.
    Conflict,
    /// The addressed row does not exist.
    NotFound,
}

/// A typed error for the API surface.  Storage and helper failures carry a
/// human-readable context string in `Internal` and surface as a 5xx.
#[derive(Debug)]
pub enum ApiError {
    AlreadyLoggedIn,
    InvalidCredentials,
    NotLoggedIn,
    NotAdmin,
    CouldNotListDirectory,
    FFProbeFailed(String),
    InvalidPath,
    UploadMissingData,
    UploadInvalidFilePath(String),
    FailedToGetCoverImage,
    NotFound,
    DataMissing,
    Internal(String),
}

impl ApiError {
    /// The HTTP status code this error is reported with.
    pub fn status_code(&self) -> (code: u16)
        ensures
            code == self.spec_status_code(),
    {
        match self {
            ApiError::InvalidCredentials => 400,
            ApiError::AlreadyLoggedIn => 400,
            ApiError::UploadMissingData => 400,
            ApiError::UploadInvalidFilePath(_) => 400,
            ApiError::InvalidPath => 400,
            ApiError::DataMissing => 400,
            ApiError::CouldNotListDirectory => 422,
            ApiError::FailedToGetCoverImage => 422,
            ApiError::FFProbeFailed(_) => 422,
            ApiError::NotLoggedIn => 401,
            ApiError::NotAdmin => 401,
            ApiError::NotFound => 404,
            ApiError::Internal(_) => 500,
        }
    }

    /// The status code, as a spec-level function of the variant.
    pub open spec fn spec_status_code(&self) -> u16 {
        match self {
            ApiError::InvalidCredentials => 400u16,
            ApiError::AlreadyLoggedIn => 400u16,
            ApiError::UploadMissingData => 400u16,
            ApiError::UploadInvalidFilePath(_) => 400u16,
            ApiError::InvalidPath => 400u16,
            ApiError::DataMissing => 400u16,
            ApiError::CouldNotListDirectory => 422u16,
            ApiError::FailedToGetCoverImage => 422u16,
            ApiError::FFProbeFailed(_) => 422u16,
            ApiError::NotLoggedIn => 401u16,
            ApiError::NotAdmin => 401u16,
            ApiError::NotFound => 404u16,
            ApiError::Internal(_) => 500u16,
        }
    }

    /// The stable error code string placed in the response body.
    pub open spec fn spec_error_code(&self) -> Seq<char> {
        match self {
            ApiError::AlreadyLoggedIn => "server-authentication--already-logged-in"@,
            ApiError::InvalidCredentials => "server-authentication--invalid-credentials"@,
            ApiError::NotLoggedIn => "server-authentication--not-logged-in"@,
            ApiError::NotAdmin => "server-authentication--not-admin"@,
            ApiError::CouldNotListDirectory => "server-fs--could-not-list-directory"@,
            ApiError::FFProbeFailed(_) => "server-fs--ffprobe-failed"@,
            ApiError::InvalidPath => "server-fs--invalid-path"@,
            ApiError::UploadMissingData => "server-upload--missing-data"@,
            ApiError::UploadInvalidFilePath(_) => "server-upload--invalid-file-path"@,
            ApiError::FailedToGetCoverImage => "server-books--failed-to-get-cover-image"@,
            ApiError::NotFound => "server--not-found"@,
            ApiError::DataMissing => "server--data-missing"@,
            ApiError::Internal(_) => "server--internal-error"@,
        }
    }

    /// The stable error code string placed in the response body.
    pub fn error_code(&self) -> (code: String)
        ensures
            code@ == self.spec_error_code(),
    {
        match self {
            ApiError::AlreadyLoggedIn => {
                String::from_str("server-authentication--already-logged-in")
            },
            ApiError::InvalidCredentials => {
                String::from_str("server-authentication--invalid-credentials")
            },
            ApiError::NotLoggedIn => String::from_str("server-authentication--not-logged-in"),
            ApiError::NotAdmin => String::from_str("server-authentication--not-admin"),
            ApiError::CouldNotListDirectory => {
                String::from_str("server-fs--could-not-list-directory")
            },
            ApiError::FFProbeFailed(_) => String::from_str("server-fs--ffprobe-failed"),
            ApiError::InvalidPath => String::from_str("server-fs--invalid-path"),
            ApiError::UploadMissingData => String::from_str("server-upload--missing-data"),
            ApiError::UploadInvalidFilePath(_) => {
                String::from_str("server-upload--invalid-file-path")
            },
            ApiError::FailedToGetCoverImage => {
                String::from_str("server-books--failed-to-get-cover-image")
            },
            ApiError::NotFound => String::from_str("server--not-found"),
            ApiError::DataMissing => String::from_str("server--data-missing"),
            ApiError::Internal(_) => String::from_str("server--internal-error"),
        }
    }

    /// The free-form detail string attached to the body, when the variant
    /// carries one.
    pub fn detail(&self) -> (value: Option<&String>)
        ensures
            match self {
                ApiError::UploadInvalidFilePath(v) => value == Some(v),
                ApiError::FFProbeFailed(v) => value == Some(v),
                ApiError::Internal(v) => value == Some(v),
                _ => value is None,
            },
    {
        match self {
            ApiError::UploadInvalidFilePath(v) => Some(v),
            ApiError::FFProbeFailed(v) => Some(v),
            ApiError::Internal(v) => Some(v),
            _ => None,
        }
    }
}

/// Success envelope for mutating endpoints.
pub struct SuccessResponse {
    pub success: bool,
    pub message: String,
    pub value: Option<String>,
}

impl SuccessResponse {
    /// Builds the envelope; `success` is always true.
    pub fn new(message: String, value: Option<String>) -> (r: SuccessResponse)
        ensures
            r.success,
            r.message == message,
            r.value == value,
    {
        SuccessResponse { success: true, message, value }
    }
}

} // verus!

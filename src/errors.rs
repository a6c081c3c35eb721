//! The error kinds of the upload, retrieval and listing operations.
use vstd::prelude::*;

verus! {

/// What went wrong in a request, or at startup.
#[derive(Debug, Clone)]
pub enum AppError {
    /// The storage directory or another startup resource is unusable.
    InitError(String),
    /// A read, write, delete or metadata call on the file system failed.
    FileSystemError(String),
    /// An archive could not be read or written.
    ArchiveError(String),
    /// The inbound multipart stream failed.
    UploadFailed(String),
    /// A worker that ran blocking work was cancelled.
    ThreadError(String),
    /// The upload's cumulative bytes passed the configured ceiling.
    SizeLimitExceeded,
    /// The upload held no field, or no byte in any field.
    EmptyUpload,
    /// No container answers to the requested link.
    NotFound,
}

/// Errors that the client caused, answered with a 4xx-class status; the
/// others are server-side failures.
pub open spec fn client_error(e: AppError) -> bool {
    match e {
        AppError::ArchiveError(_) | AppError::UploadFailed(_) | AppError::SizeLimitExceeded
        | AppError::EmptyUpload | AppError::NotFound => true,
        _ => false,
    }
}

impl AppError {
    /// Whether the error is the client's (4xx class) rather than the server's.
    pub fn is_client_error(&self) -> (r: bool)
        ensures
            r == client_error(*self),
    {
        match self {
            AppError::ArchiveError(_) => true,
            AppError::UploadFailed(_) => true,
            AppError::SizeLimitExceeded => true,
            AppError::EmptyUpload => true,
            AppError::NotFound => true,
            _ => false,
        }
    }

    /// A one-line description: the kind, then the reason where there is one.
    pub fn message(&self) -> (r: String)
        ensures
            (*self matches AppError::InitError(reason) ==> r@ == "init error "@ + reason@),
            (*self matches AppError::FileSystemError(reason) ==> r@ == "fs error "@ + reason@),
            (*self matches AppError::ArchiveError(reason) ==> r@ == "zip error "@ + reason@),
            (*self matches AppError::UploadFailed(reason) ==> r@ == "upload error "@ + reason@),
            (*self matches AppError::ThreadError(reason) ==> r@ == "thread error "@ + reason@),
            (*self matches AppError::SizeLimitExceeded ==> r@ == "upload error file too big"@),
            (*self matches AppError::EmptyUpload ==> r@ == "upload error empty upload"@),
            (*self matches AppError::NotFound ==> r@ == "not found"@),
    {
        match self {
            AppError::InitError(reason) => String::from_str("init error ").concat(reason.as_str()),
            AppError::FileSystemError(reason) => String::from_str("fs error ").concat(
                reason.as_str(),
            ),
            AppError::ArchiveError(reason) => String::from_str("zip error ").concat(reason.as_str()),
            AppError::UploadFailed(reason) => String::from_str("upload error ").concat(
                reason.as_str(),
            ),
            AppError::ThreadError(reason) => String::from_str("thread error ").concat(
                reason.as_str(),
            ),
            AppError::SizeLimitExceeded => String::from_str("upload error file too big"),
            AppError::EmptyUpload => String::from_str("upload error empty upload"),
            AppError::NotFound => String::from_str("not found"),
        }
    }
}

} // verus!

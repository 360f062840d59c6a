//! The library's error type: what each error says and which HTTP status answers it.
use vstd::prelude::*;
use crate::text::{concat, decimal, decimal_text, text};

verus! {

/// The errors of the converter.
#[derive(Debug, Clone)]
pub enum AppError {
    ConversionError(String),
    JobNotFound(String),
    InvalidFileType,
    FileTooLarge,
    TooManyFiles(usize),
    NoFilesProvided,
    /// An I/O failure.
    Io(IoError),
    FFmpegNotFound,
    JobCreationFailed(String),
    WebSocketError(String),
    ZipError(String),
    Internal(String),
    /// A library path that is not acceptable, with the reason.
    InvalidPath(String),
}

/// The kind of an I/O failure, as far as the converter tells kinds apart
/// (`std::io::ErrorKind`'s `NotFound`, `PermissionDenied` and `AlreadyExists`, and
/// every other kind as `Other`).
#[derive(Debug, Clone, Copy)]
pub enum IoErrorKind {
    NotFound,
    PermissionDenied,
    AlreadyExists,
    Other,
}

/// An I/O failure: its kind and its text.
#[derive(Debug, Clone)]
pub struct IoError {
    pub kind: IoErrorKind,
    pub message: String,
}

/// The results of the converter's operations.
pub type Result<T> = std::result::Result<T, AppError>;

/// The text of an error (its `Display`).
pub open spec fn error_text(e: AppError) -> Seq<char> {
    match e {
        AppError::ConversionError(s) => "FFmpeg conversion failed: "@ + s@,
        AppError::JobNotFound(s) => "Job not found: "@ + s@,
        AppError::InvalidFileType => "Invalid file type"@,
        AppError::FileTooLarge => "File too large"@,
        AppError::TooManyFiles(n) => "Too many files in job (max: "@ + decimal(n as nat) + ")"@,
        AppError::NoFilesProvided => "No files provided"@,
        AppError::Io(e) => "IO error: "@ + e.message@,
        AppError::FFmpegNotFound => "FFmpeg not found"@,
        AppError::JobCreationFailed(s) => "Job creation failed: "@ + s@,
        AppError::WebSocketError(s) => "WebSocket error: "@ + s@,
        AppError::ZipError(s) => "ZIP creation failed: "@ + s@,
        AppError::Internal(s) => "Internal server error: "@ + s@,
        AppError::InvalidPath(s) => "Invalid path: "@ + s@,
    }
}

/// The HTTP status code that answers an error.
pub open spec fn error_status(e: AppError) -> u16 {
    match e {
        AppError::InvalidFileType => 400,
        AppError::FileTooLarge => 413,
        AppError::TooManyFiles(_) => 400,
        AppError::NoFilesProvided => 400,
        AppError::InvalidPath(_) => 400,
        AppError::JobNotFound(_) => 404,
        _ => 500,
    }
}

/// The message in the body of the response that answers an error.
pub open spec fn error_response_text(e: AppError) -> Seq<char> {
    match e {
        AppError::FFmpegNotFound => "FFmpeg is not installed on the server"@,
        _ => error_text(e),
    }
}

/// The error of something that is not found, with the given text.
pub fn not_found(message: String) -> (r: AppError)
    ensures
        r matches AppError::Io(e) && e.kind is NotFound && e.message == message,
{
    AppError::Io(IoError { kind: IoErrorKind::NotFound, message })
}

impl AppError {
    /// The text of the error.
    pub fn message(&self) -> (r: String)
        ensures
            r@ == error_text(*self),
    {
        match self {
            AppError::ConversionError(s) => concat("FFmpeg conversion failed: ", s.as_str()),
            AppError::JobNotFound(s) => concat("Job not found: ", s.as_str()),
            AppError::InvalidFileType => text("Invalid file type"),
            AppError::FileTooLarge => text("File too large"),
            AppError::TooManyFiles(n) => {
                let digits = decimal_text(*n as u64);
                let head = concat("Too many files in job (max: ", digits.as_str());
                concat(head.as_str(), ")")
            },
            AppError::NoFilesProvided => text("No files provided"),
            AppError::Io(e) => concat("IO error: ", e.message.as_str()),
            AppError::FFmpegNotFound => text("FFmpeg not found"),
            AppError::JobCreationFailed(s) => concat("Job creation failed: ", s.as_str()),
            AppError::WebSocketError(s) => concat("WebSocket error: ", s.as_str()),
            AppError::ZipError(s) => concat("ZIP creation failed: ", s.as_str()),
            AppError::Internal(s) => concat("Internal server error: ", s.as_str()),
            AppError::InvalidPath(s) => concat("Invalid path: ", s.as_str()),
        }
    }

    /// The HTTP status code of the response that answers the error.
    pub fn status_code(&self) -> (r: u16)
        ensures
            r == error_status(*self),
    {
        match self {
            AppError::InvalidFileType => 400,
            AppError::FileTooLarge => 413,
            AppError::TooManyFiles(_) => 400,
            AppError::NoFilesProvided => 400,
            AppError::InvalidPath(_) => 400,
            AppError::JobNotFound(_) => 404,
            _ => 500,
        }
    }

    /// The message of the response that answers the error.
    pub fn response_message(&self) -> (r: String)
        ensures
            r@ == error_response_text(*self),
    {
        match self {
            AppError::FFmpegNotFound => text("FFmpeg is not installed on the server"),
            _ => self.message(),
        }
    }
}

} // verus!

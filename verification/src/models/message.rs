//! The messages of the HTTP API and of the WebSocket channel.
use vstd::prelude::*;
use crate::models::job::{ConversionFile, JobStatus};

verus! {

/// A message on the WebSocket channel.
#[derive(Debug, Clone)]
pub enum WsMessage {
    Subscribe { job_id: String },
    Unsubscribe { job_id: String },
    /// Progress of a file of a job, in percent.
    Progress { job_id: String, file: String, percent: u32 },
    Complete { job_id: String },
    Error { job_id: String, message: String },
    Ping,
    Pong,
}

/// The answer to an accepted conversion request.
#[derive(Debug, Clone)]
pub struct UploadResponse {
    pub job_id: String,
    pub file_count: usize,
}

/// A job as the API shows it; the times are RFC 3339 texts.
#[derive(Debug, Clone)]
pub struct JobResponse {
    pub id: String,
    pub status: JobStatus,
    pub files: Vec<ConversionFile>,
    pub created_at: String,
    pub updated_at: String,
}

/// All jobs as the API shows them.
#[derive(Debug, Clone)]
pub struct JobListResponse {
    pub jobs: Vec<JobResponse>,
}

/// The kind of an entry of a library listing.
#[derive(Debug, Clone, Copy)]
pub enum LibraryEntryKind {
    File,
    Directory,
}

/// An entry of a library listing: its name, its path relative to the library root,
/// and its kind.
#[derive(Debug, Clone)]
pub struct LibraryEntry {
    pub name: String,
    pub path: String,
    pub kind: LibraryEntryKind,
}

/// A listing of a library directory.
#[derive(Debug, Clone)]
pub struct LibraryBrowseResponse {
    pub root_path: String,
    pub current_path: String,
    pub parent_path: Option<String>,
    pub entries: Vec<LibraryEntry>,
    pub directory_count: usize,
    pub file_count: usize,
}

/// A request to convert library files and directories, given relative to the root.
#[derive(Debug, Clone)]
pub struct LibraryConvertRequest {
    pub paths: Vec<String>,
}

/// A library entry as a value.
pub struct EntryView {
    pub name: Seq<char>,
    pub path: Seq<char>,
    pub kind: LibraryEntryKind,
}

impl View for LibraryEntry {
    type V = EntryView;

    open spec fn view(&self) -> EntryView {
        EntryView { name: self.name@, path: self.path@, kind: self.kind }
    }
}

} // verus!

//! Uploads: which uploaded files are accepted, and the job that a batch of files
//! becomes.
use vstd::prelude::*;
use crate::error::AppError;
use crate::models::message::UploadResponse;
use crate::services::job_manager::{creates_job, JobManager};
use crate::text::{chars_of, ends_with, ends_with_exec, lowercase, text, to_lowercase};

verus! {

/// The name of an uploaded file: the name it was sent with, or `unknown`.
pub open spec fn upload_name(name: Option<String>) -> Seq<char> {
    match name {
        Some(n) => n@,
        None => "unknown"@,
    }
}

/// Accepts an uploaded file by its name (see `upload_name`): the name when, lower-cased,
/// it ends in `.flac`; `InvalidFileType` otherwise.
pub fn upload_filename(name: Option<String>) -> (r: Result<String, AppError>)
    ensures
        match r {
            Ok(n) => n@ == upload_name(name) && ends_with(lowercase(upload_name(name)), ".flac"@),
            Err(e) => e is InvalidFileType && !ends_with(lowercase(upload_name(name)), ".flac"@),
        },
{
    let filename = match name {
        Some(n) => n,
        None => text("unknown"),
    };
    let lower = to_lowercase(filename.as_str());
    if ends_with_exec(&chars_of(lower.as_str()), &chars_of(".flac")) {
        Ok(filename)
    } else {
        Err(AppError::InvalidFileType)
    }
}

/// Turns a batch of files (each a path and its given name; `present[i]` says
/// whether file `i` exists) into a job, as `JobManager::create_job` does, and answers
/// with the job's id and the number of files.
pub fn create_conversion(
    manager: &mut JobManager,
    files: Vec<(String, String)>,
    present: &Vec<bool>,
) -> (r: Result<UploadResponse, AppError>)
    requires
        old(manager).wf(),
        present.len() == files.len(),
    ensures
        final(manager).wf(),
        final(manager).settings() == old(manager).settings(),
        creates_job(
            old(manager).jobs(),
            final(manager).jobs(),
            old(manager).settings().max_files_per_job,
            files@,
            present@,
            match r {
                Ok(resp) => Ok(resp.job_id),
                Err(e) => Err(e),
            },
        ),
        r matches Ok(resp) ==> resp.file_count == files@.len(),
{
    let file_count = files.len();
    match manager.create_job(files, present) {
        Ok(job_id) => Ok(UploadResponse { job_id, file_count }),
        Err(e) => Err(e),
    }
}

} // verus!

//! Downloads: which converted file a download sends, under which name, and what the
//! archive of a whole job is called.
use vstd::prelude::*;
use crate::error::{not_found, AppError};
use crate::models::job::Job;
use crate::paths::{file_name, file_name_of};
use crate::text::{chars_of, concat, string_of, text};

verus! {

/// The file that the download of a job sends: the job's first converted file;
/// `JobNotFound` saying that the job has none when it has none.
pub fn download_source(job_id: &str, job: &Job) -> (r: Result<String, AppError>)
    ensures
        match r {
            Ok(p) => job.result_paths@.len() > 0 && p@ == job.result_paths@[0]@,
            Err(e) => job.result_paths@.len() == 0 && (e matches AppError::JobNotFound(m) && m@
                == "No completed files in job "@ + job_id@),
        },
{
    if job.result_paths.len() == 0 {
        return Err(AppError::JobNotFound(concat("No completed files in job ", job_id)));
    }
    Ok(job.result_paths[0].clone())
}

/// The error of a download whose file is gone.
pub fn download_missing() -> (r: AppError)
    ensures
        r matches AppError::Io(e) && e.kind is NotFound && e.message@ == "File not found"@,
{
    not_found(text("File not found"))
}

/// The name under which a file is downloaded.
pub open spec fn download_name_of(path: Seq<char>) -> Seq<char> {
    match file_name(path) {
        Some(n) => n,
        None => "download.mp3"@,
    }
}

/// The name under which a file is downloaded: its file name, or `download.mp3`.
pub fn download_name(path: &str) -> (r: String)
    ensures
        r@ == download_name_of(path@),
{
    match file_name_of(&chars_of(path)) {
        Some(n) => string_of(&n),
        None => text("download.mp3"),
    }
}

/// The `Content-Disposition` value that sends a file as an attachment named `filename`.
pub fn attachment_disposition(filename: &str) -> (r: String)
    ensures
        r@ == "attachment; filename=\""@ + filename@ + "\""@,
{
    let head = concat("attachment; filename=\"", filename);
    concat(head.as_str(), "\"")
}

/// The name of the archive of all converted files of a job, `{job_id}.zip`;
/// `JobNotFound` saying that the job has none when it has none.
pub fn batch_archive_name(job_id: &str, job: &Job) -> (r: Result<String, AppError>)
    ensures
        match r {
            Ok(n) => job.result_paths@.len() > 0 && n@ == job_id@ + ".zip"@,
            Err(e) => job.result_paths@.len() == 0 && (e matches AppError::JobNotFound(m) && m@
                == "No completed files in job "@ + job_id@),
        },
{
    if job.result_paths.len() == 0 {
        return Err(AppError::JobNotFound(concat("No completed files in job ", job_id)));
    }
    Ok(concat(job_id, ".zip"))
}

} // verus!

//! Conversion jobs: the files of a job, their states, and the job's own state.
use vstd::prelude::*;
use crate::clock::current_time_nanos;

verus! {

/// The state of a whole job.
#[derive(Debug, Clone)]
pub enum JobStatus {
    Pending,
    Processing { current_file: usize, total: usize },
    /// Finished; the processing took `duration_secs` seconds and
    /// `duration_subsec_nanos` nanoseconds.
    Complete { duration_secs: u64, duration_subsec_nanos: u32 },
    Failed { error: String },
}

/// The state of one file of a job.
#[derive(Debug, Clone)]
pub enum FileStatus {
    Pending,
    Processing,
    Complete,
    Failed(String),
}

/// One file of a job.
#[derive(Debug, Clone)]
pub struct ConversionFile {
    pub input_path: String,
    pub output_path: Option<String>,
    pub filename: String,
    pub status: FileStatus,
    /// Conversion progress in percent.
    pub progress: u32,
}

/// A conversion job. Times are nanoseconds since the Unix epoch (UTC).
#[derive(Debug, Clone)]
pub struct Job {
    pub id: String,
    pub status: JobStatus,
    pub files: Vec<ConversionFile>,
    pub created_at: i64,
    pub updated_at: i64,
    pub result_paths: Vec<String>,
}

/// A job state as a value.
pub enum JobStatusView {
    Pending,
    Processing { current_file: usize, total: usize },
    Complete { duration_secs: u64, duration_subsec_nanos: u32 },
    Failed { error: Seq<char> },
}

/// A file state as a value.
pub enum FileStatusView {
    Pending,
    Processing,
    Complete,
    Failed(Seq<char>),
}

/// A job file as a value.
pub struct FileView {
    pub input_path: Seq<char>,
    pub output_path: Option<Seq<char>>,
    pub filename: Seq<char>,
    pub status: FileStatusView,
    pub progress: u32,
}

/// A job as a value.
pub struct JobView {
    pub id: Seq<char>,
    pub status: JobStatusView,
    pub files: Seq<FileView>,
    pub created_at: i64,
    pub updated_at: i64,
    pub result_paths: Seq<Seq<char>>,
}

impl View for JobStatus {
    type V = JobStatusView;

    open spec fn view(&self) -> JobStatusView {
        match self {
            JobStatus::Pending => JobStatusView::Pending,
            JobStatus::Processing { current_file, total } => JobStatusView::Processing {
                current_file: *current_file,
                total: *total,
            },
            JobStatus::Complete { duration_secs, duration_subsec_nanos } =>
                JobStatusView::Complete {
                duration_secs: *duration_secs,
                duration_subsec_nanos: *duration_subsec_nanos,
            },
            JobStatus::Failed { error } => JobStatusView::Failed { error: error@ },
        }
    }
}

impl View for FileStatus {
    type V = FileStatusView;

    open spec fn view(&self) -> FileStatusView {
        match self {
            FileStatus::Pending => FileStatusView::Pending,
            FileStatus::Processing => FileStatusView::Processing,
            FileStatus::Complete => FileStatusView::Complete,
            FileStatus::Failed(e) => FileStatusView::Failed(e@),
        }
    }
}

/// The view of an optional string.
pub open spec fn opt_text(o: Option<String>) -> Option<Seq<char>> {
    match o {
        Some(s) => Some(s@),
        None => None,
    }
}

impl View for ConversionFile {
    type V = FileView;

    open spec fn view(&self) -> FileView {
        FileView {
            input_path: self.input_path@,
            output_path: opt_text(self.output_path),
            filename: self.filename@,
            status: self.status@,
            progress: self.progress,
        }
    }
}

/// The views of a sequence of job files.
pub open spec fn file_views(files: Seq<ConversionFile>) -> Seq<FileView> {
    Seq::new(files.len(), |i: int| files[i]@)
}

/// The views of a sequence of strings.
pub open spec fn texts(v: Seq<String>) -> Seq<Seq<char>> {
    Seq::new(v.len(), |i: int| v[i]@)
}

impl View for Job {
    type V = JobView;

    open spec fn view(&self) -> JobView {
        JobView {
            id: self.id@,
            status: self.status@,
            files: file_views(self.files@),
            created_at: self.created_at,
            updated_at: self.updated_at,
            result_paths: texts(self.result_paths@),
        }
    }
}

/// A file that waits for conversion.
pub open spec fn pending_file(input_path: Seq<char>, filename: Seq<char>) -> FileView {
    FileView {
        input_path,
        output_path: None,
        filename,
        status: FileStatusView::Pending,
        progress: 0,
    }
}

/// A new job with the given files (each a source path and the name it was given),
/// created at `now`.
pub open spec fn new_job(id: Seq<char>, files: Seq<(String, String)>, now: i64) -> JobView {
    JobView {
        id,
        status: JobStatusView::Pending,
        files: Seq::new(files.len(), |i: int| pending_file(files[i].0@, files[i].1@)),
        created_at: now,
        updated_at: now,
        result_paths: Seq::empty(),
    }
}

/// The job `j` with state `status`, updated at `now`.
pub open spec fn with_status(j: JobView, status: JobStatusView, now: i64) -> JobView {
    JobView { status, updated_at: now, ..j }
}

/// The job `j` after progress `progress` was reported for file `index` at `now`: the
/// file, where there is one at `index`, is being processed and has that progress.
pub open spec fn with_progress(j: JobView, index: int, progress: u32, now: i64) -> JobView {
    let files = if 0 <= index < j.files.len() {
        j.files.update(
            index,
            FileView { progress, status: FileStatusView::Processing, ..j.files[index] },
        )
    } else {
        j.files
    };
    JobView { files, updated_at: now, ..j }
}

/// The job `j` after file `index` was converted to `output` at `now`: the file, where
/// there is one at `index`, is complete with its output; the output joins the results
/// in any case.
pub open spec fn with_completed(j: JobView, index: int, output: Seq<char>, now: i64) -> JobView {
    let files = if 0 <= index < j.files.len() {
        j.files.update(
            index,
            FileView {
                output_path: Some(output),
                status: FileStatusView::Complete,
                progress: 100,
                ..j.files[index]
            },
        )
    } else {
        j.files
    };
    JobView { files, updated_at: now, result_paths: j.result_paths.push(output), ..j }
}

/// The job `j` after file `index` failed with `error` at `now`.
pub open spec fn with_failed(j: JobView, index: int, error: Seq<char>, now: i64) -> JobView {
    let files = if 0 <= index < j.files.len() {
        j.files.update(index, FileView { status: FileStatusView::Failed(error), ..j.files[index] })
    } else {
        j.files
    };
    JobView { files, updated_at: now, ..j }
}

/// Whether a job created at `created_at` has outlived `timeout_secs` at `now`.
pub open spec fn expired(created_at: i64, timeout_secs: u64, now: i64) -> bool {
    now - created_at > timeout_secs * 1_000_000_000
}

/// The current time in nanoseconds since the Unix epoch; the latest representable
/// instant when the clock reads beyond the range of `i64` nanoseconds.
pub fn now_nanos() -> i64 {
    match current_time_nanos() {
        Some(t) => t,
        None => i64::MAX,
    }
}

impl FileStatus {
    /// A copy of the state.
    pub fn duplicate(&self) -> (r: FileStatus)
        ensures
            r@ == self@,
    {
        match self {
            FileStatus::Pending => FileStatus::Pending,
            FileStatus::Processing => FileStatus::Processing,
            FileStatus::Complete => FileStatus::Complete,
            FileStatus::Failed(e) => FileStatus::Failed(e.clone()),
        }
    }
}

impl JobStatus {
    /// A copy of the state.
    pub fn duplicate(&self) -> (r: JobStatus)
        ensures
            r@ == self@,
    {
        match self {
            JobStatus::Pending => JobStatus::Pending,
            JobStatus::Processing { current_file, total } => JobStatus::Processing {
                current_file: *current_file,
                total: *total,
            },
            JobStatus::Complete { duration_secs, duration_subsec_nanos } => JobStatus::Complete {
                duration_secs: *duration_secs,
                duration_subsec_nanos: *duration_subsec_nanos,
            },
            JobStatus::Failed { error } => JobStatus::Failed { error: error.clone() },
        }
    }
}

impl ConversionFile {
    /// A copy of the file.
    pub fn duplicate(&self) -> (r: ConversionFile)
        ensures
            r@ == self@,
    {
        ConversionFile {
            input_path: self.input_path.clone(),
            output_path: match &self.output_path {
                Some(p) => Some(p.clone()),
                None => None,
            },
            filename: self.filename.clone(),
            status: self.status.duplicate(),
            progress: self.progress,
        }
    }
}

/// Copies of the given files.
pub fn duplicate_files(files: &Vec<ConversionFile>) -> (r: Vec<ConversionFile>)
    ensures
        file_views(r@) == file_views(files@),
{
    let mut r: Vec<ConversionFile> = Vec::new();
    let mut i: usize = 0;
    while i < files.len()
        invariant
            i <= files.len(),
            file_views(r@) =~= file_views(files@).take(i as int),
        decreases files.len() - i,
    {
        let ghost before = file_views(r@);
        r.push(files[i].duplicate());
        assert(file_views(r@) =~= before.push(files@[i as int]@));
        assert(file_views(files@).take(i + 1) =~= file_views(files@).take(i as int).push(
            files@[i as int]@,
        ));
        i = i + 1;
    }
    assert(file_views(files@).take(files.len() as int) =~= file_views(files@));
    r
}

/// Copies of the given strings.
pub fn duplicate_texts(v: &Vec<String>) -> (r: Vec<String>)
    ensures
        texts(r@) == texts(v@),
{
    let mut r: Vec<String> = Vec::new();
    let mut i: usize = 0;
    while i < v.len()
        invariant
            i <= v.len(),
            texts(r@) =~= texts(v@).take(i as int),
        decreases v.len() - i,
    {
        let ghost before = texts(r@);
        r.push(v[i].clone());
        assert(texts(r@) =~= before.push(v@[i as int]@));
        assert(texts(v@).take(i + 1) =~= texts(v@).take(i as int).push(v@[i as int]@));
        i = i + 1;
    }
    assert(texts(v@).take(v.len() as int) =~= texts(v@));
    r
}

impl Job {
    /// A copy of the job.
    pub fn duplicate(&self) -> (r: Job)
        ensures
            r@ == self@,
    {
        Job {
            id: self.id.clone(),
            status: self.status.duplicate(),
            files: duplicate_files(&self.files),
            created_at: self.created_at,
            updated_at: self.updated_at,
            result_paths: duplicate_texts(&self.result_paths),
        }
    }

    /// A new job with the given files (each a source path and the name it was given),
    /// created at `now`: every file waits for conversion, nothing is converted yet.
    pub fn new_at(id: String, files: Vec<(String, String)>, now: i64) -> (r: Job)
        ensures
            r@ == new_job(id@, files@, now),
    {
        let ghost orig = files@;
        let mut conversion_files: Vec<ConversionFile> = Vec::new();
        let mut rest = files;
        let mut i: usize = 0;
        let n = rest.len();
        while i < n
            invariant
                n == orig.len(),
                i <= n,
                rest@ == orig.skip(i as int),
                file_views(conversion_files@) =~= Seq::new(
                    i as nat,
                    |k: int| pending_file(orig[k].0@, orig[k].1@),
                ),
            decreases n - i,
        {
            let (path, given_name) = rest.remove(0);
            assert(path == orig[i as int].0 && given_name == orig[i as int].1);
            let ghost before = file_views(conversion_files@);
            conversion_files.push(
                ConversionFile {
                    filename: given_name,
                    input_path: path,
                    output_path: None,
                    status: FileStatus::Pending,
                    progress: 0,
                },
            );
            assert(rest@ =~= orig.skip(i + 1));
            assert(file_views(conversion_files@) =~= before.push(
                pending_file(orig[i as int].0@, orig[i as int].1@),
            ));
            i = i + 1;
        }
        let r = Job {
            id,
            status: JobStatus::Pending,
            files: conversion_files,
            created_at: now,
            updated_at: now,
            result_paths: Vec::new(),
        };
        assert(r@.result_paths =~= Seq::<Seq<char>>::empty());
        r
    }

    /// A new job with the given files, created now.
    pub fn new(id: String, files: Vec<(String, String)>) -> (r: Job)
        ensures
            r@ == new_job(id@, files@, r.created_at),
    {
        let now = now_nanos();
        Job::new_at(id, files, now)
    }

    /// Sets the job's state, updated at `now`.
    pub fn update_status_at(&mut self, status: JobStatus, now: i64)
        ensures
            final(self)@ == with_status(old(self)@, status@, now),
    {
        self.status = status;
        self.updated_at = now;
    }

    /// Sets the job's state, updated now.
    pub fn update_status(&mut self, status: JobStatus)
        ensures
            final(self)@ == with_status(old(self)@, status@, final(self).updated_at),
    {
        let now = now_nanos();
        self.update_status_at(status, now);
    }

    /// Records progress `progress` (percent) of file `index` at `now`.
    pub fn update_file_progress_at(&mut self, index: usize, progress: u32, now: i64)
        ensures
            final(self)@ == with_progress(old(self)@, index as int, progress, now),
    {
        let ghost old_files = file_views(self.files@);
        if index < self.files.len() {
            self.files[index].progress = progress;
            self.files[index].status = FileStatus::Processing;
            assert(file_views(self.files@) =~= old_files.update(
                index as int,
                FileView { progress, status: FileStatusView::Processing, ..old_files[index as int] },
            ));
        }
        self.updated_at = now;
    }

    /// Records progress `progress` (percent) of file `index`, now.
    pub fn update_file_progress(&mut self, index: usize, progress: u32)
        ensures
            final(self)@ == with_progress(
                old(self)@,
                index as int,
                progress,
                final(self).updated_at,
            ),
    {
        let now = now_nanos();
        self.update_file_progress_at(index, progress, now);
    }

    /// Records at `now` that file `index` was converted to `output_path`.
    pub fn complete_file_at(&mut self, index: usize, output_path: String, now: i64)
        ensures
            final(self)@ == with_completed(old(self)@, index as int, output_path@, now),
    {
        let ghost old_files = file_views(self.files@);
        let ghost old_results = texts(self.result_paths@);
        if index < self.files.len() {
            self.files[index].output_path = Some(output_path.clone());
            self.files[index].status = FileStatus::Complete;
            self.files[index].progress = 100;
            assert(file_views(self.files@) =~= old_files.update(
                index as int,
                FileView {
                    output_path: Some(output_path@),
                    status: FileStatusView::Complete,
                    progress: 100,
                    ..old_files[index as int]
                },
            ));
        }
        self.result_paths.push(output_path);
        assert(texts(self.result_paths@) =~= old_results.push(output_path@));
        self.updated_at = now;
    }

    /// Records, now, that file `index` was converted to `output_path`.
    pub fn complete_file(&mut self, index: usize, output_path: String)
        ensures
            final(self)@ == with_completed(
                old(self)@,
                index as int,
                output_path@,
                final(self).updated_at,
            ),
    {
        let now = now_nanos();
        self.complete_file_at(index, output_path, now);
    }

    /// Records at `now` that file `index` failed with `error`.
    pub fn fail_file_at(&mut self, index: usize, error: String, now: i64)
        ensures
            final(self)@ == with_failed(old(self)@, index as int, error@, now),
    {
        let ghost old_files = file_views(self.files@);
        let ghost e = error@;
        if index < self.files.len() {
            self.files[index].status = FileStatus::Failed(error);
            assert(file_views(self.files@) =~= old_files.update(
                index as int,
                FileView { status: FileStatusView::Failed(e), ..old_files[index as int] },
            ));
        }
        self.updated_at = now;
    }

    /// Records, now, that file `index` failed with `error`.
    pub fn fail_file(&mut self, index: usize, error: String)
        ensures
            final(self)@ == with_failed(old(self)@, index as int, error@, final(self).updated_at),
    {
        let now = now_nanos();
        self.fail_file_at(index, error, now);
    }

    /// Whether the job has outlived `timeout_secs` at `now`.
    pub fn is_expired_at(&self, timeout_secs: u64, now: i64) -> (r: bool)
        ensures
            r == expired(self.created_at, timeout_secs, now),
    {
        let elapsed: i128 = (now as i128) - (self.created_at as i128);
        elapsed > (timeout_secs as i128) * 1_000_000_000i128
    }

    /// Whether the job has outlived `timeout_secs` now, at the instant the clock gives;
    /// `is_expired_at` states the answer for a given instant. Whatever the clock reads,
    /// a job whose timeout reaches past the latest instant that `i64` nanoseconds can
    /// count is never reported expired.
    pub fn is_expired(&self, timeout_secs: u64) -> (r: bool)
        ensures
            r ==> timeout_secs * 1_000_000_000 < i64::MAX - self.created_at,
    {
        let now = now_nanos();
        self.is_expired_at(timeout_secs, now)
    }
}

/// The job `j` after its files `0..outputs.len()` were converted, in order, file `i`
/// to `outputs[i]` at `times[i]`.
pub open spec fn completed_in_order(j: JobView, outputs: Seq<Seq<char>>, times: Seq<i64>) -> JobView
    decreases outputs.len(),
{
    if outputs.len() == 0 {
        j
    } else {
        with_completed(
            completed_in_order(j, outputs.drop_last(), times),
            outputs.len() - 1,
            outputs.last(),
            times[outputs.len() - 1],
        )
    }
}

/// Converting the files of a job one after the other leaves each of them complete
/// with its output, adds the outputs to the job's results in the same order, and
/// changes nothing else of the job but the time it was updated at.
pub proof fn law_files_complete_in_order(j: JobView, outputs: Seq<Seq<char>>, times: Seq<i64>)
    requires
        outputs.len() <= j.files.len(),
    ensures
        completed_in_order(j, outputs, times).id == j.id,
        completed_in_order(j, outputs, times).status == j.status,
        completed_in_order(j, outputs, times).created_at == j.created_at,
        completed_in_order(j, outputs, times).files.len() == j.files.len(),
        completed_in_order(j, outputs, times).result_paths == j.result_paths + outputs,
        forall|i: int|
            0 <= i < outputs.len() ==> {
                let f = #[trigger] completed_in_order(j, outputs, times).files[i];
                &&& f.status is Complete
                &&& f.output_path == Some(outputs[i])
                &&& f.progress == 100
                &&& f.input_path == j.files[i].input_path
                &&& f.filename == j.files[i].filename
            },
        forall|i: int|
            outputs.len() <= i < j.files.len() ==> #[trigger] completed_in_order(
                j,
                outputs,
                times,
            ).files[i] == j.files[i],
    decreases outputs.len(),
{
    if outputs.len() > 0 {
        law_files_complete_in_order(j, outputs.drop_last(), times);
        let prev = completed_in_order(j, outputs.drop_last(), times);
        assert(prev.result_paths.push(outputs.last()) =~= j.result_paths + outputs);
        let r = completed_in_order(j, outputs, times);
        assert forall|i: int| 0 <= i < outputs.len() implies {
            let f = #[trigger] r.files[i];
            &&& f.status is Complete
            &&& f.output_path == Some(outputs[i])
            &&& f.progress == 100
            &&& f.input_path == j.files[i].input_path
            &&& f.filename == j.files[i].filename
        } by {
            if i < outputs.len() - 1 {
                assert(r.files[i] == prev.files[i]);
                assert(outputs.drop_last()[i] == outputs[i]);
            }
        }
        assert forall|i: int| outputs.len() <= i < j.files.len() implies #[trigger] r.files[i]
            == j.files[i] by {
            assert(r.files[i] == prev.files[i]);
        }
    }
}

/// Expiry only grows with time and age: a job is never expired at or before its
/// creation; once expired it stays expired as time goes on; and a job created no
/// later than an expired one is expired too.
pub proof fn law_expiry_monotone(created: i64, older: i64, timeout_secs: u64, now: i64, later: i64)
    ensures
        created >= now ==> !expired(created, timeout_secs, now),
        expired(created, timeout_secs, now) && now <= later ==> expired(created, timeout_secs, later),
        expired(created, timeout_secs, now) && older <= created ==> expired(older, timeout_secs, now),
{
}

} // verus!

//! The job manager: the table of conversion jobs, how a job is accepted into it, how
//! it is looked up, listed and removed, and how a run of a job's conversions goes.
use vstd::prelude::*;
use crate::config::Config;
use crate::error::{error_text, not_found, AppError};
use crate::ids::{is_uuid_text, new_job_id};
use crate::models::job::{
    expired,
    now_nanos,
    texts,
    with_completed,
    with_failed,
    with_progress,
    with_status,
    new_job,
    Job,
    JobStatus,
    JobStatusView,
    JobView,
};
use crate::paths::{
    file_name,
    free_of,
    has_flac_ext,
    has_flac_ext_exec,
    is_real,
    join_path,
    join_path_exec,
    lemma_file_name_of_join,
};
use crate::services::job_table::{
    table_entries,
    table_get,
    table_insert,
    table_jobs,
    table_new,
    table_remove,
    JobTable,
};
use crate::text::{chars_of, concat, string_of, text};

verus! {

/// Keeps the conversion jobs and the settings they run under.
pub struct JobManager {
    jobs: JobTable,
    config: Config,
}

/// Whether every job of a table is stored under its own id.
pub open spec fn keyed_by_id(jobs: Map<Seq<char>, JobView>) -> bool {
    forall|k: Seq<char>| #[trigger] jobs.dom().contains(k) ==> jobs[k].id == k
}

/// Whether a file can be converted: it exists (`present`) and its path has the
/// extension `flac` in any letter case.
pub open spec fn accepted_file(path: Seq<char>, present: bool) -> bool {
    present && has_flac_ext(path)
}

/// Whether every file of a request can be converted.
pub open spec fn all_accepted(files: Seq<(String, String)>, present: Seq<bool>) -> bool {
    forall|j: int| 0 <= j < files.len() ==> #[trigger] accepted_file(files[j].0@, present[j])
}

/// Whether file `k` is the first of a request that cannot be converted.
pub open spec fn first_rejected(files: Seq<(String, String)>, present: Seq<bool>, k: int) -> bool {
    &&& 0 <= k < files.len()
    &&& !accepted_file(files[k].0@, present[k])
    &&& forall|j: int| 0 <= j < k ==> #[trigger] accepted_file(files[j].0@, present[j])
}

/// The error that refuses a file: a missing file is an I/O error naming its path,
/// an existing one has the wrong type.
pub open spec fn rejection(e: AppError, path: Seq<char>, present: bool) -> bool {
    if present {
        e is InvalidFileType
    } else {
        e matches AppError::Io(io) && io.kind is NotFound && io.message@ == "File not found: "@ + path
    }
}

/// What accepting a job for `files` (with `present[i]` saying whether file `i` exists)
/// does, from the table `old` to the table `new`, with at most `max` files to a job,
/// when it answers `r`: no files, too many files, or a first file that is missing or
/// not FLAC refuse the request and change nothing; otherwise the job waits under a new
/// random id.
pub open spec fn creates_job(
    old: Map<Seq<char>, JobView>,
    new: Map<Seq<char>, JobView>,
    max: usize,
    files: Seq<(String, String)>,
    present: Seq<bool>,
    r: Result<String, AppError>,
) -> bool {
    &&& files.len() == 0 ==> (r matches Err(AppError::NoFilesProvided))
    &&& files.len() > max ==> (r matches Err(AppError::TooManyFiles(m)) && m == max)
    &&& 0 < files.len() <= max ==> ((r is Ok) <==> all_accepted(files, present))
    &&& 0 < files.len() <= max ==> forall|k: int| #[trigger]
        first_rejected(files, present, k) ==> (r matches Err(e) && rejection(
            e,
            files[k].0@,
            present[k],
        ))
    &&& r is Err ==> new == old
    &&& r matches Ok(id) ==> is_uuid_text(id@) && new == old.insert(
        id@,
        new_job(id@, files, new[id@].created_at),
    )
}

/// The jobs of a table that have not outlived `timeout_secs` at `now`.
pub open spec fn unexpired(jobs: Map<Seq<char>, JobView>, timeout_secs: u64, now: i64) -> Map<
    Seq<char>,
    JobView,
> {
    jobs.restrict(jobs.dom().filter(|k: Seq<char>| !expired(jobs[k].created_at, timeout_secs, now)))
}

/// The ids of the jobs of a table that have outlived `timeout_secs` at `now`.
pub open spec fn expired_ids(jobs: Map<Seq<char>, JobView>, timeout_secs: u64, now: i64) -> Set<
    Seq<char>,
> {
    jobs.dom().filter(|k: Seq<char>| expired(jobs[k].created_at, timeout_secs, now))
}

/// The name of the MP3 file made from a file with the given given name: the name
/// without a final `.flac` (or else `.FLAC`), followed by `.mp3`.
pub open spec fn mp3_name(filename: Seq<char>) -> Seq<char> {
    if crate::text::ends_with(filename, ".flac"@) {
        filename.take(filename.len() - ".flac"@.len()) + ".mp3"@
    } else if crate::text::ends_with(filename, ".FLAC"@) {
        filename.take(filename.len() - ".FLAC"@.len()) + ".mp3"@
    } else {
        filename + ".mp3"@
    }
}

/// The name of the MP3 file made from a file with the given given name.
pub fn mp3_name_of(filename: &str) -> (r: String)
    ensures
        r@ == mp3_name(filename@),
{
    let v = chars_of(filename);
    let lower = chars_of(".flac");
    let upper = chars_of(".FLAC");
    if crate::text::ends_with_exec(&v, &lower) {
        let stem = string_of(&crate::text::slice_chars(&v, 0, v.len() - lower.len()));
        assert(v@.subrange(0, v@.len() - lower@.len()) =~= v@.take(v@.len() - lower@.len()));
        concat(stem.as_str(), ".mp3")
    } else if crate::text::ends_with_exec(&v, &upper) {
        let stem = string_of(&crate::text::slice_chars(&v, 0, v.len() - upper.len()));
        assert(v@.subrange(0, v@.len() - upper@.len()) =~= v@.take(v@.len() - upper@.len()));
        concat(stem.as_str(), ".mp3")
    } else {
        concat(filename, ".mp3")
    }
}

impl JobManager {
    /// The jobs, by id.
    pub closed spec fn jobs(&self) -> Map<Seq<char>, JobView> {
        table_jobs(self.jobs)
    }

    /// The settings.
    pub closed spec fn settings(&self) -> Config {
        self.config
    }

    /// The manager's invariant: every job is stored under its own id.
    pub open spec fn wf(&self) -> bool {
        keyed_by_id(self.jobs())
    }

    /// A manager with no jobs, running under `config`.
    pub fn new(config: Config) -> (r: JobManager)
        ensures
            r.wf(),
            r.jobs() == Map::<Seq<char>, JobView>::empty(),
            r.settings() == config,
    {
        let jobs = table_new();
        assert(table_jobs(jobs) =~= Map::<Seq<char>, JobView>::empty());
        JobManager { jobs, config }
    }

    /// The settings.
    pub fn config(&self) -> (r: &Config)
        ensures
            *r == self.settings(),
    {
        &self.config
    }

    /// The directory for temporary files.
    pub fn temp_dir(&self) -> (r: &String)
        ensures
            r@ == self.settings().temp_dir@,
    {
        &self.config.temp_dir
    }

    /// The root of the music library.
    pub fn music_library_root(&self) -> (r: &String)
        ensures
            r@ == self.settings().music_library_root@,
    {
        &self.config.music_library_root
    }

    /// The temporary directory of a job: the job's id inside the temporary directory.
    pub fn job_temp_dir(&self, job_id: &str) -> (r: String)
        ensures
            r@ == join_path(self.settings().temp_dir@, job_id@),
    {
        let base = chars_of(self.config.temp_dir.as_str());
        let id = chars_of(job_id);
        string_of(&join_path_exec(&base, &id))
    }

    /// Accepts a job for the given files, each a source path and its given name;
    /// `present[i]` says whether file `i` exists. A request is refused when it has no
    /// files, more than the allowed number of files, or a file that is missing or not
    /// FLAC (the first such file decides the error); a refused request changes nothing.
    /// An accepted job waits under a new random id, which is returned.
    pub fn create_job(&mut self, files: Vec<(String, String)>, present: &Vec<bool>) -> (r: Result<
        String,
        AppError,
    >)
        requires
            old(self).wf(),
            present.len() == files.len(),
        ensures
            final(self).wf(),
            final(self).settings() == old(self).settings(),
            creates_job(
                old(self).jobs(),
                final(self).jobs(),
                old(self).settings().max_files_per_job,
                files@,
                present@,
                r,
            ),
    {
        if files.len() == 0 {
            return Err(AppError::NoFilesProvided);
        }
        if files.len() > self.config.max_files_per_job {
            return Err(AppError::TooManyFiles(self.config.max_files_per_job));
        }
        let mut i: usize = 0;
        while i < files.len()
            invariant
                i <= files.len(),
                present.len() == files.len(),
                self.wf(),
                self.jobs() == old(self).jobs(),
                self.settings() == old(self).settings(),
                0 < files.len() <= self.settings().max_files_per_job,
                forall|j: int| 0 <= j < i ==> #[trigger] accepted_file(files@[j].0@, present@[j]),
            decreases files.len() - i,
        {
            let path = files[i].0.as_str();
            if !present[i] {
                proof {
                    assert(first_rejected(files@, present@, i as int));
                    assert forall|k: int| #[trigger]
                        first_rejected(files@, present@, k) implies k == i by {
                        if k < i {
                            assert(accepted_file(files@[k].0@, present@[k]));
                        } else if k > i {
                            assert(accepted_file(files@[i as int].0@, present@[i as int]));
                        }
                    }
                }
                return Err(not_found(concat("File not found: ", path)));
            }
            let v = chars_of(path);
            if !has_flac_ext_exec(&v) {
                proof {
                    assert(first_rejected(files@, present@, i as int));
                    assert forall|k: int| #[trigger]
                        first_rejected(files@, present@, k) implies k == i by {
                        if k < i {
                            assert(accepted_file(files@[k].0@, present@[k]));
                        } else if k > i {
                            assert(accepted_file(files@[i as int].0@, present@[i as int]));
                        }
                    }
                }
                return Err(AppError::InvalidFileType);
            }
            assert(accepted_file(files@[i as int].0@, present@[i as int]));
            i = i + 1;
        }
        assert forall|k: int| !#[trigger] first_rejected(files@, present@, k) by {
            if 0 <= k < files.len() {
                assert(accepted_file(files@[k].0@, present@[k]));
            }
        }
        let job_id = new_job_id();
        let ghost fs = files@;
        let job = Job::new(job_id.clone(), files);
        let ghost jv = job@;
        let _ = table_insert(&mut self.jobs, job_id.clone(), job);
        proof {
            assert(table_jobs(self.jobs)[job_id@] == jv);
            assert forall|k: Seq<char>| #[trigger]
                table_jobs(self.jobs).dom().contains(k) implies table_jobs(self.jobs)[k].id
                == k by {
                if k != job_id@ {
                    assert(old(self).jobs().dom().contains(k));
                }
            }
        }
        Ok(job_id)
    }

    /// The job with the given id, or `JobNotFound` with the id.
    pub fn get_job(&self, job_id: &str) -> (r: Result<Job, AppError>)
        ensures
            match r {
                Ok(j) => self.jobs().dom().contains(job_id@) && j@ == self.jobs()[job_id@],
                Err(e) => !self.jobs().dom().contains(job_id@) && (e matches AppError::JobNotFound(
                    s,
                ) && s@ == job_id@),
            },
    {
        match table_get(&self.jobs, job_id) {
            Some(j) => Ok(j),
            None => Err(AppError::JobNotFound(text(job_id))),
        }
    }

    /// All jobs, each once, in no particular order.
    pub fn list_jobs(&self) -> (r: Vec<Job>)
        requires
            self.wf(),
        ensures
            forall|i: int|
                0 <= i < r@.len() ==> self.jobs().dom().contains(#[trigger] r@[i]@.id)
                    && self.jobs()[r@[i]@.id] == r@[i]@,
            forall|i: int, j: int| 0 <= i < j < r@.len() ==> #[trigger] r@[i]@.id != #[trigger] r@[j]@.id,
            forall|k: Seq<char>|
                #[trigger] self.jobs().dom().contains(k) ==> exists|i: int|
                    0 <= i < r@.len() && r@[i]@.id == k,
    {
        let entries = table_entries(&self.jobs);
        let mut r: Vec<Job> = Vec::new();
        let mut i: usize = 0;
        while i < entries.len()
            invariant
                i <= entries.len(),
                r@.len() == i,
                keyed_by_id(table_jobs(self.jobs)),
                forall|a: int|
                    0 <= a < entries@.len() ==> table_jobs(self.jobs).dom().contains(
                        #[trigger] entries@[a].0@,
                    ) && entries@[a].1@ == table_jobs(self.jobs)[entries@[a].0@],
                forall|a: int| 0 <= a < i ==> #[trigger] r@[a]@ == entries@[a].1@,
            decreases entries.len() - i,
        {
            r.push(entries[i].1.duplicate());
            i = i + 1;
        }
        proof {
            assert forall|a: int| 0 <= a < r@.len() implies r@[a]@.id == entries@[a].0@ by {
                assert(table_jobs(self.jobs).dom().contains(entries@[a].0@));
            }
            assert forall|k: Seq<char>| #[trigger]
                self.jobs().dom().contains(k) implies exists|a: int|
                0 <= a < r@.len() && r@[a]@.id == k by {
                let a = choose|a: int| 0 <= a < entries@.len() && entries@[a].0@ == k;
                assert(r@[a]@.id == entries@[a].0@);
            }
            assert forall|a: int, b: int| 0 <= a < b < r@.len() implies #[trigger] r@[a]@.id
                != #[trigger] r@[b]@.id by {
                assert(r@[a]@.id == entries@[a].0@);
                assert(r@[b]@.id == entries@[b].0@);
                assert(entries@[a].0@ != entries@[b].0@);
            }
        }
        r
    }

    /// Removes the job with the given id, or answers `JobNotFound` with the id when
    /// there is none.
    pub fn delete_job(&mut self, job_id: &str) -> (r: Result<(), AppError>)
        requires
            old(self).wf(),
        ensures
            final(self).wf(),
            final(self).settings() == old(self).settings(),
            final(self).jobs() == old(self).jobs().remove(job_id@),
            (r is Ok) == old(self).jobs().dom().contains(job_id@),
            r matches Err(e) ==> (e matches AppError::JobNotFound(s) && s@ == job_id@),
    {
        match table_remove(&mut self.jobs, job_id) {
            Some(_) => {
                proof {
                    assert forall|k: Seq<char>| #[trigger]
                        table_jobs(self.jobs).dom().contains(k) implies table_jobs(self.jobs)[k].id
                        == k by {
                        assert(old(self).jobs().dom().contains(k));
                    }
                }
                Ok(())
            },
            None => {
                proof {
                    assert(table_jobs(self.jobs) =~= old(self).jobs());
                }
                Err(AppError::JobNotFound(text(job_id)))
            },
        }
    }

    /// Removes the jobs that have outlived the job timeout at `now`, and returns their
    /// ids, each once.
    pub fn cleanup_expired_jobs_at(&mut self, now: i64) -> (r: Vec<String>)
        requires
            old(self).wf(),
        ensures
            final(self).wf(),
            final(self).settings() == old(self).settings(),
            final(self).jobs() == unexpired(
                old(self).jobs(),
                old(self).settings().job_timeout_secs,
                now,
            ),
            texts(r@).to_set() == expired_ids(
                old(self).jobs(),
                old(self).settings().job_timeout_secs,
                now,
            ),
            texts(r@).no_duplicates(),
    {
        let timeout = self.config.job_timeout_secs;
        let ghost start = self.jobs();
        let entries = table_entries(&self.jobs);
        let mut ids: Vec<String> = Vec::new();
        let mut i: usize = 0;
        while i < entries.len()
            invariant
                i <= entries.len(),
                start == table_jobs(self.jobs),
                self.config == old(self).config,
                timeout == self.config.job_timeout_secs,
                forall|a: int|
                    0 <= a < entries@.len() ==> start.dom().contains(#[trigger] entries@[a].0@)
                        && entries@[a].1@ == start[entries@[a].0@],
                forall|a: int, b: int|
                    0 <= a < b < entries@.len() ==> #[trigger] entries@[a].0@
                        != #[trigger] entries@[b].0@,
                forall|k: Seq<char>|
                    #[trigger] start.dom().contains(k) ==> exists|a: int|
                        0 <= a < entries@.len() && entries@[a].0@ == k,
                texts(ids@).no_duplicates(),
                forall|k: Seq<char>|
                    #[trigger] texts(ids@).contains(k) ==> start.dom().contains(k) && expired(
                        start[k].created_at,
                        timeout,
                        now,
                    ) && exists|a: int| 0 <= a < i && entries@[a].0@ == k,
                forall|a: int|
                    0 <= a < i && expired(start[entries@[a].0@].created_at, timeout, now)
                        ==> texts(ids@).contains(#[trigger] entries@[a].0@),
            decreases entries.len() - i,
        {
            let ghost before = texts(ids@);
            let ghost key = entries@[i as int].0@;
            if entries[i].1.is_expired_at(timeout, now) {
                ids.push(entries[i].0.clone());
                proof {
                    assert(texts(ids@) =~= before.push(key));
                    assert(!before.contains(key)) by {
                        if before.contains(key) {
                            let a = choose|a: int| 0 <= a < i && entries@[a].0@ == key;
                            assert(entries@[a].0@ != entries@[i as int].0@);
                        }
                    }
                    assert forall|k: Seq<char>| #[trigger]
                        texts(ids@).contains(k) implies start.dom().contains(k) && expired(
                        start[k].created_at,
                        timeout,
                        now,
                    ) && exists|a: int| 0 <= a < i + 1 && entries@[a].0@ == k by {
                        if k != key {
                            assert(before.contains(k));
                        } else {
                            assert(entries@[i as int].0@ == k);
                        }
                    }
                    assert forall|a: int|
                        0 <= a < i + 1 && expired(start[entries@[a].0@].created_at, timeout, now)
                            implies texts(ids@).contains(#[trigger] entries@[a].0@) by {
                        if a < i {
                            assert(before.contains(entries@[a].0@));
                            let j = choose|j: int| 0 <= j < before.len() && before[j] == entries@[a].0@;
                            assert(texts(ids@)[j] == entries@[a].0@);
                        } else {
                            assert(a == i);
                            assert(texts(ids@)[before.len() as int] == key);
                            assert(texts(ids@).contains(key));
                        }
                    }
                }
            } else {
                proof {
                    assert(texts(ids@) == before);
                    assert forall|k: Seq<char>| #[trigger]
                        texts(ids@).contains(k) implies start.dom().contains(k) && expired(
                        start[k].created_at,
                        timeout,
                        now,
                    ) && exists|a: int| 0 <= a < i + 1 && entries@[a].0@ == k by {
                        assert(before.contains(k));
                    }
                }
            }
            i = i + 1;
        }
        let ghost expired_set = expired_ids(start, timeout, now);
        proof {
            assert(texts(ids@).to_set() =~= expired_set) by {
                assert forall|k: Seq<char>| #[trigger] expired_set.contains(k) implies texts(
                    ids@,
                ).contains(k) by {
                    assert(start.dom().contains(k));
                    let a = choose|a: int| 0 <= a < entries@.len() && entries@[a].0@ == k;
                    assert(expired(start[entries@[a].0@].created_at, timeout, now));
                }
                assert forall|k: Seq<char>| #[trigger] texts(ids@).to_set().contains(k)
                    implies expired_set.contains(k) by {
                    assert(texts(ids@).contains(k));
                }
            }
        }
        let mut j: usize = 0;
        while j < ids.len()
            invariant
                j <= ids.len(),
                self.config == old(self).config,
                self.config.job_timeout_secs == timeout,
                texts(ids@).no_duplicates(),
                texts(ids@).to_set() == expired_set,
                expired_set == expired_ids(start, timeout, now),
                keyed_by_id(start),
                forall|k: Seq<char>|
                    #[trigger] table_jobs(self.jobs).dom().contains(k) <==> (start.dom().contains(k)
                        && !texts(ids@).take(j as int).contains(k)),
                forall|k: Seq<char>|
                    #[trigger] table_jobs(self.jobs).dom().contains(k) ==> table_jobs(self.jobs)[k]
                        == start[k],
            decreases ids.len() - j,
        {
            let _ = table_remove(&mut self.jobs, ids[j].as_str());
            proof {
                let t = texts(ids@).take(j + 1);
                assert(t =~= texts(ids@).take(j as int).push(ids@[j as int]@));
                assert forall|k: Seq<char>| #[trigger]
                    table_jobs(self.jobs).dom().contains(k) <==> (start.dom().contains(k) && !t.contains(
                        k,
                    )) by {
                    if t.contains(k) && k != ids@[j as int]@ {
                        let a = choose|a: int| 0 <= a < t.len() && t[a] == k;
                        assert(texts(ids@).take(j as int)[a] == k);
                    }
                    if texts(ids@).take(j as int).contains(k) {
                        let a = choose|a: int|
                            0 <= a < j && texts(ids@).take(j as int)[a] == k;
                        assert(t[a] == k);
                    }
                    if k == ids@[j as int]@ {
                        assert(t[j as int] == k);
                    }
                }
            }
            j = j + 1;
        }
        proof {
            assert(texts(ids@).take(ids.len() as int) =~= texts(ids@));
            let u = unexpired(start, timeout, now);
            assert forall|k: Seq<char>| #[trigger]
                table_jobs(self.jobs).dom().contains(k) <==> u.dom().contains(k) by {
                if texts(ids@).contains(k) {
                    assert(texts(ids@).to_set().contains(k));
                }
                if expired_set.contains(k) {
                    assert(texts(ids@).to_set().contains(k));
                }
            }
            assert(table_jobs(self.jobs) =~= u);
            assert forall|k: Seq<char>| #[trigger]
                table_jobs(self.jobs).dom().contains(k) implies table_jobs(self.jobs)[k].id
                == k by {
                assert(start.dom().contains(k));
            }
        }
        ids
    }

    /// Removes the jobs that have outlived the job timeout now, and returns their ids.
    pub fn cleanup_expired_jobs(&mut self) -> (r: Vec<String>)
        requires
            old(self).wf(),
        ensures
            final(self).wf(),
            final(self).settings() == old(self).settings(),
            exists|now: i64|
                final(self).jobs() == unexpired(
                    old(self).jobs(),
                    old(self).settings().job_timeout_secs,
                    now,
                ) && texts(r@).to_set() == expired_ids(
                    old(self).jobs(),
                    old(self).settings().job_timeout_secs,
                    now,
                ),
    {
        let now = now_nanos();
        self.cleanup_expired_jobs_at(now)
    }
}


/// The table `new` is `old` where the job under `id`, if there is one, became `v`.
pub open spec fn updated(
    old: Map<Seq<char>, JobView>,
    new: Map<Seq<char>, JobView>,
    id: Seq<char>,
    v: JobView,
) -> bool {
    if old.dom().contains(id) {
        new == old.insert(id, v)
    } else {
        new == old
    }
}

/// The source paths of a job's files, in order.
pub open spec fn input_paths(j: JobView) -> Seq<Seq<char>> {
    Seq::new(j.files.len(), |i: int| j.files[i].input_path)
}

/// The given names of a job's files, in order.
pub open spec fn file_names(j: JobView) -> Seq<Seq<char>> {
    Seq::new(j.files.len(), |i: int| j.files[i].filename)
}

/// Where a run of a job's conversions stands.
pub enum RunStage {
    /// The job's temporary directory is being created.
    Preparing,
    /// File `i` waits for a conversion slot.
    AwaitingSlot(usize),
    /// File `i` is being converted.
    Converting(usize),
    /// Every file is done; the run's duration is being measured.
    Finishing,
    /// The run is over.
    Finished,
}

/// A run of a job's conversions: the job, its temporary directory, the source path and
/// the given name of each of its files, and where the run stands.
pub struct JobRun {
    pub job_id: String,
    pub dir: String,
    pub inputs: Vec<String>,
    pub names: Vec<String>,
    pub stage: RunStage,
}

/// What happened to the work that a run asked for.
pub enum JobEvent {
    /// The temporary directory exists.
    DirectoryCreated,
    /// A conversion slot was obtained.
    SlotAcquired,
    /// The file was converted to the MP3 file that the run asked for.
    Converted,
    /// The work failed with the given error.
    Failed(AppError),
    /// The run took this long.
    Elapsed { secs: u64, subsec_nanos: u32 },
}

/// The work that a run asks for next.
pub enum JobAction {
    /// Create this directory and its parents.
    CreateDirectory(String),
    /// Wait for a conversion slot.
    AcquireSlot,
    /// Convert file `index` from `input` to the MP3 file `output`.
    Convert { index: usize, input: String, output: String },
    /// Measure how long the run took.
    MeasureElapsed,
    /// Nothing: the run is over.
    Stop,
}

impl JobRun {
    /// The run's invariant: a name for each source path, and a stage that names one of
    /// the files where it names any.
    pub open spec fn wf(&self) -> bool {
        &&& self.inputs.len() == self.names.len()
        &&& match self.stage {
            RunStage::AwaitingSlot(i) => i < self.inputs.len(),
            RunStage::Converting(i) => i < self.inputs.len(),
            _ => true,
        }
    }
}

/// The stage after file `i` of `total` is done.
pub open spec fn after_file(i: usize, total: int) -> RunStage {
    if i + 1 < total {
        RunStage::AwaitingSlot((i + 1) as usize)
    } else {
        RunStage::Finishing
    }
}

/// The stage that a run in stage `stage`, with `total` files, reaches on `event`; an
/// event that does not answer the stage's work leaves the stage as it is.
pub open spec fn next_stage(stage: RunStage, event: JobEvent, total: int) -> RunStage {
    match stage {
        RunStage::Preparing => match event {
            JobEvent::DirectoryCreated => if total == 0 {
                RunStage::Finishing
            } else {
                RunStage::AwaitingSlot(0)
            },
            JobEvent::Failed(_) => RunStage::Finished,
            _ => stage,
        },
        RunStage::AwaitingSlot(i) => match event {
            JobEvent::SlotAcquired => RunStage::Converting(i),
            JobEvent::Failed(_) => RunStage::Finished,
            _ => stage,
        },
        RunStage::Converting(i) => match event {
            JobEvent::Converted => after_file(i, total),
            JobEvent::Failed(_) => after_file(i, total),
            _ => stage,
        },
        RunStage::Finishing => match event {
            JobEvent::Elapsed { .. } => RunStage::Finished,
            _ => stage,
        },
        RunStage::Finished => stage,
    }
}

/// The MP3 file that file `i` of a run is converted to: its MP3 name inside the job's
/// directory.
pub open spec fn run_output(run: JobRun, i: int) -> Seq<char> {
    join_path(run.dir@, mp3_name(run.names@[i]@))
}

/// The work that a run asks for in its stage: the directory to create, a slot, the
/// conversion of file `i` into `run_output`, the duration, or nothing.
pub open spec fn asks_for(a: JobAction, run: JobRun) -> bool {
    match run.stage {
        RunStage::Preparing => a matches JobAction::CreateDirectory(d) && d@ == run.dir@,
        RunStage::AwaitingSlot(_) => a is AcquireSlot,
        RunStage::Converting(i) => a matches JobAction::Convert { index, input, output } && index
            == i && input@ == run.inputs@[i as int]@ && output@ == run_output(run, i as int),
        RunStage::Finishing => a is MeasureElapsed,
        RunStage::Finished => a is Stop,
    }
}

/// What `event` does to the table of jobs (from `old` to `new`) for the job of `run`:
/// a failure of the directory or of a slot fails the job with the error's text; a slot
/// starts processing that file; a conversion completes the file with the output the
/// run asked for (`run_output`), or fails it; the duration completes the job; anything
/// else changes nothing.
pub open spec fn run_effect(
    old: Map<Seq<char>, JobView>,
    new: Map<Seq<char>, JobView>,
    run: JobRun,
    event: JobEvent,
) -> bool {
    let id = run.job_id@;
    let total = run.inputs.len();
    let t = new[id].updated_at;
    match run.stage {
        RunStage::Preparing => match event {
            JobEvent::Failed(e) => updated(
                old,
                new,
                id,
                with_status(old[id], JobStatusView::Failed { error: error_text(e) }, t),
            ),
            _ => new == old,
        },
        RunStage::AwaitingSlot(i) => match event {
            JobEvent::SlotAcquired => updated(
                old,
                new,
                id,
                with_status(old[id], JobStatusView::Processing { current_file: i, total }, t),
            ),
            JobEvent::Failed(e) => updated(
                old,
                new,
                id,
                with_status(old[id], JobStatusView::Failed { error: error_text(e) }, t),
            ),
            _ => new == old,
        },
        RunStage::Converting(i) => match event {
            JobEvent::Converted => updated(
                old,
                new,
                id,
                with_completed(old[id], i as int, run_output(run, i as int), t),
            ),
            JobEvent::Failed(e) => updated(
                old,
                new,
                id,
                with_failed(old[id], i as int, error_text(e), t),
            ),
            _ => new == old,
        },
        RunStage::Finishing => match event {
            JobEvent::Elapsed { secs, subsec_nanos } => updated(
                old,
                new,
                id,
                with_status(
                    old[id],
                    JobStatusView::Complete { duration_secs: secs, duration_subsec_nanos: subsec_nanos },
                    t,
                ),
            ),
            _ => new == old,
        },
        RunStage::Finished => new == old,
    }
}

/// The work that a run asks for in its stage.
pub fn pending_action(run: &JobRun) -> (r: JobAction)
    requires
        run.wf(),
    ensures
        asks_for(r, *run),
{
    match run.stage {
        RunStage::Preparing => JobAction::CreateDirectory(run.dir.clone()),
        RunStage::AwaitingSlot(_) => JobAction::AcquireSlot,
        RunStage::Converting(i) => {
            let name = mp3_name_of(run.names[i].as_str());
            let out = join_path_exec(&chars_of(run.dir.as_str()), &chars_of(name.as_str()));
            JobAction::Convert { index: i, input: run.inputs[i].clone(), output: string_of(&out) }
        },
        RunStage::Finishing => JobAction::MeasureElapsed,
        RunStage::Finished => JobAction::Stop,
    }
}

impl JobManager {
    /// Sets the state of the job `job_id`, if there is one.
    pub fn set_job_status(&mut self, job_id: &str, status: JobStatus)
        requires
            old(self).wf(),
        ensures
            final(self).wf(),
            final(self).settings() == old(self).settings(),
            updated(
                old(self).jobs(),
                final(self).jobs(),
                job_id@,
                with_status(old(self).jobs()[job_id@], status@, final(self).jobs()[job_id@].updated_at),
            ),
    {
        match table_get(&self.jobs, job_id) {
            Some(mut job) => {
                job.update_status(status);
                let ghost jv = job@;
                let _ = table_insert(&mut self.jobs, text(job_id), job);
                proof {
                    assert(table_jobs(self.jobs)[job_id@] == jv);
                    assert forall|k: Seq<char>| #[trigger]
                        table_jobs(self.jobs).dom().contains(k) implies table_jobs(self.jobs)[k].id
                        == k by {
                        assert(old(self).jobs().dom().contains(k));
                    }
                }
            },
            None => {},
        }
    }

    /// Records progress `percent` of file `index` of the job `job_id`, if there is one.
    pub fn record_progress(&mut self, job_id: &str, index: usize, percent: u32)
        requires
            old(self).wf(),
        ensures
            final(self).wf(),
            final(self).settings() == old(self).settings(),
            updated(
                old(self).jobs(),
                final(self).jobs(),
                job_id@,
                with_progress(
                    old(self).jobs()[job_id@],
                    index as int,
                    percent,
                    final(self).jobs()[job_id@].updated_at,
                ),
            ),
    {
        match table_get(&self.jobs, job_id) {
            Some(mut job) => {
                job.update_file_progress(index, percent);
                let ghost jv = job@;
                let _ = table_insert(&mut self.jobs, text(job_id), job);
                proof {
                    assert(table_jobs(self.jobs)[job_id@] == jv);
                    assert forall|k: Seq<char>| #[trigger]
                        table_jobs(self.jobs).dom().contains(k) implies table_jobs(self.jobs)[k].id
                        == k by {
                        assert(old(self).jobs().dom().contains(k));
                    }
                }
            },
            None => {},
        }
    }

    /// Records that file `index` of the job `job_id`, if there is one, was converted to
    /// `output`.
    pub fn record_completed(&mut self, job_id: &str, index: usize, output: String)
        requires
            old(self).wf(),
        ensures
            final(self).wf(),
            final(self).settings() == old(self).settings(),
            updated(
                old(self).jobs(),
                final(self).jobs(),
                job_id@,
                with_completed(
                    old(self).jobs()[job_id@],
                    index as int,
                    output@,
                    final(self).jobs()[job_id@].updated_at,
                ),
            ),
    {
        match table_get(&self.jobs, job_id) {
            Some(mut job) => {
                job.complete_file(index, output);
                let ghost jv = job@;
                let _ = table_insert(&mut self.jobs, text(job_id), job);
                proof {
                    assert(table_jobs(self.jobs)[job_id@] == jv);
                    assert forall|k: Seq<char>| #[trigger]
                        table_jobs(self.jobs).dom().contains(k) implies table_jobs(self.jobs)[k].id
                        == k by {
                        assert(old(self).jobs().dom().contains(k));
                    }
                }
            },
            None => {},
        }
    }

    /// Records that file `index` of the job `job_id`, if there is one, failed with
    /// `error`.
    pub fn record_failed(&mut self, job_id: &str, index: usize, error: String)
        requires
            old(self).wf(),
        ensures
            final(self).wf(),
            final(self).settings() == old(self).settings(),
            updated(
                old(self).jobs(),
                final(self).jobs(),
                job_id@,
                with_failed(
                    old(self).jobs()[job_id@],
                    index as int,
                    error@,
                    final(self).jobs()[job_id@].updated_at,
                ),
            ),
    {
        match table_get(&self.jobs, job_id) {
            Some(mut job) => {
                job.fail_file(index, error);
                let ghost jv = job@;
                let _ = table_insert(&mut self.jobs, text(job_id), job);
                proof {
                    assert(table_jobs(self.jobs)[job_id@] == jv);
                    assert forall|k: Seq<char>| #[trigger]
                        table_jobs(self.jobs).dom().contains(k) implies table_jobs(self.jobs)[k].id
                        == k by {
                        assert(old(self).jobs().dom().contains(k));
                    }
                }
            },
            None => {},
        }
    }
}


impl JobManager {
    /// Starts a run of the job `job_id`: the job is being processed, from its first
    /// file, and the run first asks for the job's temporary directory. `JobNotFound`
    /// with the id when there is no such job, which changes nothing.
    pub fn start_job(&mut self, job_id: &str) -> (r: Result<(JobRun, JobAction), AppError>)
        requires
            old(self).wf(),
        ensures
            final(self).wf(),
            final(self).settings() == old(self).settings(),
            match r {
                Ok((run, action)) => {
                    &&& old(self).jobs().dom().contains(job_id@)
                    &&& run.wf()
                    &&& run.job_id@ == job_id@
                    &&& run.dir@ == join_path(old(self).settings().temp_dir@, job_id@)
                    &&& texts(run.inputs@) == input_paths(old(self).jobs()[job_id@])
                    &&& texts(run.names@) == file_names(old(self).jobs()[job_id@])
                    &&& run.stage is Preparing
                    &&& asks_for(action, run)
                    &&& final(self).jobs() == old(self).jobs().insert(
                        job_id@,
                        with_status(
                            old(self).jobs()[job_id@],
                            (JobStatusView::Processing { current_file: 0, total: run.inputs.len() }),
                            final(self).jobs()[job_id@].updated_at,
                        ),
                    )
                },
                Err(e) => {
                    &&& !old(self).jobs().dom().contains(job_id@)
                    &&& e matches AppError::JobNotFound(s) && s@ == job_id@
                    &&& final(self).jobs() == old(self).jobs()
                },
            },
    {
        let job = match table_get(&self.jobs, job_id) {
            Some(j) => j,
            None => {
                return Err(AppError::JobNotFound(text(job_id)));
            },
        };
        let mut inputs: Vec<String> = Vec::new();
        let mut names: Vec<String> = Vec::new();
        let mut i: usize = 0;
        while i < job.files.len()
            invariant
                i <= job.files.len(),
                inputs.len() == i,
                names.len() == i,
                forall|a: int| 0 <= a < i ==> #[trigger] inputs@[a]@ == job.files@[a].input_path@,
                forall|a: int| 0 <= a < i ==> #[trigger] names@[a]@ == job.files@[a].filename@,
            decreases job.files.len() - i,
        {
            inputs.push(job.files[i].input_path.clone());
            names.push(job.files[i].filename.clone());
            i = i + 1;
        }
        assert(texts(inputs@) =~= input_paths(job@));
        assert(texts(names@) =~= file_names(job@));
        let total = inputs.len();
        self.set_job_status(job_id, JobStatus::Processing { current_file: 0, total });
        let run = JobRun {
            job_id: text(job_id),
            dir: self.job_temp_dir(job_id),
            inputs,
            names,
            stage: RunStage::Preparing,
        };
        let action = pending_action(&run);
        Ok((run, action))
    }

    /// Takes a run one step on `event`, the outcome of the work it asked for: records
    /// what the event means for the job (see `run_effect`), moves the run to its next
    /// stage (see `next_stage`) and returns the work it asks for there.
    pub fn advance(&mut self, run: JobRun, event: JobEvent) -> (r: (JobRun, JobAction))
        requires
            old(self).wf(),
            run.wf(),
        ensures
            final(self).wf(),
            final(self).settings() == old(self).settings(),
            r.0.wf(),
            r.0.job_id == run.job_id,
            r.0.dir == run.dir,
            r.0.inputs == run.inputs,
            r.0.names == run.names,
            r.0.stage == next_stage(run.stage, event, run.inputs.len() as int),
            asks_for(r.1, r.0),
            run_effect(old(self).jobs(), final(self).jobs(), run, event),
    {
        let total = run.inputs.len();
        let JobRun { job_id, dir, inputs, names, stage } = run;
        let next: RunStage = match stage {
            RunStage::Preparing => match event {
                JobEvent::DirectoryCreated => if total == 0 {
                    RunStage::Finishing
                } else {
                    RunStage::AwaitingSlot(0)
                },
                JobEvent::Failed(e) => {
                    self.set_job_status(job_id.as_str(), JobStatus::Failed { error: e.message() });
                    RunStage::Finished
                },
                _ => RunStage::Preparing,
            },
            RunStage::AwaitingSlot(i) => match event {
                JobEvent::SlotAcquired => {
                    self.set_job_status(
                        job_id.as_str(),
                        JobStatus::Processing { current_file: i, total },
                    );
                    RunStage::Converting(i)
                },
                JobEvent::Failed(e) => {
                    self.set_job_status(job_id.as_str(), JobStatus::Failed { error: e.message() });
                    RunStage::Finished
                },
                _ => RunStage::AwaitingSlot(i),
            },
            RunStage::Converting(i) => {
                let done = match event {
                    JobEvent::Converted => {
                        let name = mp3_name_of(names[i].as_str());
                        let output = string_of(
                            &join_path_exec(&chars_of(dir.as_str()), &chars_of(name.as_str())),
                        );
                        self.record_completed(job_id.as_str(), i, output);
                        true
                    },
                    JobEvent::Failed(e) => {
                        self.record_failed(job_id.as_str(), i, e.message());
                        true
                    },
                    _ => false,
                };
                if !done {
                    RunStage::Converting(i)
                } else if i + 1 < total {
                    RunStage::AwaitingSlot(i + 1)
                } else {
                    RunStage::Finishing
                }
            },
            RunStage::Finishing => match event {
                JobEvent::Elapsed { secs, subsec_nanos } => {
                    self.set_job_status(
                        job_id.as_str(),
                        JobStatus::Complete { duration_secs: secs, duration_subsec_nanos: subsec_nanos },
                    );
                    RunStage::Finished
                },
                _ => RunStage::Finishing,
            },
            RunStage::Finished => RunStage::Finished,
        };
        let new_run = JobRun { job_id, dir, inputs, names, stage: next };
        let action = pending_action(&new_run);
        (new_run, action)
    }
}

/// Whether `event` answers the work that a run in stage `stage` asked for.
pub open spec fn answers(stage: RunStage, event: JobEvent) -> bool {
    match stage {
        RunStage::Preparing => event is DirectoryCreated || event is Failed,
        RunStage::AwaitingSlot(_) => event is SlotAcquired || event is Failed,
        RunStage::Converting(_) => event is Converted || event is Failed,
        RunStage::Finishing => event is Elapsed,
        RunStage::Finished => false,
    }
}

/// How far a run in stage `stage`, with `total` files, is from its end.
pub open spec fn remaining_steps(stage: RunStage, total: int) -> int {
    match stage {
        RunStage::Preparing => 2 * total + 2,
        RunStage::AwaitingSlot(i) => 2 * (total - i) + 1,
        RunStage::Converting(i) => 2 * (total - i),
        RunStage::Finishing => 1,
        RunStage::Finished => 0,
    }
}

/// A run always ends: every event that answers the work a run asked for brings the run
/// strictly closer to its end, and an event that does not answer it leaves the stage as
/// it is.
pub proof fn law_run_advances(stage: RunStage, event: JobEvent, total: int)
    requires
        match stage {
            RunStage::AwaitingSlot(i) => i < total,
            RunStage::Converting(i) => i < total,
            _ => 0 <= total,
        },
        total <= usize::MAX,
    ensures
        answers(stage, event) ==> 0 <= remaining_steps(next_stage(stage, event, total), total)
            < remaining_steps(stage, total),
        !answers(stage, event) ==> next_stage(stage, event, total) == stage,
{
}

/// One file's failed conversion does not stop a run: the run goes on to the next file,
/// or to its end when that was the last file, and the job completes all the same.
pub proof fn law_file_failure_continues(i: usize, e: AppError, total: int)
    requires
        i < total <= usize::MAX,
    ensures
        next_stage(RunStage::Converting(i), JobEvent::Failed(e), total) == after_file(i, total),
        !(next_stage(RunStage::Converting(i), JobEvent::Failed(e), total) is Finished),
{
}

/// A job that is accepted has at least one file and no more than the allowed number.
pub proof fn law_accepted_job_size(
    old: Map<Seq<char>, JobView>,
    new: Map<Seq<char>, JobView>,
    max: usize,
    files: Seq<(String, String)>,
    present: Seq<bool>,
    id: String,
)
    requires
        creates_job(old, new, max, files, present, Ok(id)),
    ensures
        0 < files.len() <= max,
        all_accepted(files, present),
{
}

/// An accepted job is there to be read back under its id: it waits, with each of its
/// files waiting in the order given and nothing converted, and every other job is as it
/// was.
pub proof fn law_created_job_waits(
    old: Map<Seq<char>, JobView>,
    new: Map<Seq<char>, JobView>,
    max: usize,
    files: Seq<(String, String)>,
    present: Seq<bool>,
    id: String,
)
    requires
        creates_job(old, new, max, files, present, Ok(id)),
    ensures
        new.dom().contains(id@),
        new[id@].id == id@,
        new[id@].status is Pending,
        new[id@].files.len() == files.len(),
        forall|i: int|
            0 <= i < files.len() ==> #[trigger] new[id@].files[i] == crate::models::job::pending_file(
                files[i].0@,
                files[i].1@,
            ),
        new[id@].result_paths.len() == 0,
        new[id@].created_at == new[id@].updated_at,
        forall|k: Seq<char>| k != id@ && #[trigger] old.dom().contains(k) ==> new.dom().contains(k)
            && new[k] == old[k],
{
}

/// A job that was deleted is not found afterwards, and the other jobs stay.
pub proof fn law_deleted_job_is_gone(old: Map<Seq<char>, JobView>, id: Seq<char>)
    ensures
        !old.remove(id).dom().contains(id),
        forall|k: Seq<char>| k != id && #[trigger] old.dom().contains(k) ==> old.remove(id).dom().contains(
            k,
        ) && old.remove(id)[k] == old[k],
{
}

/// The MP3 file made from a file is named with `.mp3` at the end, and keeps the rest
/// of the given name: all of it but a final `.flac` or `.FLAC`.
pub proof fn law_mp3_name(filename: Seq<char>)
    ensures
        crate::text::ends_with(mp3_name(filename), ".mp3"@),
        mp3_name(filename).len() >= 4,
        mp3_name(filename).take(mp3_name(filename).len() - 4) == (if crate::text::ends_with(
            filename,
            ".flac"@,
        ) || crate::text::ends_with(filename, ".FLAC"@) {
            filename.take(filename.len() - 5)
        } else {
            filename
        }),
{
    reveal_strlit(".mp3");
    reveal_strlit(".flac");
    reveal_strlit(".FLAC");
    let stem = if crate::text::ends_with(filename, ".flac"@) || crate::text::ends_with(
        filename,
        ".FLAC"@,
    ) {
        filename.take(filename.len() - 5)
    } else {
        filename
    };
    assert(mp3_name(filename) == stem + ".mp3"@);
    assert((stem + ".mp3"@).skip(stem.len() as int) =~= ".mp3"@);
    assert((stem + ".mp3"@).take(stem.len() as int) =~= stem);
}

/// The MP3 file that a run makes of a file is named after the name the file was given,
/// whatever its source path: its file name is the given name without a final `.flac`
/// (or `.FLAC`), followed by `.mp3`, inside the job's directory.
pub proof fn law_output_named_after_given_name(run: JobRun, i: int)
    requires
        0 <= i < run.names@.len(),
        free_of(run.names@[i]@, '/'),
    ensures
        file_name(run_output(run, i)) == Some(mp3_name(run.names@[i]@)),
        crate::text::ends_with(mp3_name(run.names@[i]@), ".mp3"@),
{
    let name = run.names@[i]@;
    let m = mp3_name(name);
    law_mp3_name(name);
    reveal_strlit(".mp3");
    let stem = m.take(m.len() - 4);
    assert(m =~= stem + ".mp3"@) by {
        assert(m.skip(m.len() - 4) == ".mp3"@);
    }
    assert(free_of(m, '/')) by {
        assert forall|j: int| 0 <= j < m.len() implies #[trigger] m[j] != '/' by {
            if j < m.len() - 4 {
                if crate::text::ends_with(name, ".flac"@) || crate::text::ends_with(name, ".FLAC"@) {
                    assert(m[j] == name.take(name.len() - 5)[j]);
                    assert(name[j] != '/');
                } else {
                    assert(m[j] == name[j]);
                }
            } else {
                assert(m[j] == ".mp3"@[j - (m.len() - 4)]);
            }
        }
    }
    assert(m.len() >= 4);
    assert(is_real(m)) by {
        if m == seq!['.'] {
            assert(m.len() == 1);
        }
    }
    assert(m != seq!['.', '.']) by {
        if m == seq!['.', '.'] {
            assert(m.len() == 2);
        }
    }
    lemma_file_name_of_join(run.dir@, m);
}

/// Cleaning up at an instant keeps every job that had not yet lived out the timeout
/// then, unchanged, and removes every job that had.
pub proof fn law_cleanup_keeps_recent_jobs(
    jobs: Map<Seq<char>, JobView>,
    timeout_secs: u64,
    now: i64,
    k: Seq<char>,
)
    requires
        jobs.dom().contains(k),
    ensures
        now - jobs[k].created_at <= timeout_secs * 1_000_000_000 ==> unexpired(
            jobs,
            timeout_secs,
            now,
        ).dom().contains(k) && unexpired(jobs, timeout_secs, now)[k] == jobs[k],
        now - jobs[k].created_at > timeout_secs * 1_000_000_000 ==> !unexpired(
            jobs,
            timeout_secs,
            now,
        ).dom().contains(k) && expired_ids(jobs, timeout_secs, now).contains(k),
{
}

} // verus!

//! The job status API: a job as the API shows it, one job and all jobs.
use vstd::prelude::*;
use crate::clock::{rfc3339, rfc3339_text};
use crate::error::AppError;
use crate::models::job::{file_views, Job, JobView};
use crate::models::message::{JobListResponse, JobResponse};
use crate::services::job_manager::JobManager;

verus! {

/// Whether `r` shows the job `j`: its id, state and files, and its times as RFC 3339
/// texts.
pub open spec fn shows(r: JobResponse, j: JobView) -> bool {
    &&& r.id@ == j.id
    &&& r.status@ == j.status
    &&& file_views(r.files@) == j.files
    &&& r.created_at@ == rfc3339(j.created_at)
    &&& r.updated_at@ == rfc3339(j.updated_at)
}

/// A job as the API shows it.
pub fn job_response(job: Job) -> (r: JobResponse)
    ensures
        shows(r, job@),
{
    let created_at = rfc3339_text(job.created_at);
    let updated_at = rfc3339_text(job.updated_at);
    JobResponse { id: job.id, status: job.status, files: job.files, created_at, updated_at }
}

/// Jobs as the API shows them, in the given order.
pub fn job_list_response(jobs: Vec<Job>) -> (r: JobListResponse)
    ensures
        r.jobs@.len() == jobs@.len(),
        forall|i: int| 0 <= i < jobs@.len() ==> shows(#[trigger] r.jobs@[i], jobs@[i]@),
{
    let ghost orig = jobs@;
    let mut rest = jobs;
    let mut out: Vec<JobResponse> = Vec::new();
    let n = rest.len();
    let mut i: usize = 0;
    while i < n
        invariant
            n == orig.len(),
            i <= n,
            rest@ == orig.skip(i as int),
            out@.len() == i,
            forall|a: int| 0 <= a < i ==> shows(#[trigger] out@[a], orig[a]@),
        decreases n - i,
    {
        let job = rest.remove(0);
        assert(job == orig[i as int]);
        out.push(job_response(job));
        assert(rest@ =~= orig.skip(i + 1));
        i = i + 1;
    }
    JobListResponse { jobs: out }
}

/// The job `job_id` as the API shows it; `JobNotFound` with the id when there is none.
pub fn get_job(manager: &JobManager, job_id: &str) -> (r: Result<JobResponse, AppError>)
    ensures
        match r {
            Ok(resp) => manager.jobs().dom().contains(job_id@) && shows(
                resp,
                manager.jobs()[job_id@],
            ),
            Err(e) => !manager.jobs().dom().contains(job_id@) && (e matches AppError::JobNotFound(
                s,
            ) && s@ == job_id@),
        },
{
    match manager.get_job(job_id) {
        Ok(job) => Ok(job_response(job)),
        Err(e) => Err(e),
    }
}

/// All jobs as the API shows them, each once, in no particular order.
pub fn list_jobs(manager: &JobManager) -> (r: JobListResponse)
    requires
        manager.wf(),
    ensures
        forall|i: int|
            0 <= i < r.jobs@.len() ==> manager.jobs().dom().contains(#[trigger] r.jobs@[i].id@)
                && shows(r.jobs@[i], manager.jobs()[r.jobs@[i].id@]),
        forall|i: int, j: int|
            0 <= i < j < r.jobs@.len() ==> #[trigger] r.jobs@[i].id@ != #[trigger] r.jobs@[j].id@,
        forall|k: Seq<char>|
            #[trigger] manager.jobs().dom().contains(k) ==> exists|i: int|
                0 <= i < r.jobs@.len() && r.jobs@[i].id@ == k,
{
    let jobs = manager.list_jobs();
    let r = job_list_response(jobs);
    proof {
        assert forall|i: int| 0 <= i < r.jobs@.len() implies r.jobs@[i].id@ == jobs@[i]@.id by {
            assert(shows(r.jobs@[i], jobs@[i]@));
        }
        assert forall|k: Seq<char>| #[trigger]
            manager.jobs().dom().contains(k) implies exists|i: int|
            0 <= i < r.jobs@.len() && r.jobs@[i].id@ == k by {
            let i = choose|i: int| 0 <= i < jobs@.len() && jobs@[i]@.id == k;
            assert(shows(r.jobs@[i], jobs@[i]@));
        }
        assert forall|i: int, j: int| 0 <= i < j < r.jobs@.len() implies #[trigger] r.jobs@[i].id@
            != #[trigger] r.jobs@[j].id@ by {
            assert(shows(r.jobs@[i], jobs@[i]@));
            assert(shows(r.jobs@[j], jobs@[j]@));
        }
    }
    r
}

} // verus!

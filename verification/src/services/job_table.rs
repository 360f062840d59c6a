//! The table of jobs: a `dashmap::DashMap` from job id to job, used through the few
//! operations below, each of which takes the table by `&mut` when it changes it.
use vstd::prelude::*;
use dashmap::DashMap;
use crate::models::job::{Job, JobView};

verus! {

#[verifier::external_type_specification]
#[verifier::external_body]
#[verifier::reject_recursive_types(K)]
#[verifier::reject_recursive_types(V)]
#[verifier::reject_recursive_types(S)]
pub struct ExDashMap<K, V, S>(DashMap<K, V, S>);

/// A table of jobs keyed by job id.
pub type JobTable = DashMap<String, Job>;

/// What a job table holds: for each key (a job id), the job stored under it.
pub uninterp spec fn table_jobs(m: JobTable) -> Map<Seq<char>, JobView>;

/// `DashMap::new`: an empty table.
#[verifier::external_body]
pub fn table_new() -> (r: JobTable)
    ensures
        table_jobs(r).dom() == Set::<Seq<char>>::empty(),
{
    DashMap::new()
}

/// `DashMap::insert`: stores `job` under `key`, replacing and returning what was
/// stored under it before.
#[verifier::external_body]
pub fn table_insert(m: &mut JobTable, key: String, job: Job) -> (r: Option<Job>)
    ensures
        table_jobs(*final(m)) == table_jobs(*old(m)).insert(key@, job@),
        match r {
            Some(o) => table_jobs(*old(m)).dom().contains(key@) && o@ == table_jobs(
                *old(m),
            )[key@],
            None => !table_jobs(*old(m)).dom().contains(key@),
        },
{
    m.insert(key, job)
}

/// `DashMap::get`, with a copy of the job stored under `key` made by `Job::duplicate`.
#[verifier::external_body]
pub fn table_get(m: &JobTable, key: &str) -> (r: Option<Job>)
    ensures
        match r {
            Some(j) => table_jobs(*m).dom().contains(key@) && j@ == table_jobs(*m)[key@],
            None => !table_jobs(*m).dom().contains(key@),
        },
{
    m.get(key).map(|entry| entry.value().duplicate())
}

/// `DashMap::remove`: takes out the job stored under `key`.
#[verifier::external_body]
pub fn table_remove(m: &mut JobTable, key: &str) -> (r: Option<Job>)
    ensures
        table_jobs(*final(m)) == table_jobs(*old(m)).remove(key@),
        match r {
            Some(j) => table_jobs(*old(m)).dom().contains(key@) && j@ == table_jobs(
                *old(m),
            )[key@],
            None => !table_jobs(*old(m)).dom().contains(key@),
        },
{
    m.remove(key).map(|(_, job)| job)
}

/// `DashMap::iter`, each entry handed out as its key and a copy of its job made by
/// `Job::duplicate`: every entry once, in an order that the table's hashing decides.
#[verifier::external_body]
pub fn table_entries(m: &JobTable) -> (r: Vec<(String, Job)>)
    ensures
        forall|i: int|
            0 <= i < r@.len() ==> table_jobs(*m).dom().contains(#[trigger] r@[i].0@) && r@[i].1@
                == table_jobs(*m)[r@[i].0@],
        forall|i: int, j: int| 0 <= i < j < r@.len() ==> #[trigger] r@[i].0@ != #[trigger] r@[j].0@,
        forall|k: Seq<char>|
            #[trigger] table_jobs(*m).dom().contains(k) ==> exists|i: int|
                0 <= i < r@.len() && r@[i].0@ == k,
{
    m.iter().map(|entry| (entry.key().clone(), entry.value().duplicate())).collect()
}

} // verus!

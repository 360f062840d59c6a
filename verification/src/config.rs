//! The server's settings, and how they are read from the environment's values.
use vstd::prelude::*;
use crate::text::{parse_u64, parse_unsigned};

verus! {

/// The settings of the converter.
#[derive(Debug, Clone)]
pub struct Config {
    /// Server bind address.
    pub bind_address: String,
    /// Maximum upload size in bytes.
    pub max_upload_size: usize,
    /// Maximum concurrent jobs allowed.
    pub max_concurrent_jobs: usize,
    /// Maximum concurrent FFmpeg conversions.
    pub max_concurrent_conversions: usize,
    /// How long a job lives, in seconds.
    pub job_timeout_secs: u64,
    /// Maximum files per job.
    pub max_files_per_job: usize,
    /// Temporary directory for conversions.
    pub temp_dir: String,
    /// Root of the music library that can be browsed.
    pub music_library_root: String,
}

/// The values of the environment variables that settings are read from, where set:
/// `BIND_ADDRESS`, `MAX_UPLOAD_SIZE`, `MAX_CONCURRENT_JOBS`,
/// `MAX_CONCURRENT_CONVERSIONS`, `JOB_TIMEOUT`, `MAX_FILES_PER_JOB`, `TEMP_DIR` and
/// `MUSIC_LIBRARY_ROOT`.
#[derive(Debug, Clone, Default)]
pub struct ConfigEnv {
    pub bind_address: Option<String>,
    pub max_upload_size: Option<String>,
    pub max_concurrent_jobs: Option<String>,
    pub max_concurrent_conversions: Option<String>,
    pub job_timeout: Option<String>,
    pub max_files_per_job: Option<String>,
    pub temp_dir: Option<String>,
    pub music_library_root: Option<String>,
}

/// A numeric setting: the variable's value read as a number no larger than `max`,
/// or `default` when the variable is unset or does not read as such a number.
pub open spec fn number_setting(v: Option<String>, max: nat, default: nat) -> nat {
    match v {
        Some(s) => match parse_unsigned(s@, max) {
            Some(n) => n,
            None => default,
        },
        None => default,
    }
}

/// A text setting: the variable's value, or `default` when it is unset.
pub open spec fn text_setting(v: Option<String>, default: Seq<char>) -> Seq<char> {
    match v {
        Some(s) => s@,
        None => default,
    }
}

/// Default maximum upload size: 500 MiB.
pub const DEFAULT_MAX_UPLOAD_SIZE: usize = 524288000;

/// Default maximum number of concurrent jobs.
pub const DEFAULT_MAX_CONCURRENT_JOBS: usize = 10;

/// Default maximum number of concurrent conversions.
pub const DEFAULT_MAX_CONCURRENT_CONVERSIONS: usize = 4;

/// Default job lifetime in seconds: one hour.
pub const DEFAULT_JOB_TIMEOUT_SECS: u64 = 3600;

/// Default maximum number of files per job.
pub const DEFAULT_MAX_FILES_PER_JOB: usize = 50;

fn usize_setting(v: &Option<String>, default: usize) -> (r: usize)
    ensures
        r as nat == number_setting(*v, usize::MAX as nat, default as nat),
{
    match v {
        Some(s) => match parse_u64(s.as_str()) {
            Some(n) => {
                if n <= usize::MAX as u64 {
                    n as usize
                } else {
                    default
                }
            },
            None => default,
        },
        None => default,
    }
}

fn u64_setting(v: &Option<String>, default: u64) -> (r: u64)
    ensures
        r as nat == number_setting(*v, u64::MAX as nat, default as nat),
{
    match v {
        Some(s) => match parse_u64(s.as_str()) {
            Some(n) => n,
            None => default,
        },
        None => default,
    }
}

fn text_or(v: &Option<String>, default: &str) -> (r: String)
    ensures
        r@ == text_setting(*v, default@),
{
    match v {
        Some(s) => s.clone(),
        None => default.to_owned(),
    }
}

/// Whether `c` holds the settings that the environment values `env` give.
pub open spec fn configured_from(c: Config, env: ConfigEnv) -> bool {
    &&& c.bind_address@ == text_setting(env.bind_address, "0.0.0.0:3000"@)
    &&& c.max_upload_size as nat == number_setting(
        env.max_upload_size,
        usize::MAX as nat,
        DEFAULT_MAX_UPLOAD_SIZE as nat,
    )
    &&& c.max_concurrent_jobs as nat == number_setting(
        env.max_concurrent_jobs,
        usize::MAX as nat,
        DEFAULT_MAX_CONCURRENT_JOBS as nat,
    )
    &&& c.max_concurrent_conversions as nat == number_setting(
        env.max_concurrent_conversions,
        usize::MAX as nat,
        DEFAULT_MAX_CONCURRENT_CONVERSIONS as nat,
    )
    &&& c.job_timeout_secs as nat == number_setting(
        env.job_timeout,
        u64::MAX as nat,
        DEFAULT_JOB_TIMEOUT_SECS as nat,
    )
    &&& c.max_files_per_job as nat == number_setting(
        env.max_files_per_job,
        usize::MAX as nat,
        DEFAULT_MAX_FILES_PER_JOB as nat,
    )
    &&& c.temp_dir@ == text_setting(env.temp_dir, "/tmp/narayan"@)
    &&& c.music_library_root@ == text_setting(
        env.music_library_root,
        "/mnt/storage/share/media/music"@,
    )
}

impl Config {
    /// The settings that the environment values `env` give: each variable that is set
    /// (and, for a number, reads as one) overrides its default. The server reads its
    /// environment and hands the values in; an empty `ConfigEnv` gives the built-in
    /// defaults (see `law_unset_environment_gives_defaults`).
    pub fn new(env: &ConfigEnv) -> (r: Config)
        ensures
            configured_from(r, *env),
    {
        Config {
            bind_address: text_or(&env.bind_address, "0.0.0.0:3000"),
            max_upload_size: usize_setting(&env.max_upload_size, DEFAULT_MAX_UPLOAD_SIZE),
            max_concurrent_jobs: usize_setting(
                &env.max_concurrent_jobs,
                DEFAULT_MAX_CONCURRENT_JOBS,
            ),
            max_concurrent_conversions: usize_setting(
                &env.max_concurrent_conversions,
                DEFAULT_MAX_CONCURRENT_CONVERSIONS,
            ),
            job_timeout_secs: u64_setting(&env.job_timeout, DEFAULT_JOB_TIMEOUT_SECS),
            max_files_per_job: usize_setting(&env.max_files_per_job, DEFAULT_MAX_FILES_PER_JOB),
            temp_dir: text_or(&env.temp_dir, "/tmp/narayan"),
            music_library_root: text_or(&env.music_library_root, "/mnt/storage/share/media/music"),
        }
    }
}

/// The settings of an environment where none of the variables is set.
pub open spec fn default_config(c: Config) -> bool {
    &&& c.bind_address@ == "0.0.0.0:3000"@
    &&& c.max_upload_size == DEFAULT_MAX_UPLOAD_SIZE
    &&& c.max_concurrent_jobs == DEFAULT_MAX_CONCURRENT_JOBS
    &&& c.max_concurrent_conversions == DEFAULT_MAX_CONCURRENT_CONVERSIONS
    &&& c.job_timeout_secs == DEFAULT_JOB_TIMEOUT_SECS
    &&& c.max_files_per_job == DEFAULT_MAX_FILES_PER_JOB
    &&& c.temp_dir@ == "/tmp/narayan"@
    &&& c.music_library_root@ == "/mnt/storage/share/media/music"@
}

/// With none of the variables set, the settings are the built-in defaults.
pub proof fn law_unset_environment_gives_defaults(c: Config, env: ConfigEnv)
    requires
        env.bind_address is None,
        env.max_upload_size is None,
        env.max_concurrent_jobs is None,
        env.max_concurrent_conversions is None,
        env.job_timeout is None,
        env.max_files_per_job is None,
        env.temp_dir is None,
        env.music_library_root is None,
        configured_from(c, env),
    ensures
        default_config(c),
{
}

} // verus!

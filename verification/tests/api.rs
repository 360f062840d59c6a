use narayan_web::config::{Config, ConfigEnv};
use narayan_web::error::AppError;
use narayan_web::handlers::download::{
    attachment_disposition, batch_archive_name, download_missing, download_name, download_source,
};
use narayan_web::handlers::status::{get_job, job_list_response, job_response, list_jobs};
use narayan_web::handlers::upload::{create_conversion, upload_filename};
use narayan_web::handlers::websocket::progress_message;
use narayan_web::models::job::Job;
use narayan_web::models::message::WsMessage;
use narayan_web::services::file_manager::FileManager;
use narayan_web::services::job_manager::JobManager;

#[test]
fn uploads_must_be_named_flac() {
    assert_eq!(upload_filename(Some("Song.FLAC".to_string())).unwrap(), "Song.FLAC");
    assert!(matches!(
        upload_filename(Some("a.mp3".to_string())),
        Err(AppError::InvalidFileType)
    ));
    assert!(matches!(upload_filename(None), Err(AppError::InvalidFileType)));
}

#[test]
fn a_conversion_answers_with_the_job_and_its_size() {
    let mut manager = JobManager::new(Config::new(&ConfigEnv::default()));
    let files = vec![
        ("/t/1.flac".to_string(), "a.flac".to_string()),
        ("/t/2.flac".to_string(), "b.flac".to_string()),
    ];
    let resp = create_conversion(&mut manager, files, &vec![true, true]).unwrap();
    assert_eq!(resp.file_count, 2);
    assert!(manager.get_job(&resp.job_id).is_ok());
    assert!(matches!(
        create_conversion(&mut manager, vec![], &vec![]),
        Err(AppError::NoFilesProvided)
    ));
}

#[test]
fn a_download_sends_the_first_converted_file() {
    let mut job = Job::new_at("j".to_string(), vec![], 0);
    match download_source("j", &job) {
        Err(AppError::JobNotFound(m)) => assert_eq!(m, "No completed files in job j"),
        other => panic!("unexpected {:?}", other),
    }
    match batch_archive_name("j", &job) {
        Err(AppError::JobNotFound(m)) => assert_eq!(m, "No completed files in job j"),
        other => panic!("unexpected {:?}", other),
    }
    job.complete_file_at(0, "/t/j/a.mp3".to_string(), 1);
    job.complete_file_at(1, "/t/j/b.mp3".to_string(), 2);
    assert_eq!(download_source("j", &job).unwrap(), "/t/j/a.mp3");
    assert_eq!(batch_archive_name("j", &job).unwrap(), "j.zip");
    assert_eq!(download_name("/t/j/a.mp3"), "a.mp3");
    assert_eq!(download_name("/"), "download.mp3");
    assert_eq!(attachment_disposition("a.mp3"), "attachment; filename=\"a.mp3\"");
    assert_eq!(download_missing().message(), "IO error: File not found");
    match download_missing() {
        AppError::Io(e) => assert!(matches!(e.kind, narayan_web::error::IoErrorKind::NotFound)),
        other => panic!("unexpected {:?}", other),
    }
}

#[test]
fn a_job_response_shows_rfc3339_times() {
    let job = Job::new_at("j".to_string(), vec![("/a.flac".to_string(), "a.flac".to_string())], 0);
    let r = job_response(job);
    assert_eq!(r.id, "j");
    assert_eq!(r.created_at, "1970-01-01T00:00:00+00:00");
    assert_eq!(r.updated_at, "1970-01-01T00:00:00+00:00");
    assert_eq!(r.files.len(), 1);
    let list = job_list_response(vec![
        Job::new_at("x".to_string(), vec![], 1_500_000_000_000_000_000),
    ]);
    assert_eq!(list.jobs.len(), 1);
    assert_eq!(list.jobs[0].created_at, "2017-07-14T02:40:00+00:00");
}

#[test]
fn the_status_api_reads_the_manager() {
    let mut manager = JobManager::new(Config::new(&ConfigEnv::default()));
    let id = manager
        .create_job(vec![("/a.flac".to_string(), "a.flac".to_string())], &vec![true])
        .unwrap();
    assert_eq!(get_job(&manager, &id).unwrap().id, id);
    assert!(matches!(get_job(&manager, "nope"), Err(AppError::JobNotFound(_))));
    assert_eq!(list_jobs(&manager).jobs.len(), 1);
}

#[test]
fn progress_messages_number_files_from_one() {
    match progress_message("j".to_string(), 0, 100) {
        WsMessage::Progress { job_id, file, percent } => {
            assert_eq!(job_id, "j");
            assert_eq!(file, "File 1");
            assert_eq!(percent, 100);
        }
        other => panic!("unexpected {:?}", other),
    }
}

#[test]
fn an_archive_takes_the_files_that_exist() {
    let files = vec!["/t/a.mp3".to_string(), "/t/b.mp3".to_string(), "/t/c.mp3".to_string()];
    assert_eq!(
        FileManager::existing_files(files.clone(), &vec![true, false, true]).unwrap(),
        vec!["/t/a.mp3".to_string(), "/t/c.mp3".to_string()]
    );
    match FileManager::existing_files(files, &vec![false, false, false]) {
        Err(AppError::ZipError(m)) => assert_eq!(m, "No files available for ZIP creation"),
        other => panic!("unexpected {:?}", other),
    }
    assert_eq!(FileManager::zip_entry_name("/t/a.mp3").unwrap(), "a.mp3");
    match FileManager::zip_entry_name("/") {
        Err(AppError::ZipError(m)) => assert_eq!(m, "Invalid output filename for path: /"),
        other => panic!("unexpected {:?}", other),
    }
}

#[test]
fn settings_come_from_the_environment_or_the_defaults() {
    let c = Config::new(&ConfigEnv::default());
    assert_eq!(c.bind_address, "0.0.0.0:3000");
    assert_eq!(c.max_upload_size, 524288000);
    assert_eq!(c.max_concurrent_jobs, 10);
    assert_eq!(c.max_concurrent_conversions, 4);
    assert_eq!(c.job_timeout_secs, 3600);
    assert_eq!(c.max_files_per_job, 50);
    assert_eq!(c.temp_dir, "/tmp/narayan");
    assert_eq!(c.music_library_root, "/mnt/storage/share/media/music");
    let env = ConfigEnv {
        max_files_per_job: Some("7".to_string()),
        job_timeout: Some("not a number".to_string()),
        max_upload_size: Some("+123".to_string()),
        temp_dir: Some("/var/tmp/x".to_string()),
        ..ConfigEnv::default()
    };
    let c = Config::new(&env);
    for bad in ["four", "-1", " 4", ""] {
        let env = ConfigEnv {
            max_concurrent_conversions: Some(bad.to_string()),
            ..ConfigEnv::default()
        };
        assert_eq!(Config::new(&env).max_concurrent_conversions, 4);
    }
    let env8 = ConfigEnv {
        max_concurrent_conversions: Some("8".to_string()),
        bind_address: Some("127.0.0.1:8080".to_string()),
        ..ConfigEnv::default()
    };
    let c8 = Config::new(&env8);
    assert_eq!(c8.max_concurrent_conversions, 8);
    assert_eq!(c8.bind_address, "127.0.0.1:8080");
    assert_eq!(c.max_files_per_job, 7);
    assert_eq!(c.job_timeout_secs, 3600);
    assert_eq!(c.max_upload_size, 123);
    assert_eq!(c.temp_dir, "/var/tmp/x");
}

#[test]
fn errors_have_texts_and_statuses() {
    assert_eq!(AppError::TooManyFiles(50).message(), "Too many files in job (max: 50)");
    assert_eq!(AppError::TooManyFiles(50).status_code(), 400);
    assert_eq!(AppError::FileTooLarge.status_code(), 413);
    assert_eq!(AppError::JobNotFound("x".to_string()).status_code(), 404);
    assert_eq!(AppError::JobNotFound("x".to_string()).message(), "Job not found: x");
    assert_eq!(AppError::InvalidPath("p".to_string()).status_code(), 400);
    assert_eq!(AppError::Internal("i".to_string()).status_code(), 500);
    assert_eq!(AppError::FFmpegNotFound.message(), "FFmpeg not found");
    assert_eq!(
        AppError::FFmpegNotFound.response_message(),
        "FFmpeg is not installed on the server"
    );
    assert_eq!(AppError::NoFilesProvided.response_message(), "No files provided");
}

#[test]
fn a_job_with_an_endless_timeout_never_expires() {
    let job = Job::new_at("j".to_string(), vec![], 0);
    assert!(!job.is_expired(u64::MAX));
    assert!(job.is_expired(0));
}

#[test]
fn expiry_only_grows_with_time() {
    let job = Job::new_at("j".to_string(), vec![], 1_000_000_000);
    assert!(!job.is_expired_at(0, 1_000_000_000));
    assert!(!job.is_expired_at(0, 0));
    assert!(!job.is_expired_at(2, 3_000_000_000));
    assert!(job.is_expired_at(2, 3_000_000_001));
    assert!(job.is_expired_at(2, i64::MAX));
    let older = Job::new_at("o".to_string(), vec![], 0);
    assert!(older.is_expired_at(2, 3_000_000_001));
}

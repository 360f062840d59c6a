use narayan_web::config::{Config, ConfigEnv};
use narayan_web::error::{AppError, IoError, IoErrorKind};
use narayan_web::models::job::{FileStatus, JobStatus};
use narayan_web::services::job_manager::{mp3_name_of, JobAction, JobEvent, JobManager, RunStage};

fn flac_files(names: &[&str]) -> Vec<(String, String)> {
    names
        .iter()
        .map(|n| (format!("/music/{}", n), n.to_string()))
        .collect()
}

#[test]
fn test_create_job_empty_files() {
    let config = Config::new(&ConfigEnv::default());
    let mut manager = JobManager::new(config);
    let result = manager.create_job(vec![], &vec![]);
    assert!(matches!(result, Err(AppError::NoFilesProvided)));
}

#[test]
fn test_create_job_too_many_files() {
    let mut config = Config::new(&ConfigEnv::default());
    config.max_files_per_job = 2;
    let mut manager = JobManager::new(config);

    let files = vec![
        ("file1.flac".to_string(), "file1.flac".to_string()),
        ("file2.flac".to_string(), "file2.flac".to_string()),
        ("file3.flac".to_string(), "file3.flac".to_string()),
    ];

    let result = manager.create_job(files, &vec![false, false, false]);
    assert!(matches!(result, Err(AppError::TooManyFiles(2))));
}

#[test]
fn a_missing_file_is_refused_before_a_wrong_type() {
    let mut manager = JobManager::new(Config::new(&ConfigEnv::default()));
    let files = vec![
        ("/music/a.flac".to_string(), "a.flac".to_string()),
        ("/music/b.mp3".to_string(), "b.mp3".to_string()),
        ("/music/c.flac".to_string(), "c.flac".to_string()),
    ];
    match manager.create_job(files.clone(), &vec![true, true, false]) {
        Err(AppError::InvalidFileType) => {}
        other => panic!("unexpected {:?}", other),
    }
    match manager.create_job(files, &vec![true, false, true]) {
        Err(AppError::Io(e)) => {
            assert!(matches!(e.kind, IoErrorKind::NotFound));
            assert_eq!(e.message, "File not found: /music/b.mp3");
        }
        other => panic!("unexpected {:?}", other),
    }
    assert!(manager.list_jobs().is_empty());
}

#[test]
fn the_allowed_number_of_files_is_accepted() {
    let mut config = Config::new(&ConfigEnv::default());
    config.max_files_per_job = 2;
    let mut manager = JobManager::new(config);
    let id = manager
        .create_job(flac_files(&["a.flac", "b.FLAC"]), &vec![true, true])
        .unwrap();
    assert_eq!(id.len(), 36);
    let digits: Vec<char> = id.chars().collect();
    assert_eq!(digits[14], '4');
    assert!(matches!(digits[19], '8' | '9' | 'a' | 'b'));
    assert_eq!(manager.list_jobs().len(), 1);
}

#[test]
fn a_created_job_waits_with_its_files() {
    let mut manager = JobManager::new(Config::new(&ConfigEnv::default()));
    let id = manager
        .create_job(flac_files(&["one.flac", "two.flac"]), &vec![true, true])
        .unwrap();
    let job = manager.get_job(&id).unwrap();
    assert_eq!(job.id, id);
    assert!(matches!(job.status, JobStatus::Pending));
    assert_eq!(job.files.len(), 2);
    assert_eq!(job.files[0].input_path, "/music/one.flac");
    assert_eq!(job.files[1].filename, "two.flac");
    assert!(matches!(job.files[1].status, FileStatus::Pending));
    assert_eq!(job.files[1].progress, 0);
    assert!(job.files[0].output_path.is_none());
    assert!(job.result_paths.is_empty());
    assert_eq!(job.created_at, job.updated_at);
}

#[test]
fn an_unknown_job_is_not_found() {
    let manager = JobManager::new(Config::new(&ConfigEnv::default()));
    match manager.get_job("nope") {
        Err(AppError::JobNotFound(id)) => assert_eq!(id, "nope"),
        other => panic!("unexpected {:?}", other),
    }
}

#[test]
fn a_deleted_job_is_gone() {
    let mut manager = JobManager::new(Config::new(&ConfigEnv::default()));
    let a = manager.create_job(flac_files(&["a.flac"]), &vec![true]).unwrap();
    let b = manager.create_job(flac_files(&["b.flac"]), &vec![true]).unwrap();
    assert!(manager.delete_job(&a).is_ok());
    assert!(matches!(manager.get_job(&a), Err(AppError::JobNotFound(_))));
    assert!(manager.get_job(&b).is_ok());
    match manager.delete_job(&a) {
        Err(AppError::JobNotFound(id)) => assert_eq!(id, a),
        other => panic!("unexpected {:?}", other),
    }
}

#[test]
fn every_job_is_listed_once() {
    let mut manager = JobManager::new(Config::new(&ConfigEnv::default()));
    let a = manager.create_job(flac_files(&["a.flac"]), &vec![true]).unwrap();
    let b = manager.create_job(flac_files(&["b.flac"]), &vec![true]).unwrap();
    let mut ids: Vec<String> = manager.list_jobs().into_iter().map(|j| j.id).collect();
    ids.sort();
    let mut expected = vec![a, b];
    expected.sort();
    assert_eq!(ids, expected);
}

#[test]
fn expired_jobs_are_cleaned_up() {
    let mut config = Config::new(&ConfigEnv::default());
    config.job_timeout_secs = 10;
    let mut manager = JobManager::new(config);
    let id = manager.create_job(flac_files(&["a.flac"]), &vec![true]).unwrap();
    let created = manager.get_job(&id).unwrap().created_at;
    let removed = manager.cleanup_expired_jobs_at(created + 10_000_000_000);
    assert!(removed.is_empty());
    assert!(manager.get_job(&id).is_ok());
    let removed = manager.cleanup_expired_jobs_at(created + 10_000_000_001);
    assert_eq!(removed, vec![id.clone()]);
    assert!(manager.get_job(&id).is_err());
    assert!(manager.cleanup_expired_jobs().is_empty());
}

#[test]
fn the_temp_dir_of_a_job_is_inside_the_temp_dir() {
    let manager = JobManager::new(Config::new(&ConfigEnv::default()));
    assert_eq!(manager.job_temp_dir("abc"), "/tmp/narayan/abc");
    assert_eq!(manager.temp_dir(), "/tmp/narayan");
    assert_eq!(manager.music_library_root(), "/mnt/storage/share/media/music");
}

#[test]
fn mp3_names_drop_a_flac_extension() {
    assert_eq!(mp3_name_of("a.flac"), "a.mp3");
    assert_eq!(mp3_name_of("a.FLAC"), "a.mp3");
    assert_eq!(mp3_name_of("a.Flac"), "a.Flac.mp3");
    assert_eq!(mp3_name_of("a.wav"), "a.wav.mp3");
}

#[test]
fn a_run_converts_each_file_and_completes_the_job() {
    let mut manager = JobManager::new(Config::new(&ConfigEnv::default()));
    let id = manager
        .create_job(flac_files(&["a.flac", "b.FLAC"]), &vec![true, true])
        .unwrap();
    let (run, action) = manager.start_job(&id).unwrap();
    match action {
        JobAction::CreateDirectory(d) => assert_eq!(d, format!("/tmp/narayan/{}", id)),
        _ => panic!("expected the directory first"),
    }
    assert!(matches!(
        manager.get_job(&id).unwrap().status,
        JobStatus::Processing { current_file: 0, total: 2 }
    ));
    let (run, action) = manager.advance(run, JobEvent::DirectoryCreated);
    assert!(matches!(action, JobAction::AcquireSlot));
    let (run, action) = manager.advance(run, JobEvent::SlotAcquired);
    let out0 = match action {
        JobAction::Convert { index, input, output } => {
            assert_eq!(index, 0);
            assert_eq!(input, "/music/a.flac");
            assert_eq!(output, format!("/tmp/narayan/{}/a.mp3", id));
            output
        }
        _ => panic!("expected a conversion"),
    };
    let (run, action) = manager.advance(run, JobEvent::Converted);
    assert!(matches!(action, JobAction::AcquireSlot));
    let job = manager.get_job(&id).unwrap();
    assert!(matches!(job.files[0].status, FileStatus::Complete));
    assert_eq!(job.files[0].output_path, Some(out0.clone()));
    assert_eq!(job.files[0].progress, 100);
    let (run, action) = manager.advance(run, JobEvent::SlotAcquired);
    match action {
        JobAction::Convert { index, output, .. } => {
            assert_eq!(index, 1);
            assert_eq!(output, format!("/tmp/narayan/{}/b.mp3", id));
        }
        _ => panic!("expected a conversion"),
    }
    assert!(matches!(
        manager.get_job(&id).unwrap().status,
        JobStatus::Processing { current_file: 1, total: 2 }
    ));
    let (run, action) = manager.advance(
        run,
        JobEvent::Failed(AppError::ConversionError("boom".to_string())),
    );
    assert!(matches!(action, JobAction::MeasureElapsed));
    let job = manager.get_job(&id).unwrap();
    match &job.files[1].status {
        FileStatus::Failed(e) => assert_eq!(e, "FFmpeg conversion failed: boom"),
        other => panic!("unexpected {:?}", other),
    }
    let (run, action) = manager.advance(run, JobEvent::Elapsed { secs: 3, subsec_nanos: 5 });
    assert!(matches!(action, JobAction::Stop));
    assert!(matches!(run.stage, RunStage::Finished));
    let job = manager.get_job(&id).unwrap();
    assert!(matches!(
        job.status,
        JobStatus::Complete { duration_secs: 3, duration_subsec_nanos: 5 }
    ));
    assert_eq!(job.result_paths, vec![out0]);
}

#[test]
fn an_event_that_answers_nothing_changes_nothing() {
    let mut manager = JobManager::new(Config::new(&ConfigEnv::default()));
    let id = manager.create_job(flac_files(&["a.flac"]), &vec![true]).unwrap();
    let (run, _) = manager.start_job(&id).unwrap();
    let (run, action) = manager.advance(run, JobEvent::SlotAcquired);
    assert!(matches!(run.stage, RunStage::Preparing));
    assert!(matches!(action, JobAction::CreateDirectory(_)));
    let (run, _) = manager.advance(run, JobEvent::DirectoryCreated);
    let (run, action) = manager.advance(run, JobEvent::Converted);
    assert!(matches!(run.stage, RunStage::AwaitingSlot(0)));
    assert!(matches!(action, JobAction::AcquireSlot));
    assert!(manager.get_job(&id).unwrap().result_paths.is_empty());
}

#[test]
fn a_failed_directory_fails_the_job() {
    let mut manager = JobManager::new(Config::new(&ConfigEnv::default()));
    let id = manager.create_job(flac_files(&["a.flac"]), &vec![true]).unwrap();
    let (run, _) = manager.start_job(&id).unwrap();
    let (run, action) = manager.advance(run, JobEvent::Failed(AppError::Io(IoError {
        kind: IoErrorKind::PermissionDenied,
        message: "denied".to_string(),
    })));
    assert!(matches!(action, JobAction::Stop));
    assert!(matches!(run.stage, RunStage::Finished));
    match manager.get_job(&id).unwrap().status {
        JobStatus::Failed { error } => assert_eq!(error, "IO error: denied"),
        other => panic!("unexpected {:?}", other),
    }
}

#[test]
fn starting_an_unknown_job_fails() {
    let mut manager = JobManager::new(Config::new(&ConfigEnv::default()));
    assert!(matches!(manager.start_job("x"), Err(AppError::JobNotFound(_))));
}

#[test]
fn progress_is_recorded_for_the_file() {
    let mut manager = JobManager::new(Config::new(&ConfigEnv::default()));
    let id = manager.create_job(flac_files(&["a.flac"]), &vec![true]).unwrap();
    manager.record_progress(&id, 0, 100);
    let job = manager.get_job(&id).unwrap();
    assert_eq!(job.files[0].progress, 100);
    assert!(matches!(job.files[0].status, FileStatus::Processing));
    manager.record_progress("other", 0, 50);
    manager.record_completed(&id, 5, "/x.mp3".to_string());
    let job = manager.get_job(&id).unwrap();
    assert_eq!(job.result_paths, vec!["/x.mp3".to_string()]);
}

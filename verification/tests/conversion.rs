use narayan_web::services::conversion::{parse_ffmpeg_progress, ConversionService};
use narayan_web::utils::ffmpeg::FFmpegCommand;

#[test]
fn test_generate_output_filename() {
    let input = "/path/to/song.flac";
    let output = ConversionService::generate_output_filename(input);
    assert_eq!(output, "song.mp3");
}

#[test]
fn test_parse_ffmpeg_progress_end() {
    let result = parse_ffmpeg_progress("progress=end");
    assert_eq!(result, Some(100));
}

#[test]
fn output_filename_without_a_file_name_is_output_mp3() {
    assert_eq!(ConversionService::generate_output_filename("/"), "output.mp3");
    assert_eq!(ConversionService::generate_output_filename(""), "output.mp3");
}

#[test]
fn output_filename_keeps_all_but_the_last_extension() {
    assert_eq!(ConversionService::generate_output_filename("dir/a.b.flac"), "a.b.mp3");
    assert_eq!(ConversionService::generate_output_filename("dir/.hidden"), ".hidden.mp3");
    assert_eq!(ConversionService::generate_output_filename("dir/plain/"), "plain.mp3");
}

#[test]
fn other_progress_lines_report_nothing() {
    assert_eq!(parse_ffmpeg_progress("progress=continue"), None);
    assert_eq!(parse_ffmpeg_progress("out_time_ms=1000"), None);
    assert_eq!(parse_ffmpeg_progress("x progress=end y"), Some(100));
}

#[test]
fn check_input_refuses_a_missing_file() {
    match ConversionService::check_input("/tmp/a.flac", false) {
        Err(narayan_web::error::AppError::Io(e)) => {
            assert!(matches!(e.kind, narayan_web::error::IoErrorKind::NotFound));
            assert_eq!(e.message, "Input file not found: /tmp/a.flac")
        }
        other => panic!("unexpected {:?}", other),
    }
}

#[test]
fn check_input_refuses_a_file_that_is_not_flac() {
    assert!(matches!(
        ConversionService::check_input("/tmp/a.mp3", true),
        Err(narayan_web::error::AppError::InvalidFileType)
    ));
    assert!(ConversionService::check_input("/tmp/a.FlAc", true).is_ok());
}

#[test]
fn failure_error_lists_the_error_stream() {
    let e = ConversionService::failure_error(
        Some(1),
        Some(vec!["first".to_string(), "second".to_string()]),
    );
    match e {
        narayan_web::error::AppError::ConversionError(msg) => {
            assert_eq!(msg, "FFmpeg failed with exit code Some(1): first\nsecond\n")
        }
        other => panic!("unexpected {:?}", other),
    }
    let e = ConversionService::failure_error(None, None);
    assert_eq!(
        e.message(),
        "FFmpeg conversion failed: FFmpeg failed with exit code None: Unknown error"
    );
    let e = ConversionService::failure_error(Some(-9), Some(vec![]));
    assert_eq!(
        e.message(),
        "FFmpeg conversion failed: FFmpeg failed with exit code Some(-9): "
    );
}

#[test]
fn process_error_and_output_directory() {
    assert_eq!(
        ConversionService::process_error("gone").message(),
        "FFmpeg conversion failed: Process error: gone"
    );
    assert_eq!(
        ConversionService::output_directory("/tmp/job/a.mp3"),
        Some("/tmp/job".to_string())
    );
    assert_eq!(ConversionService::output_directory("a.mp3"), Some(String::new()));
    assert_eq!(ConversionService::output_directory("/"), None);
}

#[test]
fn ffmpeg_command_converts_at_320k_keeping_metadata() {
    let cmd = FFmpegCommand::new("in.flac", "out.mp3");
    assert_eq!(cmd.program(), "ffmpeg");
    assert_eq!(
        cmd.args(),
        vec![
            "-i", "in.flac", "-ab", "320k", "-map_metadata", "0", "-id3v2_version", "3",
            "-progress", "pipe:1", "-y", "out.mp3"
        ]
    );
}

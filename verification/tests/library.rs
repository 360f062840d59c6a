use narayan_web::error::AppError;
use narayan_web::handlers::library::{
    browse_listing, check_convert_request, check_inside_root, collect_file, finish_selection,
    has_flac_extension, kind_rank, library_root_unavailable, not_a_directory,
    path_does_not_exist, path_not_found, unsupported_selection, library_candidate, normalize_relative, parent_path,
    to_relative_string, validate_relative_path, visit_entry, DirectoryWalk, ScannedEntry,
};
use narayan_web::models::message::{LibraryConvertRequest, LibraryEntryKind};

fn invalid_path(r: Result<String, AppError>) -> String {
    match r {
        Err(AppError::InvalidPath(m)) => m,
        other => panic!("unexpected {:?}", other),
    }
}

#[test]
fn validation_accepts_the_root_and_plain_paths() {
    assert_eq!(validate_relative_path("").unwrap(), "");
    assert_eq!(validate_relative_path("   ").unwrap(), "");
    assert_eq!(validate_relative_path("rock/album").unwrap(), "rock/album");
    assert_eq!(validate_relative_path(" ./rock//album/./ ").unwrap(), "rock/album");
}

#[test]
fn validation_refuses_absolute_and_parent_paths() {
    assert_eq!(
        invalid_path(validate_relative_path("/etc/passwd")),
        "Absolute paths are not allowed"
    );
    assert_eq!(
        invalid_path(validate_relative_path("  /etc")),
        "Absolute paths are not allowed"
    );
    assert_eq!(
        invalid_path(validate_relative_path("rock/../../etc")),
        "Parent traversal and root prefixes are not allowed"
    );
    assert_eq!(
        invalid_path(validate_relative_path("..")),
        "Parent traversal and root prefixes are not allowed"
    );
    assert_eq!(validate_relative_path("rock/..x").unwrap(), "rock/..x");
}

#[test]
fn validating_an_accepted_path_again_gives_it_back() {
    for raw in ["./a//b/./", "a", "", "x/..y/z"] {
        let once = validate_relative_path(raw).unwrap();
        assert_eq!(validate_relative_path(&once).unwrap(), once);
    }
}

#[test]
fn a_candidate_is_joined_to_the_root() {
    assert_eq!(library_candidate("/music", "rock/a.flac").unwrap(), "/music/rock/a.flac");
    assert_eq!(library_candidate("/music", "").unwrap(), "/music/");
    assert_eq!(library_candidate("/music/", "a").unwrap(), "/music/a");
    assert!(library_candidate("/music", "../x").is_err());
}

#[test]
fn relative_paths_as_the_api_shows_them() {
    assert_eq!(to_relative_string("/music", "/music/rock/a.flac"), "rock/a.flac");
    assert_eq!(to_relative_string("/music", "/music"), "");
    assert_eq!(to_relative_string("/music", "/musicx/a"), "");
    assert_eq!(to_relative_string("/music/", "/music/rock/"), "rock");
    assert_eq!(normalize_relative("."), "");
    assert_eq!(normalize_relative("a\\b"), "a/b");
    assert_eq!(parent_path(""), None);
    assert_eq!(parent_path("rock"), Some(String::new()));
    assert_eq!(parent_path("rock/album"), Some("rock".to_string()));
}

#[test]
fn flac_extension_in_any_case() {
    assert!(has_flac_extension("/m/a.flac"));
    assert!(has_flac_extension("/m/a.FLAC"));
    assert!(!has_flac_extension("/m/a.flac.mp3"));
    assert!(!has_flac_extension("/m/.flac"));
    assert!(!has_flac_extension("/m/flac"));
    assert_eq!(kind_rank(&LibraryEntryKind::Directory), 0);
    assert_eq!(kind_rank(&LibraryEntryKind::File), 1);
}

#[test]
fn a_file_is_collected_once() {
    let mut seen = Vec::new();
    let mut files = Vec::new();
    collect_file("/m/a.flac", &mut seen, &mut files);
    collect_file("/m//a.flac", &mut seen, &mut files);
    collect_file("/m/b.mp3", &mut seen, &mut files);
    collect_file("/m/c.FLAC/", &mut seen, &mut files);
    assert_eq!(seen, vec!["/m/a.flac".to_string(), "/m/c.FLAC/".to_string()]);
    assert_eq!(
        files,
        vec![
            ("/m/a.flac".to_string(), "a.flac".to_string()),
            ("/m/c.FLAC/".to_string(), "c.FLAC".to_string())
        ]
    );
}

fn entry(name: &str, dir: bool, canonical: Option<&str>) -> ScannedEntry {
    ScannedEntry {
        name: name.to_string(),
        is_symlink: false,
        is_dir: dir,
        is_file: !dir,
        canonical: canonical.map(|c| c.to_string()),
    }
}

#[test]
fn a_listing_shows_directories_then_flac_files_by_name() {
    let mut link = entry("link", true, None);
    link.is_symlink = true;
    let scanned = vec![
        entry("Zeta", true, Some("/music/rock/Zeta")),
        entry("alpha.flac", false, Some("/music/rock/alpha.flac")),
        entry("beta", true, Some("/music/rock/beta")),
        entry("Gamma.FLAC", false, Some("/music/rock/Gamma.FLAC")),
        link,
        entry("x.mp3", false, Some("/music/rock/x.mp3")),
        entry("out", true, Some("/elsewhere/out")),
        entry("gone", false, None),
    ];
    let r = browse_listing("/music", "/music/rock", "/music".to_string(), scanned);
    let names: Vec<&str> = r.entries.iter().map(|e| e.name.as_str()).collect();
    assert_eq!(names, vec!["beta", "Zeta", "alpha.flac", "Gamma.FLAC"]);
    assert_eq!(r.entries[0].path, "rock/beta");
    assert!(matches!(r.entries[0].kind, LibraryEntryKind::Directory));
    assert!(matches!(r.entries[3].kind, LibraryEntryKind::File));
    assert_eq!(r.directory_count, 2);
    assert_eq!(r.file_count, 2);
    assert_eq!(r.directory_count + r.file_count, r.entries.len());
    assert_eq!(r.current_path, "rock");
    assert_eq!(r.parent_path, Some(String::new()));
    assert_eq!(r.root_path, "/music");
}

#[test]
fn the_root_listing_has_no_parent() {
    let r = browse_listing("/music", "/music", "/music".to_string(), vec![]);
    assert_eq!(r.current_path, "");
    assert_eq!(r.parent_path, None);
    assert!(r.entries.is_empty());
}

#[test]
fn walking_a_directory_descends_and_collects() {
    let mut stack = Vec::new();
    let mut seen = Vec::new();
    let mut files = Vec::new();
    visit_entry("/music", &entry("sub", true, Some("/music/sub")), &mut stack, &mut seen, &mut files);
    visit_entry("/music", &entry("a.flac", false, Some("/music/a.flac")), &mut stack, &mut seen, &mut files);
    visit_entry("/music", &entry("b.flac", false, Some("/other/b.flac")), &mut stack, &mut seen, &mut files);
    assert_eq!(stack, vec!["/music/sub".to_string()]);
    assert_eq!(files, vec![("/music/a.flac".to_string(), "a.flac".to_string())]);
}

#[test]
fn a_selection_is_sorted_by_path_components() {
    let files = vec![
        ("/m/b.flac".to_string(), "b.flac".to_string()),
        ("/m/a.flac".to_string(), "a.flac".to_string()),
        ("/m/a/z.flac".to_string(), "z.flac".to_string()),
    ];
    let sorted = finish_selection(files).unwrap();
    let paths: Vec<&str> = sorted.iter().map(|f| f.0.as_str()).collect();
    assert_eq!(paths, vec!["/m/a/z.flac", "/m/a.flac", "/m/b.flac"]);
    assert!(matches!(finish_selection(vec![]), Err(AppError::NoFilesProvided)));
}

#[test]
fn paths_must_stay_below_the_root() {
    assert!(check_inside_root("/music", "/music/a").is_ok());
    assert!(check_inside_root("/music", "/music").is_ok());
    match check_inside_root("/music", "/musicx/a") {
        Err(AppError::InvalidPath(m)) => {
            assert_eq!(m, "Path escapes the configured music library root")
        }
        other => panic!("unexpected {:?}", other),
    }
}

#[test]
fn an_empty_request_is_refused() {
    let empty = LibraryConvertRequest { paths: vec![] };
    assert!(matches!(check_convert_request(&empty), Err(AppError::NoFilesProvided)));
    let one = LibraryConvertRequest { paths: vec!["a".to_string()] };
    assert!(check_convert_request(&one).is_ok());
}

#[test]
fn library_errors_say_what_went_wrong() {
    assert_eq!(not_a_directory().message(), "Invalid path: Requested path is not a directory");
    assert_eq!(path_not_found("x").message(), "Invalid path: Path not found: x");
    assert_eq!(path_does_not_exist("x").message(), "Invalid path: Path does not exist: x");
    assert_eq!(
        unsupported_selection("x").message(),
        "Invalid path: Unsupported selection type: x"
    );
    assert_eq!(
        library_root_unavailable("/m", "denied").message(),
        "Internal server error: Unable to access music library root '/m': denied"
    );
}

#[test]
fn an_accepted_path_joined_to_the_root_stays_below_it() {
    for raw in ["a/./b", "", "x//y/", " song.flac "] {
        let candidate = library_candidate("/music", raw).unwrap();
        assert!(check_inside_root("/music", &candidate).is_ok(), "{}", candidate);
        let candidate = library_candidate("/", raw).unwrap();
        assert!(check_inside_root("/", &candidate).is_ok(), "{}", candidate);
    }
}

#[test]
fn validation_trims_only_the_whole_path() {
    let once = validate_relative_path("./ x").unwrap();
    assert_eq!(once, " x");
    assert_eq!(validate_relative_path(&once).unwrap(), "x");
}

#[test]
fn a_directory_walk_reads_the_last_directory_found_first() {
    let mut walk = DirectoryWalk::start("/music".to_string());
    let mut seen = Vec::new();
    let mut files = Vec::new();
    assert_eq!(walk.next_directory(), Some("/music".to_string()));
    walk.visit("/music", &entry("a", true, Some("/music/a")), &mut seen, &mut files);
    walk.visit("/music", &entry("b", true, Some("/music/b")), &mut seen, &mut files);
    walk.visit("/music", &entry("c.flac", false, Some("/music/c.flac")), &mut seen, &mut files);
    assert_eq!(walk.next_directory(), Some("/music/b".to_string()));
    assert_eq!(walk.next_directory(), Some("/music/a".to_string()));
    assert_eq!(walk.next_directory(), None);
    assert_eq!(files, vec![("/music/c.flac".to_string(), "c.flac".to_string())]);
}

use tentacle::data::ApplicationError;
use tentacle::filerepo::FileRepository;
use tentacle::resolver::{FileInfo, FilePattern, FileSource};

fn entry(path: &str, modified_ms: u64) -> FileInfo {
    FileInfo { path: path.to_string(), modified_ms, is_dir: false }
}

fn demo_listing() -> Vec<FileInfo> {
    vec![
        entry("tests/demo.log.1", 1546333322000),
        entry("tests/testconf.yml", 1546300800000),
        entry("tests/demo.log", 1546336804000),
        entry("tests/demo.log.2.gz", 1546329783000),
        entry("tests/server_test.rs", 1546300800000),
    ]
}

#[test]
fn file_source_test_resolve_files() {
    let regex = FilePattern::new(r#"tests/demo\.log(\.(?P<rotation>\d)(\.gz)?)?"#).unwrap();
    let listing = demo_listing();
    let result = FileSource::resolve_files(&regex, 0, Some(&listing)).unwrap();
    assert_eq!(result.len(), 3);
    assert_eq!(result.get(0), Some(&"tests/demo.log.2.gz".to_string()));
    assert_eq!(result.get(1), Some(&"tests/demo.log.1".to_string()));
    assert_eq!(result.get(2), Some(&"tests/demo.log".to_string()));
}

#[test]
fn filerepo_test_resolve_files() {
    let regex = FilePattern::new(r#"tests/demo\.log(\.(?P<rotation>\d)(\.gz)?)?"#).unwrap();
    let listing = demo_listing();
    let result = FileRepository::resolve_files(&regex, 0, Some(&listing)).unwrap();
    assert_eq!(result.len(), 3);
    assert_eq!(result.get(0), Some(&"tests/demo.log.2.gz".to_string()));
    assert_eq!(result.get(1), Some(&"tests/demo.log.1".to_string()));
    assert_eq!(result.get(2), Some(&"tests/demo.log".to_string()));
}

#[test]
fn unreadable_directory_fails() {
    let regex = FilePattern::new(r#"tests/demo\.log"#).unwrap();
    assert_eq!(
        FileSource::resolve_files(&regex, 0, None),
        Err(ApplicationError::FailedToReadSource)
    );
}

#[test]
fn files_older_than_from_ms_are_left_out() {
    let regex = FilePattern::new(r#"tests/demo\.log(\.(?P<rotation>\d)(\.gz)?)?"#).unwrap();
    let listing = demo_listing();
    let result = FileSource::resolve_files(&regex, 1546333322000, Some(&listing)).unwrap();
    assert_eq!(result, vec!["tests/demo.log.1".to_string(), "tests/demo.log".to_string()]);
    let result = FileSource::resolve_files(&regex, 1546333322001, Some(&listing)).unwrap();
    assert_eq!(result, vec!["tests/demo.log".to_string()]);
}

#[test]
fn path_has_to_match_in_full() {
    let regex = FilePattern::new(r#"tests/demo\.log(\.(?P<rotation>\d)(\.gz)?)?"#).unwrap();
    let listing = vec![
        entry("tests/demo.log.bak", 1),
        entry("old/tests/demo.log", 2),
        entry("tests/demo.log.3", 3),
    ];
    let result = FileSource::resolve_files(&regex, 0, Some(&listing)).unwrap();
    assert_eq!(result, vec!["tests/demo.log.3".to_string()]);
}

#[test]
fn equal_rotation_goes_by_time_then_by_listing() {
    let regex = FilePattern::new(r#"/var/log/[a-z]+\.log(\.(?P<rotation>\d+))?"#).unwrap();
    let listing = vec![
        entry("/var/log/b.log", 30),
        entry("/var/log/a.log.10", 7),
        entry("/var/log/c.log", 20),
        entry("/var/log/d.log", 30),
        entry("/var/log/e.log.2", 1),
        entry("/var/log/f.log.10", 5),
    ];
    let result = FileSource::resolve_files(&regex, 0, Some(&listing)).unwrap();
    assert_eq!(
        result,
        vec![
            "/var/log/f.log.10".to_string(),
            "/var/log/a.log.10".to_string(),
            "/var/log/e.log.2".to_string(),
            "/var/log/c.log".to_string(),
            "/var/log/b.log".to_string(),
            "/var/log/d.log".to_string(),
        ]
    );
}

#[test]
fn rotation_that_is_no_number_counts_as_zero() {
    let regex = FilePattern::new(r#"/l/x\.(?P<rotation>[a-z0-9]+)"#).unwrap();
    let listing = vec![
        entry("/l/x.1", 1),
        entry("/l/x.old", 2),
        entry("/l/x.99999999999", 3),
    ];
    let result = FileSource::resolve_files(&regex, 0, Some(&listing)).unwrap();
    assert_eq!(
        result,
        vec!["/l/x.1".to_string(), "/l/x.old".to_string(), "/l/x.99999999999".to_string()]
    );
}

#[test]
fn folder_is_what_stands_before_the_last_separator() {
    let folder = |source: &str| FileSource::folder(&FilePattern::new(source).unwrap());
    assert_eq!(folder(r#"tests/demo\.log(\.(?P<rotation>\d)(\.gz)?)?"#), Some("tests".to_string()));
    assert_eq!(folder(r#"/var/log/app/.*\.log"#), Some("/var/log/app".to_string()));
    assert_eq!(folder(r#"/demo\.log"#), Some("/".to_string()));
    assert_eq!(folder(r#"demo\.log"#), None);
}

#[test]
fn file_pattern_keeps_its_text() {
    assert!(FilePattern::new("(unclosed").is_none());
    assert_eq!(FilePattern::new("a.c").unwrap().as_str(), "a.c");
}

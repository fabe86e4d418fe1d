use std::sync::Arc;
use tentacle::data::{ApplicationError, LogQueryContext, StreamEntry};
use tentacle::log_merge::{LogMerge, MergePoll};
use tentacle::logsource_port::{logfilter_from_query, QueryParameters, ResponseEncoder};
use tentacle::logsource_svc::LogSourceService;
use tentacle::resolver::{FileInfo, FileSource};
use tentacle::source::{LogSource, LogSourceBuilder, SourceConfig};
use tentacle::state::ServerState;
use tentacle::stream::{FileRead, LogStream};
use tentacle::util::Modified;

const DEMO2_GZ: [u8; 79] = [
    31, 139, 8, 0, 0, 0, 0, 0, 2, 255, 51, 50, 48, 180, 212, 53, 48, 4, 34, 5, 3, 11, 43, 3, 3, 43,
    32, 195, 53, 40, 200, 63, 72, 33, 37, 53, 55, 223, 40, 39, 51, 47, 213, 144, 203, 8, 67, 145,
    145, 130, 139, 171, 83, 168, 59, 66, 145, 17, 22, 69, 198, 10, 158, 126, 110, 254, 8, 53, 198,
    92, 0, 145, 102, 115, 55, 110, 0, 0, 0,
];

const DEMO1: &str = "2019-01-01 09:00:01 WARNING demo1line1\n2019-01-01 09:00:02 DEBUG demo1line2\n";

const DEMO0: &str = "2019-01-01 10:00:01 DEBUG demo0line1\n2019-01-01 10:00:02 DEBUG demo0line2\n2019-01-01 10:00:03 ERROR demo0line3\n2019-01-01 10:00:04 INFO demo0line4\n";

fn content_of(path: &str) -> FileRead {
    match path {
        "tests/demo.log.2.gz" => FileRead::whole(DEMO2_GZ.to_vec()),
        "tests/demo.log.1" => FileRead::whole(DEMO1.as_bytes().to_vec()),
        "tests/demo.log" => FileRead::whole(DEMO0.as_bytes().to_vec()),
        _ => FileRead::unreadable(),
    }
}

fn listing() -> Vec<FileInfo> {
    vec![
        FileInfo { path: "tests/demo.log".to_string(), modified_ms: 1546336804000, is_dir: false },
        FileInfo { path: "tests/demo.log.1".to_string(), modified_ms: 1546333322000, is_dir: false },
        FileInfo {
            path: "tests/demo.log.2.gz".to_string(),
            modified_ms: 1546329783000,
            is_dir: false,
        },
        FileInfo { path: "tests/other.txt".to_string(), modified_ms: 1546329783000, is_dir: false },
    ]
}

fn registry() -> ServerState {
    let itest = SourceConfig {
        id: Some("itest".to_string()),
        source_type: Some("file".to_string()),
        line_pattern: Some(
            "%{TIMESTAMP_ISO8601:timestamp} %{LOGLEVEL:loglevel} %{GREEDYDATA:message}".to_string(),
        ),
        datetime_pattern: Some("%Y-%m-%d %H:%M:%S".to_string()),
        timezone: Some("Europe/Berlin".to_string()),
        file_pattern: Some(r#"tests/demo\.log(\.(?P<rotation>\d)(\.gz)?)?"#.to_string()),
        unit: None,
    };
    let journal = SourceConfig {
        id: Some("journal".to_string()),
        source_type: Some("journal".to_string()),
        line_pattern: Some("%{GREEDYDATA:message}".to_string()),
        datetime_pattern: Some("%Y".to_string()),
        timezone: Some("UTC".to_string()),
        file_pattern: None,
        unit: Some("demo".to_string()),
    };
    let sources = vec![
        LogSourceBuilder::create(&itest).unwrap(),
        LogSourceBuilder::create(&journal).unwrap(),
    ];
    ServerState::new(sources).ok().unwrap()
}

fn stream_for(id: &str, parameters: &QueryParameters) -> Result<LogStream, ApplicationError> {
    let state = registry();
    let context = Arc::new(logfilter_from_query(parameters));
    let entries = listing();
    LogSourceService::create_content_stream(id, &state, &context, Some(&entries))
}

fn body(parameters: &QueryParameters, as_json: bool) -> String {
    let stream = stream_for("itest", parameters).unwrap();
    let mut merge = LogMerge::new(vec![stream]);
    let mut encoder = ResponseEncoder::new(as_json);
    let mut out = Vec::new();
    loop {
        match merge.poll_next() {
            MergePoll::Entry(entry) => out.extend(encoder.encode(entry).unwrap()),
            MergePoll::NeedsFile { source, path } => {
                let modified = Modified { before_epoch: false, secs: 1546336804, nanos: 0 };
                merge.supply_file(source, content_of(&path), Some(modified));
            }
            MergePoll::Finished => return String::from_utf8(out).unwrap(),
            MergePoll::Pending => panic!("nothing is watched"),
        }
    }
}

fn no_filter() -> QueryParameters {
    QueryParameters { from_ms: None, loglevels: None, watch: None }
}

#[test]
fn single_source_without_filter() {
    assert_eq!(
        body(&no_filter(), false),
        "2019-01-01 08:00:01 ERROR demo2line1\n\
         2019-01-01 08:00:02 DEBUG demo2line2\n\
         2019-01-01 08:00:03 INFO demo2line3\n\
         2019-01-01 09:00:01 WARNING demo1line1\n\
         2019-01-01 09:00:02 DEBUG demo1line2\n\
         2019-01-01 10:00:01 DEBUG demo0line1\n\
         2019-01-01 10:00:02 DEBUG demo0line2\n\
         2019-01-01 10:00:03 ERROR demo0line3\n\
         2019-01-01 10:00:04 INFO demo0line4\n"
    );
}

#[test]
fn single_source_with_loglevel_filter() {
    let parameters =
        QueryParameters { from_ms: Some(0), loglevels: Some("DEBUG".to_string()), watch: None };
    assert_eq!(
        body(&parameters, false),
        "2019-01-01 08:00:02 DEBUG demo2line2\n\
         2019-01-01 09:00:02 DEBUG demo1line2\n\
         2019-01-01 10:00:01 DEBUG demo0line1\n\
         2019-01-01 10:00:02 DEBUG demo0line2\n"
    );
}

#[test]
fn single_source_from_a_timestamp_on() {
    let parameters = QueryParameters { from_ms: Some(1546326003000), loglevels: None, watch: None };
    assert_eq!(
        body(&parameters, false),
        "2019-01-01 08:00:03 INFO demo2line3\n\
         2019-01-01 09:00:01 WARNING demo1line1\n\
         2019-01-01 09:00:02 DEBUG demo1line2\n\
         2019-01-01 10:00:01 DEBUG demo0line1\n\
         2019-01-01 10:00:02 DEBUG demo0line2\n\
         2019-01-01 10:00:03 ERROR demo0line3\n\
         2019-01-01 10:00:04 INFO demo0line4\n"
    );
}

#[test]
fn single_source_as_json() {
    let parameters = QueryParameters {
        from_ms: Some(1546333204000),
        loglevels: Some("INFO,ERROR".to_string()),
        watch: None,
    };
    assert_eq!(
        body(&parameters, true),
        "{\"timestamp\":1546333204000,\"loglevel\":\"INFO\",\"message\":\"demo0line4\"}\n"
    );
}

#[test]
fn unknown_source_is_not_found() {
    assert!(matches!(stream_for("nope", &no_filter()), Err(ApplicationError::SourceNotFound)));
}

#[test]
fn journal_source_cannot_be_streamed() {
    assert!(matches!(
        stream_for("journal", &no_filter()),
        Err(ApplicationError::FailedToReadSource)
    ));
}

#[test]
fn unreadable_directory_fails_the_request() {
    let state = registry();
    let context = Arc::new(logfilter_from_query(&no_filter()));
    assert!(matches!(
        LogSourceService::create_content_stream("itest", &state, &context, None),
        Err(ApplicationError::FailedToReadSource)
    ));
}

#[test]
fn directory_in_place_of_a_file_fails_the_request() {
    let state = registry();
    let context = Arc::new(logfilter_from_query(&no_filter()));
    let mut entries = listing();
    entries[1].is_dir = true;
    assert!(matches!(
        LogSourceService::create_content_stream("itest", &state, &context, Some(&entries)),
        Err(ApplicationError::FailedToReadSource)
    ));
}

#[test]
fn files_are_asked_for_in_reading_order_and_only_when_needed() {
    let stream = stream_for("itest", &no_filter()).unwrap();
    let mut merge = LogMerge::new(vec![stream]);
    let mut asked = Vec::new();
    let mut entries = 0;
    loop {
        match merge.poll_next() {
            MergePoll::Entry(_) => entries += 1,
            MergePoll::NeedsFile { source, path } => {
                asked.push((path.clone(), entries));
                merge.supply_file(source, content_of(&path), None);
            }
            MergePoll::Finished => break,
            MergePoll::Pending => panic!("nothing is watched"),
        }
    }
    assert_eq!(
        asked,
        vec![
            ("tests/demo.log.2.gz".to_string(), 0),
            ("tests/demo.log.1".to_string(), 3),
            ("tests/demo.log".to_string(), 5),
        ]
    );
    assert_eq!(entries, 9);
}

#[test]
fn watched_source_stays_pending_at_the_end_of_the_live_file() {
    let parameters = QueryParameters { from_ms: None, loglevels: None, watch: Some(true) };
    let stream = stream_for("itest", &parameters).unwrap();
    let mut merge = LogMerge::new(vec![stream]);
    let mut entries = 0;
    loop {
        match merge.poll_next() {
            MergePoll::Entry(_) => entries += 1,
            MergePoll::NeedsFile { source, path } => {
                merge.supply_file(source, content_of(&path), None);
            }
            MergePoll::Finished => panic!("a watched source does not finish"),
            MergePoll::Pending => break,
        }
    }
    assert_eq!(entries, 9);
    assert_eq!(merge.poll_next(), MergePoll::Pending);
}

#[test]
fn file_that_cannot_be_read_is_skipped() {
    let stream = stream_for("itest", &no_filter()).unwrap();
    let mut merge = LogMerge::new(vec![stream]);
    let mut lines = Vec::new();
    loop {
        match merge.poll_next() {
            MergePoll::Entry(StreamEntry::LogLine { line, .. }) => lines.push(line),
            MergePoll::NeedsFile { source, path } => {
                let content = if path == "tests/demo.log.1" {
                    FileRead::unreadable()
                } else {
                    content_of(&path)
                };
                merge.supply_file(source, content, None);
            }
            MergePoll::Finished => break,
            MergePoll::Pending => panic!("nothing is watched"),
        }
    }
    assert_eq!(lines.len(), 7);
    assert_eq!(lines[3], "2019-01-01 10:00:01 DEBUG demo0line1");
}

#[test]
fn two_sources_are_merged_by_time() {
    let state = registry();
    let context: Arc<LogQueryContext> = Arc::new(logfilter_from_query(&no_filter()));
    let entries = listing();
    let first =
        LogSourceService::create_content_stream("itest", &state, &context, Some(&entries)).unwrap();
    let second = match state.lookup_source("itest").unwrap() {
        LogSource::File { file_pattern, line_pattern, .. } => {
            FileSource::create_stream(file_pattern, line_pattern, &context, Some(&entries)).unwrap()
        }
        LogSource::Journal { .. } => panic!("a file source was configured"),
    };
    let mut merge = LogMerge::new(vec![first, second]);
    let mut stamps = Vec::new();
    loop {
        match merge.poll_next() {
            MergePoll::Entry(entry) => stamps.push(entry.timestamp()),
            MergePoll::NeedsFile { source, path } => {
                merge.supply_file(source, content_of(&path), None);
            }
            MergePoll::Finished => break,
            MergePoll::Pending => panic!("nothing is watched"),
        }
    }
    assert_eq!(stamps.len(), 18);
    assert!(stamps.windows(2).all(|pair| pair[0] <= pair[1]));
    assert_eq!(stamps[0], 1546326001000);
    assert_eq!(stamps[17], 1546333204000);
}

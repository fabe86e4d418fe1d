use tentacle::data::{ApplicationError, LogQueryContext, ParsedLine, StreamEntry};
use tentacle::logsource_port::{
    content_type, folders_to_list, get_source_content, logfilter_from_query, negotiate,
    requested_ids, status_of, ContentStream, FramePoll, LogSourceSpec, LogSourceType,
    QueryParameters, ResponseEncoder,
};
use tentacle::logsource_svc::LogSourceServiceMessage;
use tentacle::resolver::FileInfo;
use tentacle::source::{LogSourceBuilder, SourceConfig};
use tentacle::state::ServerState;
use tentacle::stream::{FileRead, LogStream, StreamPoll};

fn entry(timestamp: u64, loglevel: Option<&str>, message: &str, line: &str) -> StreamEntry {
    StreamEntry::LogLine {
        line: line.to_string(),
        parsed_line: ParsedLine {
            timestamp,
            loglevel: loglevel.map(|level| level.to_string()),
            message: message.to_string(),
        },
    }
}

fn text(frame: Result<Vec<u8>, ApplicationError>) -> String {
    String::from_utf8(frame.unwrap()).unwrap()
}

#[test]
fn text_frames_are_the_original_lines() {
    let mut encoder = ResponseEncoder::new(false);
    assert_eq!(text(encoder.encode(entry(0, None, "m", "the line"))), "the line\n");
    assert_eq!(text(encoder.encode(entry(7, None, "m", "grüße"))), "grüße\n");
    assert_eq!(text(encoder.encode(entry(7, None, "m", ""))), "\n");
}

#[test]
fn json_frames_fill_missing_timestamps_forward() {
    let mut encoder = ResponseEncoder::new(true);
    assert_eq!(
        text(encoder.encode(entry(0, None, "Failed to parse: x", "x"))),
        "{\"timestamp\":0,\"loglevel\":null,\"message\":\"Failed to parse: x\"}\n"
    );
    assert_eq!(
        text(encoder.encode(entry(1546326001000, Some("ERROR"), "demo2line1", "l"))),
        "{\"timestamp\":1546326001000,\"loglevel\":\"ERROR\",\"message\":\"demo2line1\"}\n"
    );
    assert_eq!(
        text(encoder.encode(entry(0, None, "  at \"frame\"\t1", "l"))),
        "{\"timestamp\":1546326001000,\"loglevel\":null,\"message\":\"  at \\\"frame\\\"\\t1\"}\n"
    );
    assert_eq!(
        text(encoder.encode(entry(1546326002000, Some("DEBUG"), "", "l"))),
        "{\"timestamp\":1546326002000,\"loglevel\":\"DEBUG\",\"message\":\"\"}\n"
    );
    assert_eq!(
        text(encoder.encode(entry(0, Some("INFO"), "late", "l"))),
        "{\"timestamp\":1546326002000,\"loglevel\":\"INFO\",\"message\":\"late\"}\n"
    );
}

#[test]
fn query_becomes_filter() {
    let all = logfilter_from_query(&QueryParameters { from_ms: None, loglevels: None, watch: None });
    assert_eq!(all, LogQueryContext { from_ms: 0, loglevels: None, watch: None });
    let some = logfilter_from_query(&QueryParameters {
        from_ms: Some(1546326003000),
        loglevels: Some("DEBUG,INFO".to_string()),
        watch: Some(true),
    });
    assert_eq!(
        some,
        LogQueryContext {
            from_ms: 1546326003000,
            loglevels: Some(vec!["DEBUG".to_string(), "INFO".to_string()]),
            watch: Some(true),
        }
    );
    let negative = logfilter_from_query(&QueryParameters {
        from_ms: Some(-5),
        loglevels: Some("".to_string()),
        watch: Some(false),
    });
    assert_eq!(
        negative,
        LogQueryContext { from_ms: 0, loglevels: Some(vec!["".to_string()]), watch: Some(false) }
    );
}

#[test]
fn ids_are_split_at_commas() {
    assert_eq!(requested_ids("a,b,c"), vec!["a", "b", "c"]);
    assert_eq!(requested_ids("itest"), vec!["itest"]);
}

fn registry() -> ServerState {
    let source = |id: &str, pattern: &str| {
        LogSourceBuilder::create(&SourceConfig {
            id: Some(id.to_string()),
            source_type: Some("file".to_string()),
            line_pattern: Some("%{TIMESTAMP_ISO8601:timestamp} %{GREEDYDATA:message}".to_string()),
            datetime_pattern: Some("%Y-%m-%d %H:%M:%S".to_string()),
            timezone: Some("UTC".to_string()),
            file_pattern: Some(pattern.to_string()),
            unit: None,
        })
        .ok()
        .unwrap()
    };
    let journal = LogSourceBuilder::create(&SourceConfig {
        id: Some("j".to_string()),
        source_type: Some("journal".to_string()),
        line_pattern: Some("%{GREEDYDATA:message}".to_string()),
        datetime_pattern: Some("%Y".to_string()),
        timezone: Some("UTC".to_string()),
        file_pattern: None,
        unit: Some("demo".to_string()),
    })
    .ok()
    .unwrap();
    ServerState::new(vec![
        source("a", r#"/var/log/a\.log(\.(?P<rotation>\d))?"#),
        journal,
        source("b", r#"/srv/b/b\.log"#),
        source("c", r#"c\.log"#),
    ])
    .ok()
    .unwrap()
}

fn file(path: &str, modified_ms: u64) -> FileInfo {
    FileInfo { path: path.to_string(), modified_ms, is_dir: false }
}

fn drain(mut body: ContentStream, content: &dyn Fn(&str) -> FileRead) -> String {
    let mut out = Vec::new();
    loop {
        match body.next_frame() {
            FramePoll::Frame(bytes) => out.extend(bytes),
            FramePoll::NeedsFile { source, path } => body.supply_file(source, content(&path), None),
            FramePoll::Finished => return String::from_utf8(out).unwrap(),
            other => panic!("unexpected {:?}", other),
        }
    }
}

#[test]
fn folders_are_named_for_each_id() {
    let state = registry();
    assert_eq!(
        folders_to_list("a,b,nope,j,c", &state),
        vec![Some("/var/log".to_string()), Some("/srv/b".to_string()), None, None, None]
    );
}

#[test]
fn body_is_the_merge_of_the_requested_sources() {
    let state = registry();
    let parameters = QueryParameters { from_ms: None, loglevels: None, watch: None };
    let listings = vec![
        Some(vec![file("/srv/b/b.log", 5)]),
        Some(vec![file("/var/log/a.log", 9), file("/var/log/a.log.1", 7)]),
    ];
    let body = get_source_content("b,a", &parameters, &state, &listings, false).ok().unwrap();
    assert_eq!(body.source_count(), 2);
    let content = |path: &str| match path {
        "/srv/b/b.log" => FileRead::whole(b"2019-01-01 08:00:02 b1\n2019-01-01 08:00:04 b2\n".to_vec()),
        "/var/log/a.log.1" => FileRead::whole(b"2019-01-01 08:00:01 a1\n".to_vec()),
        "/var/log/a.log" => FileRead::whole(b"2019-01-01 08:00:03 a2\n2019-01-01 08:00:05 a3\n".to_vec()),
        _ => FileRead::unreadable(),
    };
    assert_eq!(
        drain(body, &content),
        "2019-01-01 08:00:01 a1\n2019-01-01 08:00:02 b1\n2019-01-01 08:00:03 a2\n\
         2019-01-01 08:00:04 b2\n2019-01-01 08:00:05 a3\n"
    );
}

#[test]
fn first_failure_is_the_error_of_the_request() {
    let state = registry();
    let parameters = QueryParameters { from_ms: None, loglevels: None, watch: None };
    let listings = vec![Some(vec![file("/var/log/a.log", 9)]), None];
    let error_of = |ids: &str, listings: &Vec<Option<Vec<FileInfo>>>| {
        match get_source_content(ids, &parameters, &state, listings, true) {
            Ok(_) => panic!("a body was made"),
            Err(error) => error,
        }
    };
    assert!(get_source_content("a", &parameters, &state, &listings, true).is_ok());
    assert_eq!(error_of("a,nope,b", &listings), ApplicationError::SourceNotFound);
    assert_eq!(error_of("a,b,nope", &listings), ApplicationError::FailedToReadSource);
    assert_eq!(error_of("j", &listings), ApplicationError::FailedToReadSource);
    assert_eq!(error_of("a,a", &listings), ApplicationError::FailedToReadSource);
    assert_eq!(error_of("", &listings), ApplicationError::SourceNotFound);
    let with_directory =
        vec![Some(vec![FileInfo { path: "/var/log/a.log".to_string(), modified_ms: 1, is_dir: true }])];
    assert_eq!(error_of("a", &with_directory), ApplicationError::FailedToReadSource);
}

#[test]
fn message_names_its_path() {
    let message = LogSourceServiceMessage::StreamFilePath("/var/log/a.log".to_string());
    assert_eq!(message.path(), "/var/log/a.log");
    let spec = LogSourceSpec { src_type: LogSourceType::File, path: Some("/x".to_string()) };
    assert_eq!(spec.clone(), spec);
}

#[test]
fn errors_have_a_status_and_a_text() {
    assert_eq!(status_of(&ApplicationError::SourceNotFound), 404);
    assert_eq!(status_of(&ApplicationError::FailedToReadSource), 500);
    assert_eq!(ApplicationError::SourceNotFound.message(), "Source not found");
    assert_eq!(ApplicationError::FailedToReadSource.message(), "Failed to read source");
}

#[test]
fn accept_header_picks_the_encoding() {
    assert_eq!(negotiate("*/*"), Some(false));
    assert_eq!(negotiate("text/plain"), Some(false));
    assert_eq!(negotiate("application/json"), Some(true));
    assert_eq!(negotiate("text/html"), None);
    assert_eq!(negotiate(""), None);
    assert_eq!(content_type(true), "application/json");
    assert_eq!(content_type(false), "text/plain");
}

#[test]
fn ready_stream_ends_with_its_first_failure() {
    let mut stream = LogStream::from_items(vec![
        Ok(entry(1, None, "a", "a")),
        Err(ApplicationError::FailedToReadSource),
        Ok(entry(2, None, "b", "b")),
    ]);
    assert_eq!(stream.poll_next(), StreamPoll::Entry(entry(1, None, "a", "a")));
    assert_eq!(stream.poll_next(), StreamPoll::Failed(ApplicationError::FailedToReadSource));
    assert_eq!(stream.poll_next(), StreamPoll::Finished);
    stream.supply_file(FileRead::whole(vec![1, 2, 3]), None);
    assert_eq!(stream.poll_next(), StreamPoll::Finished);
}

use tentacle::data::{LogQueryContext, StreamEntry};
use tentacle::filerepo::{FileContent, FileRepository};
use tentacle::log_streamer::LogFileStreamer;
use tentacle::pattern::{GrokPattern, LinePattern, Zone};
use tentacle::stream::{FileLogStream, FileRead, StreamPoll};
use tentacle::util::{modification_year, system_time_to_date_time, Modified};

const GZ: [u8; 79] = [
    31, 139, 8, 0, 0, 0, 0, 0, 2, 255, 51, 50, 48, 180, 212, 53, 48, 4, 34, 5, 3, 11, 43, 3, 3, 43,
    32, 195, 53, 40, 200, 63, 72, 33, 37, 53, 55, 223, 40, 39, 51, 47, 213, 144, 203, 8, 67, 145,
    145, 130, 139, 171, 83, 168, 59, 66, 145, 17, 22, 69, 198, 10, 158, 126, 110, 254, 8, 53, 198,
    92, 0, 145, 102, 115, 55, 110, 0, 0, 0,
];

fn iso_pattern() -> LinePattern {
    let raw = "%{TIMESTAMP_ISO8601:timestamp} %{LOGLEVEL:loglevel} %{GREEDYDATA:message}";
    LinePattern {
        raw: raw.to_string(),
        grok: GrokPattern::new(raw).unwrap(),
        chrono: "%Y-%m-%d %H:%M:%S".to_string(),
        timezone: Zone::new("UTC").unwrap(),
        syslog_ts: false,
    }
}

fn syslog_pattern() -> LinePattern {
    let raw = "%{SYSLOGTIMESTAMP:timestamp} %{GREEDYDATA:message}";
    LinePattern {
        raw: raw.to_string(),
        grok: GrokPattern::new(raw).unwrap(),
        chrono: "%Y %b %d %H:%M:%S".to_string(),
        timezone: Zone::new("UTC").unwrap(),
        syslog_ts: true,
    }
}

fn everything() -> LogQueryContext {
    LogQueryContext { from_ms: 0, loglevels: None, watch: None }
}

fn lines_of(entries: &[StreamEntry]) -> Vec<String> {
    entries
        .iter()
        .map(|entry| match entry {
            StreamEntry::LogLine { line, .. } => line.clone(),
        })
        .collect()
}

#[test]
fn unopened_stream_asks_for_its_file() {
    let mut stream = FileLogStream::new("/var/log/app.log");
    assert!(stream.needs_file());
    assert!(!stream.watches());
    assert_eq!(stream.path(), "/var/log/app.log");
    assert_eq!(
        stream.poll_next(&iso_pattern(), &everything()),
        StreamPoll::NeedsFile("/var/log/app.log".to_string())
    );
    stream.open(FileRead::whole(b"2019-01-01 08:00:01 INFO a\n".to_vec()), None);
    assert!(!stream.needs_file());
    assert!(matches!(stream.poll_next(&iso_pattern(), &everything()), StreamPoll::Entry(_)));
    assert_eq!(stream.poll_next(&iso_pattern(), &everything()), StreamPoll::Finished);
    assert_eq!(stream.poll_next(&iso_pattern(), &everything()), StreamPoll::Finished);
}

#[test]
fn without_filter_every_line_comes_out_in_file_order() {
    let content = "2019-01-01 08:00:01 INFO a\r\nnot a log line\n\n2019-01-01 08:00:02 DEBUG b";
    let entries = LogFileStreamer::read_file(
        "app.log",
        FileRead::whole(content.as_bytes().to_vec()),
        None,
        &iso_pattern(),
        &everything(),
    );
    assert_eq!(
        lines_of(&entries),
        vec!["2019-01-01 08:00:01 INFO a", "not a log line", "", "2019-01-01 08:00:02 DEBUG b"]
    );
    assert_eq!(entries[1].timestamp(), 0);
    assert_eq!(entries[3].timestamp(), 1546329602000);
}

#[test]
fn every_entry_passes_the_filter() {
    let content = "2019-01-01 08:00:01 INFO a\n2019-01-01 08:00:02 DEBUG b\njunk\n2019-01-01 08:00:03 INFO c\n2019-01-01 08:00:04 ERROR d\n";
    let filter = LogQueryContext {
        from_ms: 1546329602000,
        loglevels: Some(vec!["INFO".to_string(), "ERROR".to_string()]),
        watch: None,
    };
    let entries = LogFileStreamer::read_file(
        "app.log",
        FileRead::whole(content.as_bytes().to_vec()),
        None,
        &iso_pattern(),
        &filter,
    );
    assert_eq!(lines_of(&entries), vec!["2019-01-01 08:00:03 INFO c", "2019-01-01 08:00:04 ERROR d"]);
    for entry in &entries {
        match entry {
            StreamEntry::LogLine { parsed_line, .. } => assert!(filter.matches(parsed_line)),
        }
    }
}

#[test]
fn gzip_file_is_unpacked() {
    let entries =
        LogFileStreamer::read_file("demo.log.2.gz", FileRead::whole(GZ.to_vec()), None, &iso_pattern(), &everything());
    assert_eq!(
        lines_of(&entries),
        vec![
            "2019-01-01 08:00:01 ERROR demo2line1",
            "2019-01-01 08:00:02 DEBUG demo2line2",
            "2019-01-01 08:00:03 INFO demo2line3"
        ]
    );
    // the same bytes under a name that does not end in .gz are no log lines
    let raw = LogFileStreamer::read_file("demo.log.2", FileRead::whole(GZ.to_vec()), None, &iso_pattern(), &everything());
    assert!(raw.iter().all(|entry| entry.timestamp() == 0));
    assert!(!raw.is_empty());
}

#[test]
fn file_that_is_no_gzip_file_gives_nothing() {
    let entries = LogFileStreamer::read_file(
        "x.gz",
        FileRead::whole(b"plain\n".to_vec()),
        None,
        &iso_pattern(),
        &everything(),
    );
    assert!(entries.is_empty());
    let missing =
        LogFileStreamer::read_file("demo.log", FileRead::unreadable(), None, &iso_pattern(), &everything());
    assert!(missing.is_empty());
}

#[test]
fn damaged_gzip_file_gives_the_lines_in_front_of_the_damage() {
    let whole = [
        "2019-01-01 08:00:01 ERROR demo2line1",
        "2019-01-01 08:00:02 DEBUG demo2line2",
        "2019-01-01 08:00:03 INFO demo2line3",
    ];
    // without its last eight bytes the file lacks its check sum: every line
    // can be unpacked, and the reading fails behind them
    let mut damaged = GZ.to_vec();
    damaged.truncate(GZ.len() - 8);
    let entries = LogFileStreamer::read_file(
        "demo.log.2.gz",
        FileRead::whole(damaged),
        None,
        &iso_pattern(),
        &everything(),
    );
    assert_eq!(lines_of(&entries), whole);
    // cut anywhere, the file gives lines from the front of the whole file
    for keep in 0..GZ.len() {
        let mut cut = GZ.to_vec();
        cut.truncate(keep);
        let entries = LogFileStreamer::read_file(
            "demo.log.2.gz",
            FileRead::cut_short(cut),
            None,
            &iso_pattern(),
            &everything(),
        );
        let lines = lines_of(&entries);
        assert!(lines.len() <= whole.len());
        assert_eq!(lines, whole[..lines.len()]);
    }
}

#[test]
fn reading_that_fails_keeps_the_lines_in_front_of_the_failure() {
    let read = b"2019-01-01 08:00:01 INFO a\r\n2019-01-01 08:00:02 INFO b\n2019-01-01 08:00:03 IN".to_vec();
    let entries = LogFileStreamer::read_file(
        "app.log",
        FileRead::cut_short(read.clone()),
        None,
        &iso_pattern(),
        &everything(),
    );
    assert_eq!(lines_of(&entries), vec!["2019-01-01 08:00:01 INFO a", "2019-01-01 08:00:02 INFO b"]);
    // read to its end, the same file has a third line
    let entries =
        LogFileStreamer::read_file("app.log", FileRead::whole(read), None, &iso_pattern(), &everything());
    assert_eq!(entries.len(), 3);
    // a watched file whose reading failed is at its end behind its lines
    let mut stream = FileLogStream::new("app.log").with_watch();
    stream.open(FileRead::cut_short(b"2019-01-01 08:00:01 INFO a\npart".to_vec()), None);
    assert!(matches!(stream.next_line(&iso_pattern(), &everything()), StreamPoll::Entry(_)));
    assert_eq!(stream.next_line(&iso_pattern(), &everything()), StreamPoll::Finished);
}

#[test]
fn over_long_line_gives_one_entry_that_says_so() {
    let content = "2019-01-01 08:00:01 INFO a\n0123456789012345678901234567890123456789\n2019-01-01 08:00:02 INFO b\n";
    let mut stream = FileLogStream::new("app.log").with_max_line_length(30);
    stream.open(FileRead::whole(content.as_bytes().to_vec()), None);
    let pattern = iso_pattern();
    let mut lines = Vec::new();
    let mut stamps = Vec::new();
    loop {
        match stream.next_line(&pattern, &everything()) {
            StreamPoll::Entry(StreamEntry::LogLine { line, parsed_line }) => {
                stamps.push(parsed_line.timestamp);
                if line == "line length limit exceeded" {
                    assert_eq!(parsed_line.loglevel, Some("ERROR".to_string()));
                    assert_eq!(parsed_line.message, "line length limit exceeded");
                }
                lines.push(line);
            }
            StreamPoll::Finished => break,
            other => panic!("unexpected {:?}", other),
        }
    }
    assert_eq!(
        lines,
        vec!["2019-01-01 08:00:01 INFO a", "line length limit exceeded", "2019-01-01 08:00:02 INFO b"]
    );
    assert_eq!(stamps, vec![1546329601000, 0, 1546329602000]);
}

#[test]
fn default_limit_is_2048_bytes() {
    let fits = format!("{}\n", "x".repeat(2048));
    let entries = LogFileStreamer::read_file("a.log", FileRead::whole(fits.into_bytes()), None, &iso_pattern(), &everything());
    assert_eq!(lines_of(&entries), vec!["x".repeat(2048)]);
    let too_long = format!("{}\nshort\n", "x".repeat(2049));
    let entries =
        LogFileStreamer::read_file("a.log", FileRead::whole(too_long.into_bytes()), None, &iso_pattern(), &everything());
    assert_eq!(lines_of(&entries), vec!["line length limit exceeded", "short"]);
}

#[test]
fn watched_stream_stays_pending() {
    let mut stream = FileLogStream::new("app.log").with_watch();
    assert!(stream.watches());
    stream.open(FileRead::whole(b"2019-01-01 08:00:01 INFO a\n".to_vec()), None);
    assert!(matches!(stream.next_line(&iso_pattern(), &everything()), StreamPoll::Entry(_)));
    assert_eq!(stream.next_line(&iso_pattern(), &everything()), StreamPoll::Pending);
    assert_eq!(stream.next_line(&iso_pattern(), &everything()), StreamPoll::Pending);
    // a watched file that cannot be read is at its end
    let mut gone = FileLogStream::new("app.log").with_watch();
    gone.open(FileRead::unreadable(), None);
    assert_eq!(gone.next_line(&iso_pattern(), &everything()), StreamPoll::Finished);
}

#[test]
fn syslog_lines_take_the_year_of_the_file() {
    let modified = Modified { before_epoch: false, secs: 1551400000, nanos: 0 };
    let entries = LogFileStreamer::read_file(
        "syslog",
        FileRead::whole(b"Feb 28 13:29:46 second message\n".to_vec()),
        Some(modified),
        &syslog_pattern(),
        &everything(),
    );
    assert_eq!(entries.len(), 1);
    assert_eq!(entries[0].timestamp(), 1551360586000);
    let unknown = LogFileStreamer::read_file(
        "syslog",
        FileRead::whole(b"Feb 28 13:29:46 second message\n".to_vec()),
        None,
        &syslog_pattern(),
        &everything(),
    );
    assert_eq!(unknown[0].timestamp(), 0);
}

#[test]
fn year_of_modification() {
    assert_eq!(modification_year(Some(Modified { before_epoch: false, secs: 1551400000, nanos: 5 })), 2019);
    assert_eq!(modification_year(Some(Modified { before_epoch: false, secs: 0, nanos: 0 })), 1970);
    assert_eq!(modification_year(Some(Modified { before_epoch: true, secs: 0, nanos: 1 })), 1969);
    assert_eq!(modification_year(Some(Modified { before_epoch: true, secs: 86400 * 366, nanos: 0 })), 1968);
    assert_eq!(modification_year(None), 0);
    assert_eq!(modification_year(Some(Modified { before_epoch: false, secs: u64::MAX, nanos: 0 })), 0);
    assert_eq!(
        modification_year(Some(Modified { before_epoch: false, secs: 9_000_000_000_000_000, nanos: 0 })),
        0
    );
    assert_eq!(modification_year(Some(Modified { before_epoch: false, secs: 1, nanos: 1_000_000_000 })), 0);
}

#[test]
fn system_time_counts_back_before_the_epoch() {
    let stamp = |before_epoch, secs, nanos| system_time_to_date_time(Modified { before_epoch, secs, nanos });
    assert_eq!(stamp(false, 12, 34), Some((12, 34)));
    assert_eq!(stamp(true, 12, 0), Some((-12, 0)));
    assert_eq!(stamp(true, 12, 250_000_000), Some((-13, 750_000_000)));
    assert_eq!(stamp(true, 0, 1), Some((-1, 999_999_999)));
    assert_eq!(stamp(false, 9_223_372_036_854_775_806, 0), Some((9_223_372_036_854_775_806, 0)));
    assert_eq!(stamp(false, 9_223_372_036_854_775_807, 0), None);
    assert_eq!(stamp(false, 0, 1_000_000_000), None);
}

#[test]
fn files_of_a_source_are_read_one_after_the_other() {
    let file = |path: &str, content: &str| FileContent {
        path: path.to_string(),
        is_dir: false,
        content: FileRead::whole(content.as_bytes().to_vec()),
        modified: None,
    };
    let files = vec![
        file("a.log.1", "2019-01-01 08:00:01 INFO a\n"),
        FileContent { path: "a.log.0.gz".to_string(), is_dir: false, content: FileRead::whole(GZ.to_vec()), modified: None },
        file("a.log", "2019-01-01 08:00:09 INFO z\n"),
    ];
    let entries = FileRepository::stream(files.clone(), &iso_pattern(), &everything()).unwrap();
    assert_eq!(
        lines_of(&entries),
        vec![
            "2019-01-01 08:00:01 INFO a",
            "2019-01-01 08:00:01 ERROR demo2line1",
            "2019-01-01 08:00:02 DEBUG demo2line2",
            "2019-01-01 08:00:03 INFO demo2line3",
            "2019-01-01 08:00:09 INFO z"
        ]
    );
    let mut with_dir = files;
    with_dir[2].is_dir = true;
    assert_eq!(
        FileRepository::stream(with_dir.clone(), &iso_pattern(), &everything()),
        Err(tentacle::data::ApplicationError::FailedToReadSource)
    );
    assert_eq!(
        FileRepository::stream_file(with_dir[2].clone(), &iso_pattern(), &everything()),
        Err(tentacle::data::ApplicationError::FailedToReadSource)
    );
    assert_eq!(
        FileRepository::apply_pattern("2019-01-01 08:00:01 INFO a", &iso_pattern(), 0).timestamp,
        1546329601000
    );
}

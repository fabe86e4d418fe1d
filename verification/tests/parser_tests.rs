use tentacle::log_streamer::LogFileStreamer;
use tentacle::pattern::{apply_pattern, line_from_fields, timestamp_from_capture, unix_millis, GrokPattern, LinePattern, Zone};

fn pattern(raw: &str, chrono: &str, zone: &str, syslog_ts: bool) -> LinePattern {
    LinePattern {
        raw: raw.to_string(),
        grok: GrokPattern::new(raw).unwrap(),
        chrono: chrono.to_string(),
        timezone: Zone::new(zone).unwrap(),
        syslog_ts,
    }
}

#[test]
fn test_apply_pattern() {
    let raw = "%{TIMESTAMP_ISO8601:timestamp} %{GREEDYDATA:message}";
    let grok = GrokPattern::new(raw).unwrap();
    let chrono = "%Y-%m-%d %H:%M:%S".to_string();
    let line_pattern = LinePattern {
        raw: raw.to_string(),
        grok,
        chrono: chrono.clone(),
        timezone: Zone::new("UTC").unwrap(),
        syslog_ts: false,
    };

    let line = "2018-01-01 12:39:01 first message";
    let parsed_line = LogFileStreamer::apply_pattern(line, &line_pattern, 2018);
    assert_eq!(1514810341000, parsed_line.timestamp);
    assert_eq!("first message", parsed_line.message);

    let grok = GrokPattern::new("%{SYSLOGTIMESTAMP:timestamp} %{GREEDYDATA:message}").unwrap();
    let chrono = "%Y %b %d %H:%M:%S".to_string();
    let line_pattern = LinePattern {
        raw: raw.to_string(),
        grok,
        chrono: chrono.clone(),
        timezone: Zone::new("UTC").unwrap(),
        syslog_ts: true,
    };

    let line = "Feb 28 13:29:46 second message";
    let parsed_line = LogFileStreamer::apply_pattern(line, &line_pattern, 2019);
    assert_eq!(1551360586000, parsed_line.timestamp);
    assert_eq!("second message", parsed_line.message);
}

#[test]
fn line_that_does_not_match_is_marked() {
    let p = pattern(
        "%{TIMESTAMP_ISO8601:timestamp} %{LOGLEVEL:loglevel} %{GREEDYDATA:message}",
        "%Y-%m-%d %H:%M:%S",
        "UTC",
        false,
    );
    let parsed = apply_pattern("no timestamp here", &p, 2019);
    assert_eq!(parsed.timestamp, 0);
    assert_eq!(parsed.loglevel, None);
    assert_eq!(parsed.message, "Failed to parse: no timestamp here");
}

#[test]
fn loglevel_is_captured_where_the_pattern_has_it() {
    let p = pattern(
        "%{TIMESTAMP_ISO8601:timestamp} %{LOGLEVEL:loglevel} %{GREEDYDATA:message}",
        "%Y-%m-%d %H:%M:%S",
        "UTC",
        false,
    );
    let parsed = apply_pattern("2019-01-01 08:00:01 ERROR demo2line1", &p, 2019);
    assert_eq!(parsed.timestamp, 1546329601000);
    assert_eq!(parsed.loglevel, Some("ERROR".to_string()));
    assert_eq!(parsed.message, "demo2line1");
}

#[test]
fn missing_captures_give_defaults() {
    let p = pattern("%{TIMESTAMP_ISO8601:timestamp} %{GREEDYDATA:msg}", "%Y-%m-%d %H:%M:%S", "UTC", false);
    let parsed = apply_pattern("2019-01-01 08:00:01 hello", &p, 2019);
    assert_eq!(parsed.timestamp, 1546329601000);
    assert_eq!(parsed.loglevel, None);
    assert_eq!(parsed.message, "");
}

#[test]
fn timestamp_that_does_not_parse_is_zero() {
    let p = pattern("%{TIMESTAMP_ISO8601:timestamp} %{GREEDYDATA:message}", "%d/%m/%Y", "UTC", false);
    let parsed = apply_pattern("2019-01-01 08:00:01 hello", &p, 2019);
    assert_eq!(parsed.timestamp, 0);
    assert_eq!(parsed.message, "hello");
}

#[test]
fn timestamp_is_local_to_the_zone() {
    let p = pattern(
        "%{TIMESTAMP_ISO8601:timestamp} %{GREEDYDATA:message}",
        "%Y-%m-%d %H:%M:%S",
        "Europe/Berlin",
        false,
    );
    let parsed = apply_pattern("2019-01-01 08:00:03 hello", &p, 2019);
    assert_eq!(parsed.timestamp, 1546326003000);
}

#[test]
fn ambiguous_and_missing_local_times_are_zero() {
    let p = pattern(
        "%{TIMESTAMP_ISO8601:timestamp} %{GREEDYDATA:message}",
        "%Y-%m-%d %H:%M:%S",
        "Europe/Berlin",
        false,
    );
    // the clock went from 02:00 to 03:00 on 2019-03-31 and from 03:00 back to 02:00 on 2019-10-27
    assert_eq!(apply_pattern("2019-03-31 02:30:00 gap", &p, 2019).timestamp, 0);
    assert_eq!(apply_pattern("2019-10-27 02:30:00 fold", &p, 2019).timestamp, 0);
    assert_eq!(apply_pattern("2019-10-27 01:30:00 fine", &p, 2019).timestamp, 1572132600000);
}

#[test]
fn syslog_timestamp_takes_the_given_year() {
    let p = pattern("%{SYSLOGTIMESTAMP:timestamp} %{GREEDYDATA:message}", "%Y %b %d %H:%M:%S", "UTC", true);
    let capture = "Feb 28 13:29:46".to_string();
    assert_eq!(timestamp_from_capture(&p, Some(&capture), 2019), 1551360586000);
    assert_eq!(timestamp_from_capture(&p, Some(&capture), 2018), 1519824586000);
    assert_eq!(timestamp_from_capture(&p, None, 2019), 0);
    // a year of 0 stands for an unknown time of modification
    assert_eq!(timestamp_from_capture(&p, Some(&capture), 0), 0);
}

#[test]
fn unix_millis_is_exact() {
    assert_eq!(unix_millis(1514810341, 0), 1514810341000);
    assert_eq!(unix_millis(1, 999), 1999);
    assert_eq!(unix_millis(0, 0), 0);
    assert_eq!(unix_millis(-1, 0), 0);
    assert_eq!(unix_millis(-1, 1500), 500);
    assert_eq!(unix_millis(i64::MAX, 0), 0);
    assert_eq!(unix_millis(18446744073709551, 615), u64::MAX);
    assert_eq!(unix_millis(18446744073709551, 616), 0);
}

#[test]
fn line_from_fields_builds_both_kinds() {
    let hit = line_from_fields("raw", true, 5, Some("INFO".to_string()), None);
    assert_eq!(hit.timestamp, 5);
    assert_eq!(hit.loglevel, Some("INFO".to_string()));
    assert_eq!(hit.message, "");
    let miss = line_from_fields("raw", false, 5, Some("INFO".to_string()), Some("m".to_string()));
    assert_eq!(miss.timestamp, 0);
    assert_eq!(miss.loglevel, None);
    assert_eq!(miss.message, "Failed to parse: raw");
}

#[test]
fn parse_is_deterministic() {
    let p = pattern(
        "%{TIMESTAMP_ISO8601:timestamp} %{LOGLEVEL:loglevel} %{GREEDYDATA:message}",
        "%Y-%m-%d %H:%M:%S",
        "UTC",
        false,
    );
    let line = "2019-01-01 10:00:04 INFO demo0line4";
    assert_eq!(apply_pattern(line, &p, 2019), apply_pattern(line, &p, 2019));
}

#[test]
fn grok_pattern_reports_what_it_cannot_compile() {
    assert!(GrokPattern::new("%{NO_SUCH_PATTERN:x}").is_none());
    assert!(Zone::new("Mars/Olympus").is_none());
    let p = GrokPattern::new("%{WORD:first} %{WORD:second}").unwrap();
    assert_eq!(p.source(), "%{WORD:first} %{WORD:second}");
    let names = vec!["second", "first", "third"];
    assert_eq!(
        p.captures("hello world", &names),
        Some(vec![Some("world".to_string()), Some("hello".to_string()), None])
    );
    assert_eq!(p.captures("!!!", &names), None);
    assert_eq!(Zone::new("Europe/Berlin").unwrap().name(), "Europe/Berlin");
}

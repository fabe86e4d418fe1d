use tentacle::data::{LogQueryContext, ParsedLine};
use tentacle::sources_api::{ApiError, Source, SourceDTO, SourceList, SourceType};
use tentacle::{authors, version};

fn parsed(timestamp: u64, loglevel: Option<&str>) -> ParsedLine {
    ParsedLine {
        timestamp,
        loglevel: loglevel.map(|level| level.to_string()),
        message: "m".to_string(),
    }
}

#[test]
fn filter_matches_by_time_and_level() {
    let open = LogQueryContext { from_ms: 0, loglevels: None, watch: None };
    assert!(open.matches(&parsed(0, None)));
    assert!(open.matches(&parsed(5, Some("INFO"))));
    let from = LogQueryContext { from_ms: 10, loglevels: None, watch: None };
    assert!(!from.matches(&parsed(9, None)));
    assert!(from.matches(&parsed(10, None)));
    assert!(from.matches(&parsed(11, None)));
    let levels = LogQueryContext {
        from_ms: 10,
        loglevels: Some(vec!["DEBUG".to_string(), "INFO".to_string()]),
        watch: Some(true),
    };
    assert!(levels.matches(&parsed(10, Some("INFO"))));
    assert!(levels.matches(&parsed(10, Some("DEBUG"))));
    assert!(!levels.matches(&parsed(10, Some("debug"))));
    assert!(!levels.matches(&parsed(10, Some("ERROR"))));
    assert!(!levels.matches(&parsed(10, None)));
    assert!(!levels.matches(&parsed(9, Some("INFO"))));
    let nothing = LogQueryContext { from_ms: 0, loglevels: Some(vec![]), watch: None };
    assert!(!nothing.matches(&parsed(1, Some("INFO"))));
}

#[test]
fn version_and_authors_are_given() {
    assert_eq!(version(), "0.1.0");
    assert_eq!(authors(), "The tentacle authors");
}

#[test]
fn source_goes_to_its_dto_and_back() {
    let dto = SourceDTO { srctype: SourceType::Url, path: "http://host/log".to_string() };
    let source = Source::from(dto.clone());
    assert_eq!(source.into_dto(), dto);
}

#[test]
fn source_is_added_once() {
    let source = |srctype, path: &str| Source::from(SourceDTO { srctype, path: path.to_string() });
    let mut list = SourceList::new();
    assert_eq!(list.add_source(source(SourceType::File, "/var/log/a")), Ok(()));
    assert_eq!(list.add_source(source(SourceType::Journal, "/var/log/a")), Ok(()));
    assert_eq!(
        list.add_source(source(SourceType::File, "/var/log/a")),
        Err(ApiError::SourceAlreadyAdded)
    );
    assert_eq!(list.add_source(source(SourceType::File, "/var/log/b")), Ok(()));
    assert_eq!(list.get_sources().len(), 3);
    assert_eq!(list.get_sources()[1], source(SourceType::Journal, "/var/log/a"));
    assert_eq!(ApiError::SourceAlreadyAdded.message(), "Source already exists");
    assert_eq!(ApiError::FailedToWriteSource.message(), "Failed to store source");
}

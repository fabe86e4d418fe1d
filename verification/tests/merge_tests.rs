use tentacle::data::{ApplicationError, ParsedLine, StreamEntry};
use tentacle::log_merge::{LogMerge, MergePoll};
use tentacle::merge_model::SourceState;
use tentacle::stream::LogStream;

fn line_at(timestamp: u64, line: &str) -> StreamEntry {
    let error = ParsedLine { timestamp, message: line.to_string(), loglevel: None };
    StreamEntry::LogLine { line: String::from("Failed while retrieving the log."), parsed_line: error }
}

fn stream_of(entries: Vec<StreamEntry>) -> LogStream {
    LogStream::from_items(entries.into_iter().map(Ok).collect())
}

fn collect(mut merge: LogMerge) -> Vec<StreamEntry> {
    let mut out = Vec::new();
    loop {
        match merge.poll_next() {
            MergePoll::Entry(entry) => out.push(entry),
            MergePoll::Finished => return out,
            other => panic!("the merge stopped with {:?}", other),
        }
    }
}

fn messages(entries: &[StreamEntry]) -> Vec<String> {
    entries
        .iter()
        .map(|entry| match entry {
            StreamEntry::LogLine { parsed_line, .. } => parsed_line.message.clone(),
        })
        .collect()
}

fn timestamps(entries: &[StreamEntry]) -> Vec<u64> {
    entries.iter().map(|entry| entry.timestamp()).collect()
}

#[test]
fn test_new() {
    let s1 = stream_of(vec![line_at(0, "s1")]);
    let s2 = stream_of(vec![line_at(0, "s2")]);
    let sources = vec![s1, s2];
    let merge = LogMerge::new(sources);
    assert!(merge.source_count() == 2);
    assert!(merge.source_state(0) == SourceState::NeedsPoll);
    assert!(merge.source_state(1) == SourceState::NeedsPoll);
}

#[test]
fn empty_streams() {
    let s1 = stream_of(vec![]);
    let sources = vec![s1];
    let merge = LogMerge::new(sources);
    let result = collect(merge);
    assert!(result.is_empty());
}

#[test]
fn test_single_stream() {
    let l1 = line_at(0, "s1");
    let l2 = line_at(1, "s1");
    let s1 = stream_of(vec![l1.clone(), l2.clone()]);
    let sources = vec![s1];
    let merge = LogMerge::new(sources);
    let result = collect(merge);
    assert_eq!(vec![l1.clone(), l2.clone()], result);
}

#[test]
fn test_multiple_streams() {
    let l11 = line_at(100, "s11");
    let l12 = line_at(300, "s12");
    let l13 = line_at(520, "s13");
    let l21 = line_at(90, "s21");
    let l22 = line_at(430, "s22");
    let l31 = line_at(120, "s31");
    let l32 = line_at(120, "s32");
    let l33 = line_at(320, "s33");
    let l34 = line_at(520, "s34");
    let s1 = stream_of(vec![l11.clone(), l12.clone(), l13.clone()]);
    let s2 = stream_of(vec![l21.clone(), l22.clone()]);
    let s3 = stream_of(vec![l31.clone(), l32.clone(), l33.clone(), l34.clone()]);
    let sources = vec![s1, s2, s3];
    let merge = LogMerge::new(sources);
    let result = collect(merge);
    assert_eq!(
        vec![
            l21.clone(),
            l11.clone(),
            l31.clone(),
            l32.clone(),
            l12.clone(),
            l33.clone(),
            l22.clone(),
            l13.clone(),
            l34.clone()
        ],
        result
    );
    assert_eq!(timestamps(&result), vec![90, 100, 120, 120, 300, 320, 430, 520, 520]);
}

#[test]
fn merge_without_sources_is_finished() {
    let mut merge = LogMerge::new(vec![]);
    assert_eq!(merge.poll_next(), MergePoll::Finished);
    assert_eq!(merge.poll_next(), MergePoll::Finished);
}

#[test]
fn equal_timestamps_go_by_the_order_of_the_sources() {
    let a = stream_of(vec![line_at(5, "a1"), line_at(5, "a2")]);
    let b = stream_of(vec![line_at(5, "b1")]);
    let result = collect(LogMerge::new(vec![a, b]));
    assert_eq!(messages(&result), vec!["a1", "a2", "b1"]);

    let a = stream_of(vec![line_at(100, "a1"), line_at(200, "a2")]);
    let b = stream_of(vec![line_at(200, "b1")]);
    let result = collect(LogMerge::new(vec![a, b]));
    assert_eq!(messages(&result), vec!["a1", "a2", "b1"]);

    let a = stream_of(vec![line_at(200, "a1")]);
    let b = stream_of(vec![line_at(100, "b1"), line_at(200, "b2"), line_at(200, "b3")]);
    let c = stream_of(vec![line_at(200, "c1")]);
    let result = collect(LogMerge::new(vec![c, a, b]));
    assert_eq!(messages(&result), vec!["b1", "c1", "a1", "b2", "b3"]);
}

#[test]
fn merge_output_is_in_time_order_for_ordered_sources() {
    let a = stream_of(vec![line_at(1, "a"), line_at(4, "a"), line_at(9, "a")]);
    let b = stream_of(vec![line_at(2, "b"), line_at(3, "b"), line_at(10, "b")]);
    let c = stream_of(vec![line_at(7, "c")]);
    let result = collect(LogMerge::new(vec![a, b, c]));
    assert_eq!(timestamps(&result), vec![1, 2, 3, 4, 7, 9, 10]);
}

#[test]
fn merge_lets_undated_lines_through_at_once() {
    let a = stream_of(vec![line_at(100, "a1"), line_at(0, "a2"), line_at(150, "a3")]);
    let b = stream_of(vec![line_at(120, "b1")]);
    let result = collect(LogMerge::new(vec![a, b]));
    assert_eq!(messages(&result), vec!["a1", "a2", "b1", "a3"]);
}

#[test]
fn failing_source_gives_exactly_one_error_entry() {
    let failing = LogStream::from_items(vec![
        Ok(line_at(10, "f1")),
        Err(ApplicationError::FailedToReadSource),
        Ok(line_at(30, "never")),
    ]);
    let sound = stream_of(vec![line_at(5, "s1"), line_at(20, "s2"), line_at(40, "s3")]);
    let result = collect(LogMerge::new(vec![failing, sound]));
    let texts = messages(&result);
    assert_eq!(
        texts,
        vec!["s1", "f1", "A tentacle failed while retrieving the log.", "s2", "s3"]
    );
    let failures: Vec<&StreamEntry> = result
        .iter()
        .filter(|entry| match entry {
            StreamEntry::LogLine { parsed_line, .. } => {
                parsed_line.message == "A tentacle failed while retrieving the log."
            }
        })
        .collect();
    assert_eq!(failures.len(), 1);
    match failures[0] {
        StreamEntry::LogLine { line, parsed_line } => {
            assert_eq!(line, "Failed while retrieving the log.");
            assert_eq!(parsed_line.loglevel, Some("ERROR".to_string()));
            assert_eq!(parsed_line.timestamp, 10);
        }
    }
}

#[test]
fn source_that_fails_at_once_is_dated_zero() {
    let failing = LogStream::from_items(vec![Err(ApplicationError::SourceNotFound)]);
    let sound = stream_of(vec![line_at(7, "s1")]);
    let mut merge = LogMerge::new(vec![failing, sound]);
    let first = merge.poll_next();
    match first {
        MergePoll::Entry(entry) => assert_eq!(entry.timestamp(), 0),
        other => panic!("unexpected {:?}", other),
    }
    assert_eq!(merge.source_state(0), SourceState::Failed);
    assert_eq!(merge.source_state(1), SourceState::Delivered);
    assert_eq!(merge.buffered(), 1);
    let rest = collect(merge);
    assert_eq!(messages(&rest), vec!["s1"]);
}

#[test]
fn source_states_follow_the_demands() {
    let a = stream_of(vec![line_at(1, "a1")]);
    let b = stream_of(vec![line_at(2, "b1")]);
    let mut merge = LogMerge::new(vec![a, b]);
    assert!(matches!(merge.poll_next(), MergePoll::Entry(_)));
    assert_eq!(merge.source_state(0), SourceState::NeedsPoll);
    assert_eq!(merge.source_state(1), SourceState::Delivered);
    assert!(matches!(merge.poll_next(), MergePoll::Entry(_)));
    assert_eq!(merge.source_state(0), SourceState::Finished);
    assert_eq!(merge.source_state(1), SourceState::NeedsPoll);
    assert_eq!(merge.poll_next(), MergePoll::Finished);
    assert_eq!(merge.source_state(1), SourceState::Finished);
}

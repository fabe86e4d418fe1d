use tentacle::data::{ParsedLine, StreamEntry};
use tentacle::logsource_port::ContentStream;
use tentacle::sink::{Delivery, DeliverySink, Pumped};
use tentacle::stream::LogStream;

fn entry(timestamp: u64, line: &str) -> StreamEntry {
    StreamEntry::LogLine {
        line: line.to_string(),
        parsed_line: ParsedLine { timestamp, loglevel: None, message: line.to_string() },
    }
}

#[test]
fn sink_takes_frames_up_to_its_limit() {
    let mut sink = DeliverySink::new(10);
    assert_eq!(sink.offer(b"12345".to_vec()), Ok(()));
    assert_eq!(sink.offer(b"678".to_vec()), Ok(()));
    assert_eq!(sink.buffered(), 8);
    assert_eq!(sink.offer(b"9ab".to_vec()), Err(b"9ab".to_vec()));
    assert_eq!(sink.offer(b"9a".to_vec()), Ok(()));
    assert_eq!(sink.buffered(), 10);
    assert_eq!(sink.offer(Vec::new()), Ok(()));
    assert_eq!(sink.offer(b"x".to_vec()), Err(b"x".to_vec()));
    assert_eq!(sink.take(), Some(b"12345".to_vec()));
    assert_eq!(sink.buffered(), 5);
    assert_eq!(sink.offer(b"x".to_vec()), Ok(()));
    assert_eq!(sink.take(), Some(b"678".to_vec()));
    assert_eq!(sink.take(), Some(b"9a".to_vec()));
    assert_eq!(sink.take(), Some(Vec::new()));
    assert_eq!(sink.take(), Some(b"x".to_vec()));
    assert_eq!(sink.take(), None);
    assert_eq!(sink.buffered(), 0);
}

#[test]
fn empty_sink_takes_a_frame_of_any_length() {
    let mut sink = DeliverySink::new(2);
    assert_eq!(sink.offer(b"far too long".to_vec()), Ok(()));
    assert_eq!(sink.offer(Vec::new()), Err(Vec::new()));
    assert_eq!(sink.take(), Some(b"far too long".to_vec()));
    let mut usual = DeliverySink::with_default_limit();
    assert_eq!(usual.offer(vec![0; 1048576]), Ok(()));
    assert_eq!(usual.offer(vec![0; 1]), Err(vec![0; 1]));
}

#[test]
fn full_sink_holds_frames_back_without_dropping_any() {
    let streams = vec![
        LogStream::from_items(vec![Ok(entry(1, "aaaa")), Ok(entry(3, "cccc"))]),
        LogStream::from_items(vec![Ok(entry(2, "bbbb")), Ok(entry(4, "dddd"))]),
    ];
    let mut delivery = Delivery::new(ContentStream::new(streams, false));
    assert_eq!(delivery.source_count(), 2);
    let mut sink = DeliverySink::new(12);
    assert_eq!(delivery.pump(&mut sink), Pumped::Queued);
    assert_eq!(delivery.pump(&mut sink), Pumped::Queued);
    // the third frame finds the queue full and waits
    assert_eq!(delivery.pump(&mut sink), Pumped::Full);
    assert_eq!(delivery.pump(&mut sink), Pumped::Full);
    assert_eq!(sink.take(), Some(b"aaaa\n".to_vec()));
    assert_eq!(delivery.pump(&mut sink), Pumped::Queued);
    assert_eq!(delivery.pump(&mut sink), Pumped::Full);
    assert_eq!(sink.take(), Some(b"bbbb\n".to_vec()));
    assert_eq!(sink.take(), Some(b"cccc\n".to_vec()));
    assert_eq!(sink.take(), None);
    assert_eq!(delivery.pump(&mut sink), Pumped::Queued);
    assert_eq!(delivery.pump(&mut sink), Pumped::Finished);
    assert_eq!(sink.take(), Some(b"dddd\n".to_vec()));
    assert_eq!(sink.take(), None);
}

use bytes::BytesMut;
use tentacle::logcodec::{utf8, without_carriage_return, CodecError, LogCodec};

fn decode_all(codec: &mut LogCodec, buf: &mut BytesMut) -> Vec<Result<String, CodecError>> {
    let mut out = Vec::new();
    loop {
        match codec.decode_eof(buf) {
            Ok(Some(line)) => out.push(Ok(line)),
            Ok(None) => return out,
            Err(error) => out.push(Err(error)),
        }
    }
}

#[test]
fn lines_are_split_at_line_feeds() {
    let mut codec = LogCodec::new(2048);
    let mut buf = BytesMut::from(&b"one\ntwo\r\n\nlast"[..]);
    assert_eq!(codec.decode(&mut buf), Ok(Some("one".to_string())));
    assert_eq!(codec.decode(&mut buf), Ok(Some("two".to_string())));
    assert_eq!(codec.decode(&mut buf), Ok(Some("".to_string())));
    assert_eq!(codec.decode(&mut buf), Ok(None));
    assert_eq!(&buf[..], b"last");
    assert_eq!(codec.decode_eof(&mut buf), Ok(Some("last".to_string())));
    assert_eq!(codec.decode_eof(&mut buf), Ok(None));
    assert!(buf.is_empty());
}

#[test]
fn decode_goes_on_when_more_bytes_arrive() {
    let mut codec = LogCodec::new(2048);
    let mut buf = BytesMut::from(&b"abc"[..]);
    assert_eq!(codec.decode(&mut buf), Ok(None));
    buf.extend_from_slice(b"de\nf");
    assert_eq!(codec.decode(&mut buf), Ok(Some("abcde".to_string())));
    assert_eq!(codec.decode(&mut buf), Ok(None));
    assert_eq!(codec.decode_eof(&mut buf), Ok(Some("f".to_string())));
}

#[test]
fn over_long_line_is_reported_once_and_skipped() {
    let mut codec = LogCodec::new(4);
    let mut buf = BytesMut::from(&b"ab\nabcdefghijkl\ncd\nabcd\nabcde\nx"[..]);
    assert_eq!(codec.max_length(), 4);
    assert_eq!(
        decode_all(&mut codec, &mut buf),
        vec![
            Ok("ab".to_string()),
            Err(CodecError::LineTooLong),
            Ok("cd".to_string()),
            Ok("abcd".to_string()),
            Err(CodecError::LineTooLong),
            Ok("x".to_string()),
        ]
    );
    assert!(!codec.is_discarding());
}

#[test]
fn over_long_last_line_ends_the_buffer() {
    let mut codec = LogCodec::new(3);
    let mut buf = BytesMut::from(&b"abcdefgh"[..]);
    assert_eq!(codec.decode(&mut buf), Err(CodecError::LineTooLong));
    assert!(codec.is_discarding());
    assert_eq!(codec.decode(&mut buf), Ok(None));
    assert!(buf.is_empty());
    assert_eq!(codec.decode_eof(&mut buf), Ok(None));
    buf.extend_from_slice(b"ij\nk\n");
    assert_eq!(codec.decode(&mut buf), Ok(Some("k".to_string())));
}

#[test]
fn lone_carriage_return_at_the_end_is_no_line() {
    let mut codec = LogCodec::new(2048);
    let mut buf = BytesMut::from(&b"a\n\r"[..]);
    assert_eq!(decode_all(&mut codec, &mut buf), vec![Ok("a".to_string())]);
    let mut buf = BytesMut::from(&b"a\nb\r"[..]);
    let mut codec = LogCodec::new(2048);
    assert_eq!(decode_all(&mut codec, &mut buf), vec![Ok("a".to_string()), Ok("b".to_string())]);
}

#[test]
fn no_limit_with_the_largest_length() {
    let mut codec = LogCodec::new(usize::MAX);
    let long = vec![b'x'; 10000];
    let mut buf = BytesMut::from(&long[..]);
    buf.extend_from_slice(b"\n");
    assert_eq!(codec.decode(&mut buf).unwrap().unwrap().len(), 10000);
}

#[test]
fn encode_appends_the_line_and_a_line_feed() {
    let mut codec = LogCodec::new(2048);
    let mut buf = BytesMut::from(&b"x"[..]);
    assert_eq!(codec.encode("grüße".to_string(), &mut buf), Ok(()));
    assert_eq!(&buf[..], "xgrüße\n".as_bytes());
}

#[test]
fn utf8_replaces_what_is_no_text() {
    assert_eq!(utf8(b"plain"), Ok("plain".to_string()));
    assert_eq!(utf8(&[0x61, 0xff, 0x62]), Ok("a\u{fffd}b".to_string()));
    assert_eq!(utf8("grüße".as_bytes()), Ok("grüße".to_string()));
}

#[test]
fn without_carriage_return_strips_one() {
    assert_eq!(without_carriage_return(b"abc\r"), b"abc");
    assert_eq!(without_carriage_return(b"abc"), b"abc");
    assert_eq!(without_carriage_return(b"abc\r\r"), b"abc\r");
    assert_eq!(without_carriage_return(b""), b"");
    assert_eq!(without_carriage_return(b"\r"), b"");
}

#[test]
fn codec_error_has_a_text() {
    assert_eq!(CodecError::LineTooLong.message(), "line length limit exceeded");
}

#[test]
fn splitter_can_start_over_on_another_buffer() {
    let mut codec = LogCodec::new(2048);
    let mut buf = BytesMut::from(&b"abc"[..]);
    assert_eq!(codec.decode(&mut buf), Ok(None));
    assert!(codec.fits_buffer(&buf));
    let mut other = BytesMut::from(&b"x\ny"[..]);
    assert!(!codec.fits_buffer(&other));
    assert!(!codec.fits_buffer(&BytesMut::new()));
    codec.rewind();
    assert!(codec.fits_buffer(&other));
    assert_eq!(codec.decode(&mut other), Ok(Some("x".to_string())));
}

//! Splitting a byte buffer into lines, with a limit on the length of a line.
//!
//! Lines end with `\n`; a `\r` in front of it is dropped. A line that is
//! longer than the limit is reported once and then skipped up to the next
//! `\n`.
use vstd::prelude::*;

verus! {

/// `bytes::BytesMut`, a growable buffer of bytes. Nothing is seen of its
/// inside: what it holds is named by [`buffered`].
#[verifier::external_type_specification]
#[verifier::external_body]
pub struct ExBytesMut(bytes::BytesMut);

/// The bytes that a `bytes::BytesMut` holds, first to last.
pub uninterp spec fn buffered(buf: bytes::BytesMut) -> Seq<u8>;

/// What `String::from_utf8_lossy` makes of a byte sequence.
pub uninterp spec fn lossy_text(bytes: Seq<u8>) -> Seq<char>;

/// Calls `bytes::BytesMut::from` on a slice. Believed: the buffer holds the
/// bytes of the slice.
#[verifier::external_body]
pub(crate) fn buffer_from(data: &[u8]) -> (buf: bytes::BytesMut)
    ensures
        buffered(buf) == data@,
{
    bytes::BytesMut::from(data)
}

/// Calls `bytes::BytesMut::len`. Believed: it is the number of bytes held.
#[verifier::external_body]
pub(crate) fn buffer_len(buf: &bytes::BytesMut) -> (len: usize)
    ensures
        len == buffered(*buf).len(),
{
    buf.len()
}

/// Reads one byte through `Deref` of `bytes::BytesMut`. Believed: it is the
/// byte held at that index. An index past the end panics: left out.
#[verifier::external_body]
pub(crate) fn buffer_byte(buf: &bytes::BytesMut, index: usize) -> (byte: u8)
    requires
        index < buffered(*buf).len(),
    ensures
        byte == buffered(*buf)[index as int],
{
    buf[index]
}

/// Calls `bytes::Buf::advance`. Believed: the first `count` bytes are gone
/// and the rest stay. More than the buffer holds panics: left out.
#[verifier::external_body]
pub(crate) fn buffer_advance(buf: &mut bytes::BytesMut, count: usize)
    requires
        count <= buffered(*old(buf)).len(),
    ensures
        buffered(*final(buf)) == buffered(*old(buf)).skip(count as int),
{
    bytes::Buf::advance(buf, count)
}

/// Calls `bytes::BytesMut::split_to`. Believed: the result holds the first
/// `at` bytes and the buffer keeps the rest. An `at` past the end panics:
/// left out.
#[verifier::external_body]
pub(crate) fn buffer_split_to(buf: &mut bytes::BytesMut, at: usize) -> (head: bytes::BytesMut)
    requires
        at <= buffered(*old(buf)).len(),
    ensures
        buffered(head) == buffered(*old(buf)).take(at as int),
        buffered(*final(buf)) == buffered(*old(buf)).skip(at as int),
{
    buf.split_to(at)
}

/// Calls `bytes::BytesMut::split`. Believed: the result holds all the bytes
/// and the buffer is left empty.
#[verifier::external_body]
pub(crate) fn buffer_split(buf: &mut bytes::BytesMut) -> (all: bytes::BytesMut)
    ensures
        buffered(all) == buffered(*old(buf)),
        buffered(*final(buf)) == Seq::<u8>::empty(),
{
    buf.split()
}

/// Copies the bytes out through `Deref` of `bytes::BytesMut` and `to_vec`.
/// Believed: the vector holds the bytes of the buffer.
#[verifier::external_body]
pub(crate) fn buffer_to_vec(buf: &bytes::BytesMut) -> (bytes: Vec<u8>)
    ensures
        bytes@ == buffered(*buf),
{
    buf.to_vec()
}

/// Calls `bytes::BytesMut::reserve`. Believed: the bytes held stay as they
/// are. A capacity beyond `usize` panics: left out.
#[verifier::external_body]
pub(crate) fn buffer_reserve(buf: &mut bytes::BytesMut, additional: usize)
    requires
        buffered(*old(buf)).len() + additional <= usize::MAX,
    ensures
        buffered(*final(buf)) == buffered(*old(buf)),
{
    buf.reserve(additional)
}

/// Calls `bytes::BufMut::put_slice`. Believed: the bytes of the slice are
/// appended. A capacity beyond `usize` panics: left out.
#[verifier::external_body]
pub(crate) fn buffer_put_slice(buf: &mut bytes::BytesMut, src: &[u8])
    requires
        buffered(*old(buf)).len() + src@.len() <= usize::MAX,
    ensures
        buffered(*final(buf)) == buffered(*old(buf)) + src@,
{
    bytes::BufMut::put_slice(buf, src)
}

/// Calls `bytes::BufMut::put_u8`. Believed: the byte is appended. A capacity
/// beyond `usize` panics: left out.
#[verifier::external_body]
pub(crate) fn buffer_put_u8(buf: &mut bytes::BytesMut, byte: u8)
    requires
        buffered(*old(buf)).len() + 1 <= usize::MAX,
    ensures
        buffered(*final(buf)) == buffered(*old(buf)).push(byte),
{
    bytes::BufMut::put_u8(buf, byte)
}

/// Calls `String::from_utf8_lossy`. Believed, as the standard library
/// documents it: bytes that are valid UTF-8 give the text they encode; what
/// other bytes give is named by [`lossy_text`].
#[verifier::external_body]
fn utf8_lossy(bytes: &[u8]) -> (text: String)
    ensures
        text@ == lossy_text(bytes@),
        vstd::utf8::valid_utf8(bytes@) ==> text@ == vstd::utf8::decode_utf8(bytes@),
{
    String::from_utf8_lossy(bytes).into_owned()
}

/// Why a buffer could not be split.
#[derive(Debug, Clone, Copy, PartialEq, Eq, Structural)]
pub enum CodecError {
    /// A line went over the length limit; what is left of it will be skipped.
    LineTooLong,
}

impl CodecError {
    /// The text of the error.
    pub fn message(&self) -> (text: String)
        ensures
            text@ == "line length limit exceeded"@,
    {
        "line length limit exceeded".to_owned()
    }
}

/// Turns the bytes of a line into text; bytes that are not UTF-8 are replaced.
pub fn utf8(buf: &[u8]) -> (text: Result<String, CodecError>)
    ensures
        text is Ok,
        text->Ok_0@ == lossy_text(buf@),
        vstd::utf8::valid_utf8(buf@) ==> text->Ok_0@ == vstd::utf8::decode_utf8(buf@),
{
    Ok(utf8_lossy(buf))
}

/// A byte sequence without the carriage return at its end, if it has one.
pub open spec fn strip_carriage_return(s: Seq<u8>) -> Seq<u8> {
    if s.len() > 0 && s.last() == 13u8 {
        s.drop_last()
    } else {
        s
    }
}

/// Strips one trailing carriage return from a byte slice, if there is one.
pub fn without_carriage_return(s: &[u8]) -> (r: &[u8])
    ensures
        r@ == strip_carriage_return(s@),
{
    let n: usize = s.len();
    if n > 0 && s[n - 1] == 13u8 {
        vstd::slice::slice_subrange(s, 0, n - 1)
    } else {
        s
    }
}

/// The state of a line splitter.
#[derive(Clone, Copy, Debug, PartialEq, Eq, PartialOrd, Ord, Hash)]
pub struct LogCodec {
    /// Where the search for `\n` goes on: no byte in front of this index of
    /// the buffer is a `\n`.
    next_index: usize,
    /// The longest line that is accepted, not counting its `\n`.
    max_length: usize,
    /// Whether the rest of a line that went over the limit is being skipped.
    is_discarding: bool,
}

/// The mathematical value of a [`LogCodec`].
pub ghost struct LogCodecView {
    pub next_index: int,
    pub max_length: int,
    pub is_discarding: bool,
}

impl View for LogCodec {
    type V = LogCodecView;

    closed spec fn view(&self) -> LogCodecView {
        LogCodecView {
            next_index: self.next_index as int,
            max_length: self.max_length as int,
            is_discarding: self.is_discarding,
        }
    }
}

/// What one step of splitting gives.
pub ghost enum Frame {
    /// A line, without its `\n` and without a `\r` in front of that.
    Line(Seq<u8>),
    /// A line went over the limit.
    TooLong,
}

/// The outcome of one step: the frame, if there is one, the state after it
/// and the bytes that are left.
pub ghost struct Step {
    pub frame: Option<Frame>,
    pub codec: LogCodecView,
    pub rest: Seq<u8>,
}

/// How far into the buffer a `\n` is looked for: one byte past the limit, or
/// to the end of the buffer where that comes first.
pub open spec fn read_limit(max_length: int, len: int) -> int {
    if max_length + 1 < len {
        max_length + 1
    } else {
        len
    }
}

/// The index of the first `\n` among the bytes from `from` up to `to`.
pub open spec fn newline_in(bytes: Seq<u8>, from: int, to: int) -> Option<int>
    decreases to - from,
{
    if from >= to {
        None
    } else if bytes[from] == 10u8 {
        Some(from)
    } else {
        newline_in(bytes, from + 1, to)
    }
}

impl LogCodecView {
    /// Whether this state belongs to a buffer with these bytes: the search
    /// index lies within what is looked at, and no `\n` lies in front of it.
    pub open spec fn fits(self, bytes: Seq<u8>) -> bool {
        &&& 0 <= self.max_length
        &&& 0 <= self.next_index <= read_limit(self.max_length, bytes.len() as int)
        &&& newline_in(bytes, 0, self.next_index) is None
    }

    pub open spec fn searching_from(self, next_index: int) -> LogCodecView {
        LogCodecView { next_index, ..self }
    }

    pub open spec fn discarding(self, is_discarding: bool) -> LogCodecView {
        LogCodecView { is_discarding, ..self }
    }

    /// One step of splitting the bytes of a buffer to which more may still be
    /// appended.
    ///
    /// While skipping, everything up to the first `\n` within reach is
    /// dropped, and the step goes on behind it; without a `\n` within
    /// reach, what was looked at is dropped, and the step ends without a
    /// frame once nothing is left. Otherwise the bytes up to the first `\n`
    /// within reach are a line; without one, a buffer that holds more than
    /// the limit gives [`Frame::TooLong`] and starts the skipping, and any
    /// other buffer gives no frame yet.
    pub open spec fn decode(self, bytes: Seq<u8>) -> Step
        decreases bytes.len(),
    {
        let limit = read_limit(self.max_length, bytes.len() as int);
        let newline = newline_in(bytes, 0, limit);
        if self.is_discarding {
            match newline {
                Some(at) => if 0 <= at < bytes.len() {
                    self.discarding(false).searching_from(0).decode(bytes.skip(at + 1))
                } else {
                    Step { frame: None, codec: self, rest: bytes }
                },
                None => if 0 < limit < bytes.len() {
                    self.searching_from(0).decode(bytes.skip(limit))
                } else {
                    Step { frame: None, codec: self.searching_from(0), rest: Seq::empty() }
                },
            }
        } else {
            match newline {
                Some(at) => Step {
                    frame: Some(Frame::Line(strip_carriage_return(bytes.take(at)))),
                    codec: self.searching_from(0),
                    rest: bytes.skip(at + 1),
                },
                None => if bytes.len() > self.max_length {
                    Step { frame: Some(Frame::TooLong), codec: self.discarding(true), rest: bytes }
                } else {
                    Step { frame: None, codec: self.searching_from(limit), rest: bytes }
                },
            }
        }
    }

    /// One step of splitting the bytes of a buffer that is complete: as
    /// [`Self::decode`], but where that gives no frame, what is left is the
    /// last line, unless nothing is left or only a `\r`.
    pub open spec fn decode_eof(self, bytes: Seq<u8>) -> Step {
        let step = self.decode(bytes);
        if step.frame is Some || step.rest.len() == 0 || step.rest == seq![13u8] {
            step
        } else {
            Step {
                frame: Some(Frame::Line(strip_carriage_return(step.rest))),
                codec: step.codec.searching_from(0),
                rest: Seq::empty(),
            }
        }
    }
}

impl Step {
    /// Whether a step has made progress on `bytes` from the state `from`: it
    /// has left fewer bytes, or it has turned to skipping.
    pub open spec fn advances(self, from: LogCodecView, bytes: Seq<u8>) -> bool {
        self.rest.len() < bytes.len() || (self.rest.len() == bytes.len() && !from.is_discarding
            && self.codec.is_discarding)
    }
}

impl LogCodecView {
    /// All the frames that a complete buffer gives, step by step.
    pub open spec fn frames(self, bytes: Seq<u8>) -> Seq<Frame>
        decreases bytes.len(), (if self.is_discarding { 0int } else { 1int }),
    {
        let step = self.decode_eof(bytes);
        match step.frame {
            None => Seq::empty(),
            Some(frame) => if step.advances(self, bytes) {
                seq![frame] + step.codec.frames(step.rest)
            } else {
                seq![frame]
            },
        }
    }

    /// All the frames that a buffer gives whose bytes were cut short: what
    /// stands behind the last line feed is no line, since its end is not
    /// known.
    pub open spec fn frames_cut_short(self, bytes: Seq<u8>) -> Seq<Frame>
        decreases bytes.len(), (if self.is_discarding { 0int } else { 1int }),
    {
        let step = self.decode(bytes);
        match step.frame {
            None => Seq::empty(),
            Some(frame) => if step.advances(self, bytes) {
                seq![frame] + step.codec.frames_cut_short(step.rest)
            } else {
                seq![frame]
            },
        }
    }
}

/// The lines of a byte sequence that were read to their end: the runs of
/// bytes in front of its line feeds, each without a carriage return at its
/// end. What stands behind the last line feed is left out.
pub open spec fn terminated_lines(bytes: Seq<u8>) -> Seq<Seq<u8>>
    decreases bytes.len(),
{
    match newline_in(bytes, 0, bytes.len() as int) {
        Some(at) => if 0 <= at < bytes.len() {
            seq![strip_carriage_return(bytes.take(at))] + terminated_lines(bytes.skip(at + 1))
        } else {
            Seq::empty()
        },
        None => Seq::empty(),
    }
}

/// Where no line is longer than the limit, splitting bytes that were cut
/// short gives exactly the lines that were read to their end, one frame for
/// each, in order.
pub proof fn lemma_frames_cut_short_are_the_lines(max_length: int, bytes: Seq<u8>)
    requires
        0 <= max_length,
        lines_within(bytes, max_length),
    ensures
        (LogCodecView { next_index: 0, max_length, is_discarding: false }).frames_cut_short(bytes)
            == line_frames(terminated_lines(bytes)),
    decreases bytes.len(),
{
    let codec = LogCodecView { next_index: 0, max_length, is_discarding: false };
    let len = bytes.len() as int;
    let limit = read_limit(max_length, len);
    lemma_newline_in_shorter(bytes, 0, limit, len);
    lemma_decode_advances(codec, bytes);
    let step = codec.decode(bytes);
    match newline_in(bytes, 0, len) {
        Some(at) => {
            lemma_newline_some(bytes, 0, len);
            let rest = bytes.skip(at + 1);
            lemma_frames_cut_short_are_the_lines(max_length, rest);
            assert(step.frame == Some(Frame::Line(strip_carriage_return(bytes.take(at)))));
            assert(step.codec == codec);
            assert(step.rest == rest);
            assert(codec.frames_cut_short(bytes) == seq![step.frame->0] + codec.frames_cut_short(
                rest,
            ));
            assert(codec.frames_cut_short(bytes) =~= line_frames(terminated_lines(bytes)));
        },
        None => {
            assert(step.frame is None);
            assert(codec.frames_cut_short(bytes) =~= line_frames(terminated_lines(bytes)));
        },
    }
}

/// A step on an unfinished buffer that gives no frame leaves a state and
/// bytes on which the next step gives none either.
pub proof fn lemma_decode_idle(codec: LogCodecView, bytes: Seq<u8>)
    requires
        codec.max_length >= 0,
        codec.decode(bytes).frame is None,
    ensures
        codec.decode(bytes).codec.decode(codec.decode(bytes).rest).frame is None,
        codec.decode(bytes).codec.frames_cut_short(codec.decode(bytes).rest).len() == 0,
    decreases bytes.len(),
{
    let limit = read_limit(codec.max_length, bytes.len() as int);
    let newline = newline_in(bytes, 0, limit);
    if newline is Some {
        lemma_newline_some(bytes, 0, limit);
    }
    if codec.is_discarding {
        match newline {
            Some(at) => {
                lemma_decode_idle(codec.discarding(false).searching_from(0), bytes.skip(at + 1));
            },
            None => {
                if 0 < limit < bytes.len() {
                    lemma_decode_idle(codec.searching_from(0), bytes.skip(limit));
                }
            },
        }
    }
}

/// The lines of a complete byte sequence: the runs of bytes between its line
/// feeds, each without a carriage return at its end. What stands behind the
/// last line feed is a line too, unless it is empty or only a carriage
/// return.
pub open spec fn split_lines(bytes: Seq<u8>) -> Seq<Seq<u8>>
    decreases bytes.len(),
{
    match newline_in(bytes, 0, bytes.len() as int) {
        Some(at) => if 0 <= at < bytes.len() {
            seq![strip_carriage_return(bytes.take(at))] + split_lines(bytes.skip(at + 1))
        } else {
            Seq::empty()
        },
        None => if bytes.len() == 0 || bytes == seq![13u8] {
            Seq::empty()
        } else {
            seq![strip_carriage_return(bytes)]
        },
    }
}

/// Whether no run of bytes between line feeds is longer than `max_length`.
pub open spec fn lines_within(bytes: Seq<u8>, max_length: int) -> bool
    decreases bytes.len(),
{
    match newline_in(bytes, 0, bytes.len() as int) {
        Some(at) => if 0 <= at < bytes.len() {
            at <= max_length && lines_within(bytes.skip(at + 1), max_length)
        } else {
            true
        },
        None => bytes.len() <= max_length,
    }
}

/// The frames of some lines.
pub open spec fn line_frames(lines: Seq<Seq<u8>>) -> Seq<Frame> {
    Seq::new(lines.len(), |i: int| Frame::Line(lines[i]))
}

/// The first line feed of a range is the first one of any shorter range that
/// still holds it, and a range without one has none in a shorter range.
pub proof fn lemma_newline_in_shorter(bytes: Seq<u8>, from: int, mid: int, to: int)
    requires
        from <= mid <= to,
    ensures
        newline_in(bytes, from, to) is Some && newline_in(bytes, from, to)->0 < mid ==> newline_in(
            bytes,
            from,
            mid,
        ) == newline_in(bytes, from, to),
        newline_in(bytes, from, to) is Some && newline_in(bytes, from, to)->0 >= mid
            ==> newline_in(bytes, from, mid) is None,
        newline_in(bytes, from, to) is None ==> newline_in(bytes, from, mid) is None,
    decreases mid - from,
{
    if from < mid {
        if bytes[from] != 10u8 {
            lemma_newline_in_shorter(bytes, from + 1, mid, to);
        }
    } else if newline_in(bytes, from, to) is Some {
        lemma_newline_some(bytes, from, to);
    }
}

/// Where no line is longer than the limit, splitting from the start gives
/// exactly the lines of the bytes, one frame for each, in order.
pub proof fn lemma_frames_are_the_lines(max_length: int, bytes: Seq<u8>)
    requires
        0 <= max_length,
        lines_within(bytes, max_length),
    ensures
        (LogCodecView { next_index: 0, max_length, is_discarding: false }).frames(bytes)
            == line_frames(split_lines(bytes)),
    decreases bytes.len(),
{
    let codec = LogCodecView { next_index: 0, max_length, is_discarding: false };
    let len = bytes.len() as int;
    let limit = read_limit(max_length, len);
    lemma_newline_in_shorter(bytes, 0, limit, len);
    lemma_decode_advances(codec, bytes);
    match newline_in(bytes, 0, len) {
        Some(at) => {
            lemma_newline_some(bytes, 0, len);
            let rest = bytes.skip(at + 1);
            lemma_frames_are_the_lines(max_length, rest);
            let step = codec.decode_eof(bytes);
            assert(step.frame == Some(Frame::Line(strip_carriage_return(bytes.take(at)))));
            assert(step.codec == codec);
            assert(step.rest == rest);
            assert(codec.frames(bytes) == seq![step.frame->0] + codec.frames(rest));
            assert(codec.frames(bytes) =~= line_frames(split_lines(bytes)));
        },
        None => {
            let step = codec.decode(bytes);
            assert(step.frame is None);
            assert(step.rest == bytes);
            if len == 0 || bytes == seq![13u8] {
                assert(codec.frames(bytes) =~= line_frames(split_lines(bytes)));
            } else {
                let last = codec.decode_eof(bytes);
                assert(last.frame == Some(Frame::Line(strip_carriage_return(bytes))));
                assert(last.rest.len() == 0);
                let empty = Seq::<u8>::empty();
                assert(last.rest =~= empty);
                assert(last.codec.decode(empty).frame is None);
                assert(last.codec.frames(empty) =~= Seq::<Frame>::empty());
                assert(codec.frames(bytes) =~= line_frames(split_lines(bytes)));
            }
        },
    }
}

/// A step never leaves more bytes than it was given and keeps the limit. One
/// that gives a frame makes progress: a line leaves fewer bytes, and so does
/// an over-long line unless it is the one that starts the skipping.
pub proof fn lemma_decode_advances(codec: LogCodecView, bytes: Seq<u8>)
    requires
        codec.max_length >= 0,
    ensures
        codec.decode(bytes).rest.len() <= bytes.len(),
        codec.decode(bytes).codec.max_length == codec.max_length,
        codec.decode(bytes).frame is Some ==> codec.decode(bytes).advances(codec, bytes),
        codec.decode_eof(bytes).rest.len() <= bytes.len(),
        codec.decode_eof(bytes).codec.max_length == codec.max_length,
        codec.decode_eof(bytes).frame is Some ==> codec.decode_eof(bytes).advances(codec, bytes),
    decreases bytes.len(),
{
    let limit = read_limit(codec.max_length, bytes.len() as int);
    let newline = newline_in(bytes, 0, limit);
    if newline is Some {
        lemma_newline_some(bytes, 0, limit);
    }
    if codec.is_discarding {
        match newline {
            Some(at) => {
                lemma_decode_advances(
                    codec.discarding(false).searching_from(0),
                    bytes.skip(at + 1),
                );
            },
            None => {
                if 0 < limit < bytes.len() {
                    lemma_decode_advances(codec.searching_from(0), bytes.skip(limit));
                }
            },
        }
    }
}

/// The first `\n` from `from` on is the first `\n` of all, where none lies
/// in front of `from`.
pub proof fn lemma_newline_in_from(bytes: Seq<u8>, from: int, to: int)
    requires
        0 <= from <= to,
        newline_in(bytes, 0, from) is None,
    ensures
        newline_in(bytes, 0, to) == newline_in(bytes, from, to),
    decreases from,
{
    if from > 0 {
        lemma_newline_none(bytes, 0, from, from - 1);
        lemma_newline_prefix(bytes, 0, from - 1, from);
        lemma_newline_in_from(bytes, from - 1, to);
    }
}

/// Without a `\n` in a range, no byte of the range is one.
pub proof fn lemma_newline_none(bytes: Seq<u8>, from: int, to: int, at: int)
    requires
        from <= at < to,
        newline_in(bytes, from, to) is None,
    ensures
        bytes[at] != 10u8,
    decreases to - from,
{
    if from < at {
        lemma_newline_none(bytes, from + 1, to, at);
    }
}

/// Without a `\n` in a range there is none in a shorter one.
pub proof fn lemma_newline_prefix(bytes: Seq<u8>, from: int, mid: int, to: int)
    requires
        from <= mid <= to,
        newline_in(bytes, from, to) is None,
    ensures
        newline_in(bytes, from, mid) is None,
    decreases mid - from,
{
    if from < mid {
        lemma_newline_prefix(bytes, from + 1, mid, to);
    }
}

/// The first `\n` of a range lies in it, is a `\n`, and has none in front.
pub proof fn lemma_newline_some(bytes: Seq<u8>, from: int, to: int)
    requires
        newline_in(bytes, from, to) is Some,
    ensures
        from <= newline_in(bytes, from, to)->0 < to,
        bytes[newline_in(bytes, from, to)->0] == 10u8,
        newline_in(bytes, from, newline_in(bytes, from, to)->0) is None,
    decreases to - from,
{
    if bytes[from] != 10u8 {
        lemma_newline_some(bytes, from + 1, to);
    }
}

/// Whether what a call returned is what a step of the splitting gives.
pub open spec fn frame_matches(returned: Result<Option<String>, CodecError>, frame: Option<Frame>) -> bool {
    match returned {
        Ok(Some(line)) => frame matches Some(Frame::Line(bytes)) && line@ == lossy_text(bytes),
        Ok(None) => frame is None,
        Err(_) => frame == Some(Frame::TooLong),
    }
}

/// Looks for the first `\n` among the bytes from `from` up to `to`.
fn find_newline(buf: &bytes::BytesMut, from: usize, to: usize) -> (found: Option<usize>)
    requires
        from <= to <= buffered(*buf).len(),
    ensures
        match found {
            Some(at) => newline_in(buffered(*buf), from as int, to as int) == Some(at as int),
            None => newline_in(buffered(*buf), from as int, to as int) is None,
        },
{
    let mut at: usize = from;
    while at < to
        invariant
            from <= at <= to <= buffered(*buf).len(),
            newline_in(buffered(*buf), from as int, to as int) == newline_in(
                buffered(*buf),
                at as int,
                to as int,
            ),
        decreases to - at,
    {
        if buffer_byte(buf, at) == 10u8 {
            return Some(at);
        }
        at += 1;
    }
    None
}

impl LogCodec {
    /// A splitter that accepts lines of up to `max_length` bytes. With
    /// `usize::MAX` there is no limit.
    pub fn new(max_length: usize) -> (codec: LogCodec)
        ensures
            codec@ == (LogCodecView {
                next_index: 0,
                max_length: max_length as int,
                is_discarding: false,
            }),
            forall|bytes: Seq<u8>| codec@.fits(bytes),
    {
        LogCodec { next_index: 0, max_length, is_discarding: false }
    }

    /// The length limit.
    pub fn max_length(&self) -> (limit: usize)
        ensures
            limit == self@.max_length,
    {
        self.max_length
    }

    /// Whether the rest of an over-long line is being skipped.
    pub fn is_discarding(&self) -> (skipping: bool)
        ensures
            skipping == self@.is_discarding,
    {
        self.is_discarding
    }

    /// Starts the search for the next `\n` over at the front of the buffer.
    /// After this the splitter can go on with any buffer.
    pub fn rewind(&mut self)
        ensures
            final(self)@ == old(self)@.searching_from(0),
            forall|bytes: Seq<u8>| final(self)@.fits(bytes),
    {
        self.next_index = 0;
    }

    /// Whether the splitter can go on with this buffer: whether it is the
    /// buffer that it has worked on, with nothing but more bytes at its end.
    pub fn fits_buffer(&self, buf: &bytes::BytesMut) -> (fits: bool)
        ensures
            fits == self@.fits(buffered(*buf)),
    {
        let len: usize = buffer_len(buf);
        let read_to: usize = if self.max_length < len {
            self.max_length + 1
        } else {
            len
        };
        if self.next_index > read_to {
            false
        } else {
            find_newline(buf, 0, self.next_index).is_none()
        }
    }

    /// Drops the part of an over-long line that has been looked at: up to and
    /// with the `\n` that was found `newline_offset` bytes behind the search
    /// index, which ends the skipping, or else up to `read_to`.
    fn discard(&mut self, newline_offset: Option<usize>, read_to: usize, buf: &mut bytes::BytesMut)
        requires
            read_to <= buffered(*old(buf)).len(),
            match newline_offset {
                Some(offset) => offset + old(self)@.next_index < read_to,
                None => true,
            },
        ensures
            final(self)@.next_index == 0,
            final(self)@.max_length == old(self)@.max_length,
            match newline_offset {
                Some(offset) => !final(self)@.is_discarding && buffered(*final(buf)) == buffered(
                    *old(buf),
                ).skip(offset + old(self)@.next_index + 1),
                None => final(self)@.is_discarding == old(self)@.is_discarding && buffered(
                    *final(buf),
                ) == buffered(*old(buf)).skip(read_to as int),
            },
    {
        let discard_to: usize = if let Some(offset) = newline_offset {
            self.is_discarding = false;
            offset + self.next_index + 1
        } else {
            read_to
        };
        buffer_advance(buf, discard_to);
        self.next_index = 0;
    }

    /// Takes the next line off the front of a buffer to which more bytes may
    /// still be appended.
    ///
    /// `Ok(None)` says that the buffer holds no complete line yet. The
    /// error says that a line went over the limit; the calls that follow
    /// skip the rest of that line.
    #[verifier::loop_isolation(false)]
    pub fn decode(&mut self, buf: &mut bytes::BytesMut) -> (line: Result<Option<String>, CodecError>)
        requires
            old(self)@.fits(buffered(*old(buf))),
        ensures
            final(self)@.fits(buffered(*final(buf))),
            final(self)@ == old(self)@.decode(buffered(*old(buf))).codec,
            buffered(*final(buf)) == old(self)@.decode(buffered(*old(buf))).rest,
            frame_matches(line, old(self)@.decode(buffered(*old(buf))).frame),
    {
        let ghost goal = self@.decode(buffered(*buf));
        loop
            invariant
                self@.fits(buffered(*buf)),
                self@.decode(buffered(*buf)) == goal,
            decreases buffered(*buf).len(),
        {
            let ghost bytes = buffered(*buf);
            let len: usize = buffer_len(buf);
            let read_to: usize = if self.max_length < len {
                self.max_length + 1
            } else {
                len
            };
            assert(read_to == read_limit(self@.max_length, bytes.len() as int));
            let newline_index = find_newline(buf, self.next_index, read_to);
            proof {
                lemma_newline_in_from(bytes, self.next_index as int, read_to as int);
                if newline_index is Some {
                    lemma_newline_some(bytes, self.next_index as int, read_to as int);
                }
            }
            if self.is_discarding {
                let newline_offset: Option<usize> = match newline_index {
                    Some(at) => Some(at - self.next_index),
                    None => None,
                };
                self.discard(newline_offset, read_to, buf);
                if newline_index.is_none() && read_to == len {
                    assert(buffered(*buf) =~= Seq::<u8>::empty());
                    return Ok(None);
                }
            } else {
                match newline_index {
                    Some(newline_at) => {
                        self.next_index = 0;
                        let head = buffer_split_to(buf, newline_at + 1);
                        let bytes_of_line = buffer_to_vec(&head);
                        let with_newline = bytes_of_line.as_slice();
                        let without_newline = vstd::slice::slice_subrange(
                            with_newline,
                            0,
                            newline_at,
                        );
                        assert(without_newline@ =~= bytes.take(newline_at as int));
                        let stripped = without_carriage_return(without_newline);
                        let text = utf8_lossy(stripped);
                        return Ok(Some(text));
                    },
                    None => {
                        if len > self.max_length {
                            self.is_discarding = true;
                            return Err(CodecError::LineTooLong);
                        } else {
                            self.next_index = read_to;
                            return Ok(None);
                        }
                    },
                }
            }
        }
    }

    /// Takes the next line off the front of a buffer that is complete: what
    /// is left behind the last `\n` is a line too, unless it is empty or only
    /// a `\r`.
    pub fn decode_eof(&mut self, buf: &mut bytes::BytesMut) -> (line: Result<
        Option<String>,
        CodecError,
    >)
        requires
            old(self)@.fits(buffered(*old(buf))),
        ensures
            final(self)@.fits(buffered(*final(buf))),
            final(self)@ == old(self)@.decode_eof(buffered(*old(buf))).codec,
            buffered(*final(buf)) == old(self)@.decode_eof(buffered(*old(buf))).rest,
            frame_matches(line, old(self)@.decode_eof(buffered(*old(buf))).frame),
    {
        match self.decode(buf) {
            Err(error) => Err(error),
            Ok(Some(frame)) => Ok(Some(frame)),
            Ok(None) => {
                let len: usize = buffer_len(buf);
                if len == 0 {
                    Ok(None)
                } else if len == 1 && buffer_byte(buf, 0) == 13u8 {
                    assert(buffered(*buf) =~= seq![13u8]);
                    Ok(None)
                } else {
                    let ghost rest = buffered(*buf);
                    assert(rest != seq![13u8]) by {
                        if rest.len() == 1 {
                            assert(rest[0] != 13u8);
                        }
                    }
                    let all = buffer_split(buf);
                    let bytes_of_line = buffer_to_vec(&all);
                    let stripped = without_carriage_return(bytes_of_line.as_slice());
                    let text = utf8_lossy(stripped);
                    self.next_index = 0;
                    Ok(Some(text))
                }
            },
        }
    }

    /// Appends a line and its `\n` to a buffer.
    pub fn encode(&mut self, line: String, buf: &mut bytes::BytesMut) -> (done: Result<
        (),
        CodecError,
    >)
        requires
            buffered(*old(buf)).len() + vstd::utf8::encode_utf8(line@).len() + 1 <= usize::MAX,
        ensures
            done is Ok,
            *final(self) == *old(self),
            buffered(*final(buf)) == buffered(*old(buf)) + vstd::utf8::encode_utf8(line@).push(
                10u8,
            ),
    {
        let bytes_of_line = line.as_str().as_bytes();
        buffer_reserve(buf, bytes_of_line.len() + 1);
        buffer_put_slice(buf, bytes_of_line);
        buffer_put_u8(buf, 10u8);
        assert(buffered(*buf) =~= buffered(*old(buf)) + vstd::utf8::encode_utf8(line@).push(10u8));
        Ok(())
    }
}

} // verus!

//! Lazy streams of entries: the lines of one file, the files of one source
//! one after the other, and entries that are already at hand.
//!
//! Nothing here touches a file. A stream that needs the bytes of a file says
//! so, and goes on once it has been handed them.
use crate::data::{ApplicationError, LogQueryContext, LogQueryContextView, ParsedLine, ParsedLineView, StreamEntry, StreamEntryView};
use crate::logcodec::{
    buffer_from, buffered, lemma_decode_advances, lemma_decode_idle, lossy_text, CodecError, Frame,
    LogCodec, LogCodecView,
};
use crate::pattern::{apply_pattern, parse_line, LinePattern, LinePatternView};
use crate::util::{modification_year, year_of, Modified};
use std::sync::Arc;
use vstd::prelude::*;
use vstd::string::*;

verus! {

/// What reading a `flate2::read::GzDecoder` over gzip data to its end
/// leaves in an empty vector, and whether the reading got to the end
/// without an error. Where it did not, the bytes are those that had been
/// unpacked when the error came.
pub uninterp spec fn gunzip(data: Seq<u8>) -> (Seq<u8>, bool);

/// Reads a `flate2::read::GzDecoder` over the data to its end with
/// `Read::read_to_end`, which keeps what was read before an error. Believed:
/// the bytes and the outcome are what [`gunzip`] names.
#[verifier::external_body]
fn gz_decode(data: &[u8]) -> (unpacked: (Vec<u8>, bool))
    ensures
        (unpacked.0@, unpacked.1) == gunzip(data@),
{
    let mut plain = Vec::new();
    let done = std::io::Read::read_to_end(&mut flate2::read::GzDecoder::new(data), &mut plain);
    (plain, done.is_ok())
}

/// What was read of a file: the bytes from its start on, and whether the
/// reading failed before the end of the file. Of a file that could not be
/// opened nothing was read, and the reading failed.
#[derive(Debug, Clone, PartialEq, Eq)]
pub struct FileRead {
    pub bytes: Vec<u8>,
    pub failed: bool,
}

/// The mathematical value of a [`FileRead`].
pub ghost struct FileReadView {
    pub bytes: Seq<u8>,
    pub failed: bool,
}

impl View for FileRead {
    type V = FileReadView;

    open spec fn view(&self) -> FileReadView {
        FileReadView { bytes: self.bytes@, failed: self.failed }
    }
}

impl FileRead {
    /// A file that was read to its end.
    pub fn whole(bytes: Vec<u8>) -> (read: FileRead)
        ensures
            read@ == (FileReadView { bytes: bytes@, failed: false }),
    {
        FileRead { bytes, failed: false }
    }

    /// A file of which only the front was read before the reading failed.
    pub fn cut_short(bytes: Vec<u8>) -> (read: FileRead)
        ensures
            read@ == (FileReadView { bytes: bytes@, failed: true }),
    {
        FileRead { bytes, failed: true }
    }

    /// A file that could not be opened.
    pub fn unreadable() -> (read: FileRead)
        ensures
            read@ == (FileReadView { bytes: Seq::empty(), failed: true }),
    {
        FileRead { bytes: Vec::new(), failed: true }
    }
}

/// What a stream answers to a demand.
#[derive(Debug, Clone, PartialEq, Eq)]
pub enum StreamPoll {
    /// The next entry.
    Entry(StreamEntry),
    /// The stream has failed; it gives nothing more.
    Failed(ApplicationError),
    /// The stream is at its end.
    Finished,
    /// Nothing for now, but the stream is not at its end.
    Pending,
    /// The stream cannot go on before it has been handed the file at this path.
    NeedsFile(String),
}

/// The mathematical value of a [`StreamPoll`].
pub ghost enum StreamAnswer {
    Entry(StreamEntryView),
    Failed(ApplicationError),
    Finished,
    Pending,
    NeedsFile(Seq<char>),
}

impl View for StreamPoll {
    type V = StreamAnswer;

    open spec fn view(&self) -> StreamAnswer {
        match self {
            StreamPoll::Entry(entry) => StreamAnswer::Entry(entry@),
            StreamPoll::Failed(error) => StreamAnswer::Failed(*error),
            StreamPoll::Finished => StreamAnswer::Finished,
            StreamPoll::Pending => StreamAnswer::Pending,
            StreamPoll::NeedsFile(path) => StreamAnswer::NeedsFile(path@),
        }
    }
}

/// The entry that stands for a line which went over the length limit.
pub open spec fn too_long_entry() -> StreamEntryView {
    StreamEntryView {
        line: "line length limit exceeded"@,
        parsed_line: ParsedLineView {
            timestamp: 0,
            loglevel: Some("ERROR"@),
            message: "line length limit exceeded"@,
        },
    }
}

/// The entry that a frame of a file gives.
pub open spec fn entry_of(pattern: LinePatternView, year: int, frame: Frame) -> StreamEntryView {
    match frame {
        Frame::Line(bytes) => StreamEntryView {
            line: lossy_text(bytes),
            parsed_line: parse_line(pattern, lossy_text(bytes), year),
        },
        Frame::TooLong => too_long_entry(),
    }
}

/// The entries that a sequence of frames gives under a filter: one for each
/// frame, in order, without those that the filter leaves out.
pub open spec fn entries_of(
    pattern: LinePatternView,
    context: LogQueryContextView,
    year: int,
    frames: Seq<Frame>,
) -> Seq<StreamEntryView>
    decreases frames.len(),
{
    if frames.len() == 0 {
        Seq::empty()
    } else {
        let entry = entry_of(pattern, year, frames[0]);
        let rest = entries_of(pattern, context, year, frames.skip(1));
        if context.matches(entry.parsed_line) {
            seq![entry] + rest
        } else {
            rest
        }
    }
}

/// The number of frames in front whose entries the filter leaves out.
pub open spec fn left_out(
    pattern: LinePatternView,
    context: LogQueryContextView,
    year: int,
    frames: Seq<Frame>,
) -> int
    decreases frames.len(),
{
    if frames.len() == 0 {
        0
    } else if context.matches(entry_of(pattern, year, frames[0]).parsed_line) {
        0
    } else {
        1 + left_out(pattern, context, year, frames.skip(1))
    }
}

/// The first entry that a sequence of frames gives comes from the first
/// frame that the filter does not leave out, and the other entries from the
/// frames behind that one.
pub proof fn lemma_first_entry(
    pattern: LinePatternView,
    context: LogQueryContextView,
    year: int,
    frames: Seq<Frame>,
)
    ensures
        0 <= left_out(pattern, context, year, frames) <= frames.len(),
        left_out(pattern, context, year, frames) == frames.len() ==> entries_of(
            pattern,
            context,
            year,
            frames,
        ).len() == 0,
        left_out(pattern, context, year, frames) < frames.len() ==> {
            let first = left_out(pattern, context, year, frames);
            let entries = entries_of(pattern, context, year, frames);
            &&& entries.len() > 0
            &&& entries[0] == entry_of(pattern, year, frames[first])
            &&& context.matches(entries[0].parsed_line)
            &&& entries.skip(1) == entries_of(pattern, context, year, frames.skip(first + 1))
        },
    decreases frames.len(),
{
    if frames.len() > 0 {
        let rest = frames.skip(1);
        let entry = entry_of(pattern, year, frames[0]);
        lemma_first_entry(pattern, context, year, rest);
        if context.matches(entry.parsed_line) {
            assert((seq![entry] + entries_of(pattern, context, year, rest)).skip(1)
                =~= entries_of(pattern, context, year, rest));
        } else {
            let first = left_out(pattern, context, year, frames);
            if first < frames.len() {
                assert(rest[first - 1] == frames[first]);
                assert(rest.skip(first) =~= frames.skip(first + 1));
            }
        }
    }
}

/// Every entry that a file gives passes the filter: it is not dated before
/// `from_ms`, and where log levels are asked for it has one of them.
pub proof fn lemma_entries_pass_filter(
    pattern: LinePatternView,
    context: LogQueryContextView,
    year: int,
    frames: Seq<Frame>,
)
    ensures
        forall|i: int|
            0 <= i < entries_of(pattern, context, year, frames).len() ==> context.matches(
                (#[trigger] entries_of(pattern, context, year, frames)[i]).parsed_line,
            ),
        forall|i: int|
            0 <= i < entries_of(pattern, context, year, frames).len() ==> {
                let line = (#[trigger] entries_of(pattern, context, year, frames)[i]).parsed_line;
                &&& line.timestamp >= context.from_ms
                &&& context.loglevels is None || (line.loglevel is Some
                    && context.loglevels->0.contains(line.loglevel->0))
            },
    decreases frames.len(),
{
    if frames.len() > 0 {
        lemma_entries_pass_filter(pattern, context, year, frames.skip(1));
    }
}

/// Without a filter nothing is lost and nothing is added: a file gives one
/// entry for each of its frames, in the order of the file, so the original
/// line of each line of the file and one marker for each line that went over
/// the length limit.
pub proof fn lemma_entries_without_filter(
    pattern: LinePatternView,
    context: LogQueryContextView,
    year: int,
    frames: Seq<Frame>,
)
    requires
        context.is_disabled(),
    ensures
        entries_of(pattern, context, year, frames).len() == frames.len(),
        forall|i: int|
            0 <= i < frames.len() ==> #[trigger] entries_of(pattern, context, year, frames)[i]
                == entry_of(pattern, year, frames[i]),
        forall|i: int|
            0 <= i < frames.len() ==> match #[trigger] frames[i] {
                Frame::Line(bytes) => entries_of(pattern, context, year, frames)[i].line
                    == lossy_text(bytes),
                Frame::TooLong => entries_of(pattern, context, year, frames)[i]
                    == too_long_entry(),
            },
    decreases frames.len(),
{
    if frames.len() > 0 {
        let rest = frames.skip(1);
        lemma_entries_without_filter(pattern, context, year, rest);
        let all = entries_of(pattern, context, year, frames);
        let tail = entries_of(pattern, context, year, rest);
        assert(all == seq![entry_of(pattern, year, frames[0])] + tail);
        assert forall|i: int| 0 <= i < frames.len() implies #[trigger] all[i] == entry_of(
            pattern,
            year,
            frames[i],
        ) by {
            if i > 0 {
                assert(all[i] == tail[i - 1]);
                assert(rest[i - 1] == frames[i]);
            }
        }
    }
}

/// Without a filter, and with no line over the length limit, a file gives
/// exactly its lines: one entry for each line, in the order of the file,
/// whose original line is the text of that line.
pub proof fn lemma_file_without_filter(
    max_line_length: int,
    content: Seq<u8>,
    pattern: LinePatternView,
    context: LogQueryContextView,
    year: int,
)
    requires
        context.is_disabled(),
        0 <= max_line_length,
        crate::logcodec::lines_within(content, max_line_length),
    ensures
        entries_of(pattern, context, year, frames_of_file(max_line_length, content)).len()
            == crate::logcodec::split_lines(content).len(),
        forall|i: int|
            0 <= i < crate::logcodec::split_lines(content).len() ==> (#[trigger] entries_of(
                pattern,
                context,
                year,
                frames_of_file(max_line_length, content),
            )[i]).line == lossy_text(crate::logcodec::split_lines(content)[i]),
{
    let frames = frames_of_file(max_line_length, content);
    crate::logcodec::lemma_frames_are_the_lines(max_line_length, content);
    lemma_entries_without_filter(pattern, context, year, frames);
}

/// Without a filter, and with no line over the length limit, a file whose
/// reading failed gives exactly the lines that were read to their end: one
/// entry for each, in the order of the file, whose original line is the text
/// of that line. What stands behind the last line feed is not given.
pub proof fn lemma_cut_short_file_without_filter(
    max_line_length: int,
    read: FileReadView,
    pattern: LinePatternView,
    context: LogQueryContextView,
    year: int,
)
    requires
        context.is_disabled(),
        0 <= max_line_length,
        read.failed,
        crate::logcodec::lines_within(read.bytes, max_line_length),
    ensures
        entries_of(pattern, context, year, frames_of_read(max_line_length, read)).len()
            == crate::logcodec::terminated_lines(read.bytes).len(),
        forall|i: int|
            0 <= i < crate::logcodec::terminated_lines(read.bytes).len() ==> (#[trigger] entries_of(
                pattern,
                context,
                year,
                frames_of_read(max_line_length, read),
            )[i]).line == lossy_text(crate::logcodec::terminated_lines(read.bytes)[i]),
{
    let frames = frames_of_read(max_line_length, read);
    crate::logcodec::lemma_frames_cut_short_are_the_lines(max_line_length, read.bytes);
    lemma_entries_without_filter(pattern, context, year, frames);
}

/// The lazy stream of the lines of one file.
pub struct FileLogStream {
    path: String,
    lines: bytes::BytesMut,
    codec: LogCodec,
    year: i32,
    watch: bool,
    opened: bool,
    cut_short: bool,
}

/// The mathematical value of a [`FileLogStream`].
pub ghost struct FileLogStreamView {
    pub path: Seq<char>,
    /// Whether the stream has been handed its file.
    pub opened: bool,
    /// Whether the stream stays pending at the end of the file.
    pub watch: bool,
    /// The year that stands in for a missing one.
    pub year: int,
    /// The longest line that is accepted.
    pub max_line_length: int,
    /// The frames that the file still holds.
    pub frames: Seq<Frame>,
}

impl FileLogStreamView {
    /// The stream after it has been handed what was read of its file, and
    /// when the file was last modified. A stream whose file was not read to
    /// its end does not watch it.
    pub open spec fn open(self, content: FileReadView, modified: Option<Modified>) -> FileLogStreamView {
        FileLogStreamView {
            opened: true,
            watch: self.watch && !plain_content(self.path, content).failed,
            year: year_of(modified),
            frames: frames_of_read(self.max_line_length, plain_content(self.path, content)),
            ..self
        }
    }

    /// What the stream answers to a demand: it asks for its file where it has
    /// not been opened; else it gives the entry of the first frame that the
    /// filter does not leave out; at the end of its frames it stays pending
    /// where the file is watched, and is finished where it is not.
    pub open spec fn answer(self, pattern: LinePatternView, context: LogQueryContextView) -> StreamAnswer {
        let first = left_out(pattern, context, self.year, self.frames);
        if !self.opened {
            StreamAnswer::NeedsFile(self.path)
        } else if 0 <= first < self.frames.len() {
            StreamAnswer::Entry(entry_of(pattern, self.year, self.frames[first]))
        } else if self.watch {
            StreamAnswer::Pending
        } else {
            StreamAnswer::Finished
        }
    }

    /// The stream after a demand: the frames up to the one that gave the
    /// entry are gone, or all of them where none gave an entry.
    pub open spec fn after_poll(self, pattern: LinePatternView, context: LogQueryContextView) -> FileLogStreamView {
        let first = left_out(pattern, context, self.year, self.frames);
        if !self.opened {
            self
        } else if 0 <= first < self.frames.len() {
            FileLogStreamView { frames: self.frames.skip(first + 1), ..self }
        } else {
            FileLogStreamView { frames: Seq::empty(), ..self }
        }
    }

    /// The entries that are still to come, under a pattern and a filter.
    pub open spec fn pending(self, pattern: LinePatternView, context: LogQueryContextView) -> Seq<
        StreamEntryView,
    > {
        entries_of(pattern, context, self.year, self.frames)
    }
}

impl View for FileLogStream {
    type V = FileLogStreamView;

    closed spec fn view(&self) -> FileLogStreamView {
        FileLogStreamView {
            path: self.path@,
            opened: self.opened,
            watch: self.watch,
            year: self.year as int,
            max_line_length: self.codec@.max_length,
            frames: if !self.opened {
                Seq::empty()
            } else if self.cut_short {
                self.codec@.frames_cut_short(buffered(self.lines))
            } else {
                self.codec@.frames(buffered(self.lines))
            },
        }
    }
}

/// Whether a path names a gzip file.
pub open spec fn is_gz(path: Seq<char>) -> bool {
    path.len() >= 3 && path.skip(path.len() - 3) == seq!['.', 'g', 'z']
}

/// The bytes of the lines of a file: what was read of it, unpacked where the
/// path names a gzip file; they are cut short where the reading or the
/// unpacking failed.
pub open spec fn plain_content(path: Seq<char>, content: FileReadView) -> FileReadView {
    if is_gz(path) {
        FileReadView {
            bytes: gunzip(content.bytes).0,
            failed: content.failed || !gunzip(content.bytes).1,
        }
    } else {
        content
    }
}

/// The frames of a file that is read from its start with a length limit.
pub open spec fn frames_of_file(max_length: int, bytes: Seq<u8>) -> Seq<Frame> {
    (LogCodecView { next_index: 0, max_length, is_discarding: false }).frames(bytes)
}

/// The frames of what was read of a file: those of the whole file, or where
/// the reading failed, those of the lines that were read to their end.
pub open spec fn frames_of_read(max_length: int, read: FileReadView) -> Seq<Frame> {
    if read.failed {
        (LogCodecView { next_index: 0, max_length, is_discarding: false }).frames_cut_short(
            read.bytes,
        )
    } else {
        frames_of_file(max_length, read.bytes)
    }
}

/// Where the last step gave no frame, a further one gives none either.
proof fn lemma_no_frames_left(codec: LogCodecView, bytes: Seq<u8>)
    requires
        codec.max_length >= 0,
        codec.decode_eof(bytes).frame is None,
    ensures
        codec.decode_eof(bytes).codec.frames(codec.decode_eof(bytes).rest).len() == 0,
{
    let step = codec.decode_eof(bytes);
    lemma_decode_settled(codec, bytes);
}

/// A step that gives no frame leaves a state and bytes on which the next
/// step gives none.
proof fn lemma_decode_settled(codec: LogCodecView, bytes: Seq<u8>)
    requires
        codec.max_length >= 0,
        codec.decode_eof(bytes).frame is None,
    ensures
        codec.decode_eof(bytes).codec.decode_eof(codec.decode_eof(bytes).rest).frame is None,
    decreases bytes.len(),
{
    let limit = crate::logcodec::read_limit(codec.max_length, bytes.len() as int);
    let newline = crate::logcodec::newline_in(bytes, 0, limit);
    if newline is Some {
        crate::logcodec::lemma_newline_some(bytes, 0, limit);
    }
    if codec.is_discarding {
        match newline {
            Some(at) => {
                lemma_decode_settled(codec.discarding(false).searching_from(0), bytes.skip(at + 1));
            },
            None => {
                if 0 < limit < bytes.len() {
                    lemma_decode_settled(codec.searching_from(0), bytes.skip(limit));
                }
            },
        }
    }
}

fn ends_with_gz(path: &str) -> (gz: bool)
    ensures
        gz == is_gz(path@),
{
    let n: usize = path.unicode_len();
    if n < 3 {
        return false;
    }
    let gz = path.get_char(n - 3) == '.' && path.get_char(n - 2) == 'g' && path.get_char(n - 1)
        == 'z';
    proof {
        let tail = path@.skip(n - 3);
        assert(tail.len() == 3);
        assert(tail[0] == path@[n - 3] && tail[1] == path@[n - 2] && tail[2] == path@[n - 1]);
        if gz {
            assert(tail =~= seq!['.', 'g', 'z']);
        } else {
            assert(seq!['.', 'g', 'z'][0] == '.' && seq!['.', 'g', 'z'][1] == 'g' && seq![
                '.',
                'g',
                'z',
            ][2] == 'z');
        }
    }
    gz
}

impl FileLogStream {
    /// Whether the splitter's state belongs to the bytes held.
    pub closed spec fn wf(&self) -> bool {
        &&& self.codec@.fits(buffered(self.lines))
        &&& !self.opened ==> buffered(self.lines).len() == 0 && self.codec@.next_index == 0
            && !self.codec@.is_discarding
    }

    /// A stream for the file at `path` that has not been opened yet. Lines of
    /// more than 2048 bytes are not accepted.
    pub fn new(path: &str) -> (stream: FileLogStream)
        ensures
            stream.wf(),
            stream@ == (FileLogStreamView {
                path: path@,
                opened: false,
                watch: false,
                year: 0,
                max_line_length: 2048,
                frames: Seq::empty(),
            }),
    {
        let empty: Vec<u8> = Vec::new();
        FileLogStream {
            path: path.to_owned(),
            lines: buffer_from(empty.as_slice()),
            codec: LogCodec::new(2048),
            year: 0,
            watch: false,
            opened: false,
            cut_short: false,
        }
    }

    /// The same stream with another length limit; for a stream that has not
    /// been opened.
    pub fn with_max_line_length(self, max_length: usize) -> (stream: FileLogStream)
        requires
            self.wf(),
            !self@.opened,
        ensures
            stream.wf(),
            stream@ == (FileLogStreamView { max_line_length: max_length as int, ..self@ }),
    {
        FileLogStream { codec: LogCodec::new(max_length), ..self }
    }

    /// The same stream, but one that stays pending at the end of its file.
    pub fn with_watch(self) -> (stream: FileLogStream)
        requires
            self.wf(),
        ensures
            stream.wf(),
            stream@ == (FileLogStreamView { watch: true, ..self@ }),
    {
        FileLogStream { watch: true, ..self }
    }

    /// Hands the stream what was read of its file, and when the file was
    /// last modified, if that is known.
    ///
    /// A file whose path ends in `.gz` is unpacked. Where the reading or the
    /// unpacking failed, the lines in front of the failure are still given;
    /// what stands behind the last line feed is dropped, and the stream ends
    /// there.
    pub fn open(&mut self, content: FileRead, modified: Option<Modified>)
        requires
            old(self).wf(),
            !old(self)@.opened,
        ensures
            final(self).wf(),
            final(self)@ == old(self)@.open(content@, modified),
    {
        let gz = ends_with_gz(self.path.as_str());
        let ghost read = content@;
        let failed = if gz {
            let (plain, done) = gz_decode(content.bytes.as_slice());
            self.lines = buffer_from(plain.as_slice());
            content.failed || !done
        } else {
            self.lines = buffer_from(content.bytes.as_slice());
            content.failed
        };
        if failed {
            self.watch = false;
        }
        self.cut_short = failed;
        self.year = modification_year(modified);
        self.opened = true;
        proof {
            assert(self.codec@ == (LogCodecView {
                next_index: 0,
                max_length: old(self)@.max_line_length,
                is_discarding: false,
            }));
            assert(buffered(self.lines) == plain_content(old(self)@.path, read).bytes);
            assert(failed == plain_content(old(self)@.path, read).failed);
        }
    }

    /// Gives the next entry of an opened file that passes the filter.
    ///
    /// At the end of the file the stream is finished, or stays pending where
    /// it watches the file.
    #[verifier::loop_isolation(false)]
    pub fn next_line(&mut self, line_pattern: &LinePattern, context: &LogQueryContext) -> (poll:
        StreamPoll)
        requires
            old(self).wf(),
            old(self)@.opened,
        ensures
            final(self).wf(),
            poll@ == old(self)@.answer(line_pattern@, context@),
            final(self)@ == old(self)@.after_poll(line_pattern@, context@),
    {
        let ghost start = self@;
        let ghost mut done: int = 0;
        assert(start.frames.skip(0) =~= start.frames);
        loop
            invariant
                self.wf(),
                self.opened,
                self.cut_short == old(self).cut_short,
                0 <= done <= start.frames.len(),
                self@ == (FileLogStreamView { frames: start.frames.skip(done), ..start }),
                left_out(line_pattern@, context@, start.year, start.frames) == done + left_out(
                    line_pattern@,
                    context@,
                    start.year,
                    start.frames.skip(done),
                ),
            decreases
                    buffered(self.lines).len(),
                    (if self.codec@.is_discarding {
                        0int
                    } else {
                        1int
                    }),
        {
            let ghost codec = self.codec@;
            let ghost bytes = buffered(self.lines);
            let ghost step = if self.cut_short {
                codec.decode(bytes)
            } else {
                codec.decode_eof(bytes)
            };
            let ghost frames = if self.cut_short {
                codec.frames_cut_short(bytes)
            } else {
                codec.frames(bytes)
            };
            proof {
                lemma_decode_advances(codec, bytes);
                assert(frames == start.frames.skip(done));
                if step.frame is Some {
                    let rest = if self.cut_short {
                        step.codec.frames_cut_short(step.rest)
                    } else {
                        step.codec.frames(step.rest)
                    };
                    assert(frames == seq![step.frame->0] + rest);
                    assert(frames[0] == step.frame->0);
                    assert(frames.skip(1) =~= rest);
                    assert(start.frames.skip(done).skip(1) =~= start.frames.skip(done + 1));
                    assert(start.frames[done] == frames[0]);
                }
            }
            let decoded = if self.cut_short {
                self.codec.decode(&mut self.lines)
            } else {
                self.codec.decode_eof(&mut self.lines)
            };
            let entry = match decoded {
                Ok(Some(line)) => {
                    let parsed_line = apply_pattern(line.as_str(), line_pattern, self.year);
                    StreamEntry::LogLine { line, parsed_line }
                },
                Err(error) => StreamEntry::LogLine {
                    line: error.message(),
                    parsed_line: ParsedLine {
                        timestamp: 0,
                        loglevel: Some("ERROR".to_owned()),
                        message: error.message(),
                    },
                },
                Ok(None) => {
                    assert(frames.len() == 0);
                    assert(self@.frames.len() == 0) by {
                        if self.cut_short {
                            lemma_decode_idle(codec, bytes);
                        } else {
                            lemma_no_frames_left(codec, bytes);
                        }
                    }
                    assert(done == start.frames.len());
                    assert(self@.frames =~= Seq::<Frame>::empty());
                    if self.watch {
                        return StreamPoll::Pending;
                    } else {
                        return StreamPoll::Finished;
                    }
                },
            };
            assert(entry@ == entry_of(line_pattern@, self.year as int, step.frame->0));
            let included = match &entry {
                StreamEntry::LogLine { line: _, parsed_line } => context.matches(parsed_line),
            };
            if included {
                return StreamPoll::Entry(entry);
            }
            proof {
                done = done + 1;
            }
        }
    }

    /// Answers a demand: asks for the file where the stream has not been
    /// opened, else gives the next entry as [`Self::next_line`] does.
    pub fn poll_next(&mut self, line_pattern: &LinePattern, context: &LogQueryContext) -> (poll:
        StreamPoll)
        requires
            old(self).wf(),
        ensures
            final(self).wf(),
            poll@ == old(self)@.answer(line_pattern@, context@),
            final(self)@ == old(self)@.after_poll(line_pattern@, context@),
    {
        if self.opened {
            self.next_line(line_pattern, context)
        } else {
            StreamPoll::NeedsFile(self.path.clone())
        }
    }

    /// The path of the file.
    pub fn path(&self) -> (path: &str)
        ensures
            path@ == self@.path,
    {
        self.path.as_str()
    }

    /// Whether the stream stays pending at the end of its file.
    pub fn watches(&self) -> (watch: bool)
        ensures
            watch == self@.watch,
    {
        self.watch
    }

    /// Whether the stream still waits for its file.
    pub fn needs_file(&self) -> (needs: bool)
        ensures
            needs == !self@.opened,
    {
        !self.opened
    }
}

/// How a stream goes on once the entries that are at hand have been given.
pub ghost enum StreamEnd {
    /// It is at its end.
    Finished,
    /// It stays pending: it watches its last file.
    Pending,
    /// It needs the file at this path.
    NeedsFile(Seq<char>),
    /// It fails with this error.
    Failed(ApplicationError),
}

/// What the files of a source answer to a demand: what the first file
/// answers that is not finished; finished where there is none.
pub open spec fn files_answer(
    files: Seq<FileLogStreamView>,
    pattern: LinePatternView,
    context: LogQueryContextView,
) -> StreamAnswer
    decreases files.len(),
{
    if files.len() == 0 {
        StreamAnswer::Finished
    } else if files[0].answer(pattern, context) is Finished {
        files_answer(files.skip(1), pattern, context)
    } else {
        files[0].answer(pattern, context)
    }
}

/// The files of a source after a demand: the finished files in front are
/// gone, and the file that has answered, if there is one, is as it is after
/// that.
pub open spec fn files_after_poll(
    files: Seq<FileLogStreamView>,
    pattern: LinePatternView,
    context: LogQueryContextView,
) -> Seq<FileLogStreamView>
    decreases files.len(),
{
    if files.len() == 0 {
        files
    } else if files[0].answer(pattern, context) is Finished {
        files_after_poll(files.skip(1), pattern, context)
    } else {
        files.update(0, files[0].after_poll(pattern, context))
    }
}

/// The entries that a sequence of files gives before anything has to be
/// waited for: those of the opened files in front, up to the first file that
/// is not opened or is watched.
pub open spec fn entries_at_hand(
    files: Seq<FileLogStreamView>,
    pattern: LinePatternView,
    context: LogQueryContextView,
) -> Seq<StreamEntryView>
    decreases files.len(),
{
    if files.len() == 0 || !files[0].opened {
        Seq::empty()
    } else if files[0].watch {
        files[0].pending(pattern, context)
    } else {
        files[0].pending(pattern, context) + entries_at_hand(files.skip(1), pattern, context)
    }
}

/// How a sequence of files goes on behind the entries that are at hand.
pub open spec fn end_of_files(files: Seq<FileLogStreamView>) -> StreamEnd
    decreases files.len(),
{
    if files.len() == 0 {
        StreamEnd::Finished
    } else if !files[0].opened {
        StreamEnd::NeedsFile(files[0].path)
    } else if files[0].watch {
        StreamEnd::Pending
    } else {
        end_of_files(files.skip(1))
    }
}

/// The files of a source after the file that they ask for has been handed
/// over: the first one that is not opened, where only opened files that are
/// not watched stand in front of it, is opened. Where there is no such file
/// they stay as they are.
pub open spec fn supply(
    files: Seq<FileLogStreamView>,
    content: FileReadView,
    modified: Option<Modified>,
) -> Seq<FileLogStreamView>
    decreases files.len(),
{
    if files.len() == 0 {
        files
    } else if !files[0].opened {
        files.update(0, files[0].open(content, modified))
    } else if files[0].watch {
        files
    } else {
        seq![files[0]] + supply(files.skip(1), content, modified)
    }
}

/// The file that is asked for is the first one that is not opened.
proof fn lemma_supply_at(
    files: Seq<FileLogStreamView>,
    k: int,
    content: FileReadView,
    modified: Option<Modified>,
)
    requires
        0 <= k <= files.len(),
        forall|i: int| 0 <= i < k ==> (#[trigger] files[i]).opened && !files[i].watch,
    ensures
        k == files.len() ==> supply(files, content, modified) == files,
        k < files.len() && files[k].opened && files[k].watch ==> supply(files, content, modified)
            == files,
        k < files.len() && !files[k].opened ==> supply(files, content, modified) == files.update(
            k,
            files[k].open(content, modified),
        ),
    decreases k,
{
    if k > 0 {
        let rest = files.skip(1);
        assert forall|i: int| 0 <= i < k - 1 implies (#[trigger] rest[i]).opened
            && !rest[i].watch by {
            assert(rest[i] == files[i + 1]);
        }
        lemma_supply_at(rest, k - 1, content, modified);
        assert(files[0].opened && !files[0].watch);
        if k == files.len() {
            assert(seq![files[0]] + rest =~= files);
        } else {
            assert(rest[k - 1] == files[k]);
            if files[k].opened && files[k].watch {
                assert(seq![files[0]] + rest =~= files);
            } else if !files[k].opened {
                assert(seq![files[0]] + rest.update(k - 1, files[k].open(content, modified))
                    =~= files.update(k, files[k].open(content, modified)));
            }
        }
    }
}

/// Files that ask for no file stay as they are when one is handed over.
pub proof fn lemma_supply_without_need(
    files: Seq<FileLogStreamView>,
    content: FileReadView,
    modified: Option<Modified>,
)
    requires
        !(end_of_files(files) is NeedsFile),
    ensures
        supply(files, content, modified) == files,
    decreases files.len(),
{
    if files.len() > 0 && files[0].opened && !files[0].watch {
        lemma_supply_without_need(files.skip(1), content, modified);
        assert(seq![files[0]] + files.skip(1) =~= files);
    }
}

/// The entries in front of the first failure of a sequence of results.
pub open spec fn entries_before_failure(
    items: Seq<Result<StreamEntryView, ApplicationError>>,
) -> Seq<StreamEntryView>
    decreases items.len(),
{
    if items.len() == 0 {
        Seq::empty()
    } else {
        match items[0] {
            Ok(entry) => seq![entry] + entries_before_failure(items.skip(1)),
            Err(_) => Seq::empty(),
        }
    }
}

/// How a sequence of results ends: with its first failure, or finished.
pub open spec fn end_of_items(items: Seq<Result<StreamEntryView, ApplicationError>>) -> StreamEnd
    decreases items.len(),
{
    if items.len() == 0 {
        StreamEnd::Finished
    } else {
        match items[0] {
            Ok(_) => end_of_items(items.skip(1)),
            Err(error) => StreamEnd::Failed(error),
        }
    }
}

/// The values of the files of a stream.
pub open spec fn file_views(files: Seq<FileLogStream>) -> Seq<FileLogStreamView> {
    Seq::new(files.len(), |i: int| files[i]@)
}

/// The value of an entry or a failure.
pub open spec fn item_view(item: Result<StreamEntry, ApplicationError>) -> Result<
    StreamEntryView,
    ApplicationError,
> {
    match item {
        Ok(entry) => Ok(entry@),
        Err(error) => Err(error),
    }
}

/// The values of some entries and failures.
pub open spec fn item_views(items: Seq<Result<StreamEntry, ApplicationError>>) -> Seq<
    Result<StreamEntryView, ApplicationError>,
> {
    Seq::new(items.len(), |i: int| item_view(items[i]))
}

/// The lazy stream of one source.
pub enum LogStream {
    /// The files of a source, read one after the other under one pattern and
    /// one filter.
    Files { line_pattern: Arc<LinePattern>, context: Arc<LogQueryContext>, files: Vec<FileLogStream> },
    /// Entries and failures that are already at hand.
    Ready { items: Vec<Result<StreamEntry, ApplicationError>> },
}

/// The mathematical value of a [`LogStream`].
pub ghost enum LogStreamView {
    Files { pattern: LinePatternView, context: LogQueryContextView, files: Seq<FileLogStreamView> },
    Ready { items: Seq<Result<StreamEntryView, ApplicationError>> },
}

impl View for LogStream {
    type V = LogStreamView;

    open spec fn view(&self) -> LogStreamView {
        match self {
            LogStream::Files { line_pattern, context, files } => LogStreamView::Files {
                pattern: line_pattern@,
                context: context@,
                files: file_views(files@),
            },
            LogStream::Ready { items } => LogStreamView::Ready { items: item_views(items@) },
        }
    }
}

impl LogStreamView {
    /// What the stream answers to a demand.
    ///
    /// The files of a source answer with what the first file answers that is
    /// not finished. Entries at hand are given one by one; a failure among
    /// them is given once.
    pub open spec fn answer(self) -> StreamAnswer {
        match self {
            LogStreamView::Files { pattern, context, files } => files_answer(
                files,
                pattern,
                context,
            ),
            LogStreamView::Ready { items } => if items.len() == 0 {
                StreamAnswer::Finished
            } else {
                match items[0] {
                    Ok(entry) => StreamAnswer::Entry(entry),
                    Err(error) => StreamAnswer::Failed(error),
                }
            },
        }
    }

    /// The stream after a demand. Behind a failure nothing is left.
    pub open spec fn after_poll(self) -> LogStreamView {
        match self {
            LogStreamView::Files { pattern, context, files } => LogStreamView::Files {
                pattern,
                context,
                files: files_after_poll(files, pattern, context),
            },
            LogStreamView::Ready { items } => if items.len() == 0 {
                self
            } else {
                match items[0] {
                    Ok(_) => LogStreamView::Ready { items: items.skip(1) },
                    Err(_) => LogStreamView::Ready { items: Seq::empty() },
                }
            },
        }
    }

    /// The stream after the file that it asks for has been handed to it. A
    /// stream that asks for no file stays as it is.
    pub open spec fn supplied(self, content: FileReadView, modified: Option<Modified>) -> LogStreamView {
        match self {
            LogStreamView::Files { pattern, context, files } => LogStreamView::Files {
                pattern,
                context,
                files: supply(files, content, modified),
            },
            LogStreamView::Ready { items } => self,
        }
    }

    /// The entries that the stream gives before it ends or has to wait.
    pub open spec fn at_hand(self) -> Seq<StreamEntryView> {
        match self {
            LogStreamView::Files { pattern, context, files } => entries_at_hand(
                files,
                pattern,
                context,
            ),
            LogStreamView::Ready { items } => entries_before_failure(items),
        }
    }

    /// How the stream goes on behind those entries.
    pub open spec fn end(self) -> StreamEnd {
        match self {
            LogStreamView::Files { pattern, context, files } => end_of_files(files),
            LogStreamView::Ready { items } => end_of_items(items),
        }
    }
}

/// How the answer of the files of a source hangs together with the entries
/// that they have at hand: the answer is the first of those entries, and the
/// others stay at hand; where none is at hand, the answer says how the files
/// go on, and they still go on so.
pub proof fn lemma_files_answer(
    files: Seq<FileLogStreamView>,
    pattern: LinePatternView,
    context: LogQueryContextView,
)
    ensures
        ({
            let at_hand = entries_at_hand(files, pattern, context);
            let after = files_after_poll(files, pattern, context);
            match files_answer(files, pattern, context) {
                StreamAnswer::Entry(entry) => {
                    &&& at_hand.len() > 0
                    &&& entry == at_hand[0]
                    &&& context.matches(entry.parsed_line)
                    &&& entries_at_hand(after, pattern, context) == at_hand.skip(1)
                    &&& end_of_files(after) == end_of_files(files)
                },
                StreamAnswer::Failed(_) => false,
                StreamAnswer::Finished => {
                    &&& at_hand.len() == 0
                    &&& end_of_files(files) == StreamEnd::Finished
                    &&& after.len() == 0
                },
                StreamAnswer::Pending => {
                    &&& at_hand.len() == 0
                    &&& end_of_files(files) == StreamEnd::Pending
                    &&& entries_at_hand(after, pattern, context).len() == 0
                    &&& end_of_files(after) == StreamEnd::Pending
                },
                StreamAnswer::NeedsFile(path) => {
                    &&& at_hand.len() == 0
                    &&& end_of_files(files) == StreamEnd::NeedsFile(path)
                    &&& entries_at_hand(after, pattern, context).len() == 0
                    &&& end_of_files(after) == StreamEnd::NeedsFile(path)
                },
            }
        }),
    decreases files.len(),
{
    if files.len() > 0 {
        let first = files[0];
        let rest = files.skip(1);
        let head = first.pending(pattern, context);
        let tail = entries_at_hand(rest, pattern, context);
        let after = files_after_poll(files, pattern, context);
        lemma_first_entry(pattern, context, first.year, first.frames);
        if first.answer(pattern, context) is Finished {
            lemma_files_answer(rest, pattern, context);
            assert(head.len() == 0);
            assert(entries_at_hand(files, pattern, context) == head + tail);
            assert(head + tail =~= tail);
        } else {
            let polled = first.after_poll(pattern, context);
            assert(after == files.update(0, polled));
            assert(after[0] == polled);
            assert(after.skip(1) =~= rest);
            match first.answer(pattern, context) {
                StreamAnswer::Entry(entry) => {
                    assert(polled.pending(pattern, context) == head.skip(1));
                    if first.watch {
                        assert(entries_at_hand(after, pattern, context) == head.skip(1));
                    } else {
                        assert(entries_at_hand(after, pattern, context) == head.skip(1) + tail);
                        assert((head + tail).skip(1) =~= head.skip(1) + tail);
                    }
                },
                StreamAnswer::Pending => {
                    assert(polled.frames.len() == 0);
                    assert(polled.pending(pattern, context).len() == 0);
                    assert(entries_at_hand(after, pattern, context) == polled.pending(
                        pattern,
                        context,
                    ));
                },
                StreamAnswer::NeedsFile(path) => {
                    assert(polled == first);
                    assert(after =~= files);
                },
                _ => {},
            }
        }
    }
}

/// How the answer of a stream hangs together with the entries that it has
/// at hand: the answer is the first of those entries, and the others stay at
/// hand; where none is at hand, the answer says how the stream goes on.
/// Behind a failure the stream is finished.
pub proof fn lemma_answer(stream: LogStreamView)
    ensures
        match stream.answer() {
            StreamAnswer::Entry(entry) => {
                &&& stream.at_hand().len() > 0
                &&& entry == stream.at_hand()[0]
                &&& stream.after_poll().at_hand() == stream.at_hand().skip(1)
                &&& stream.after_poll().end() == stream.end()
            },
            StreamAnswer::Failed(error) => {
                &&& stream.at_hand().len() == 0
                &&& stream.end() == StreamEnd::Failed(error)
                &&& stream.after_poll().at_hand().len() == 0
                &&& stream.after_poll().end() == StreamEnd::Finished
            },
            StreamAnswer::Finished => {
                &&& stream.at_hand().len() == 0
                &&& stream.end() == StreamEnd::Finished
                &&& stream.after_poll().at_hand().len() == 0
                &&& stream.after_poll().end() == StreamEnd::Finished
            },
            StreamAnswer::Pending => {
                &&& stream.at_hand().len() == 0
                &&& stream.end() == StreamEnd::Pending
                &&& stream.after_poll().at_hand().len() == 0
                &&& stream.after_poll().end() == StreamEnd::Pending
            },
            StreamAnswer::NeedsFile(path) => {
                &&& stream.at_hand().len() == 0
                &&& stream.end() == StreamEnd::NeedsFile(path)
                &&& stream.after_poll().at_hand().len() == 0
                &&& stream.after_poll().end() == StreamEnd::NeedsFile(path)
            },
        },
{
    match stream {
        LogStreamView::Files { pattern, context, files } => {
            lemma_files_answer(files, pattern, context);
        },
        LogStreamView::Ready { items } => {
            if items.len() > 0 {
                match items[0] {
                    Ok(entry) => {
                        assert((seq![entry] + entries_before_failure(items.skip(1))).skip(1)
                            =~= entries_before_failure(items.skip(1)));
                    },
                    Err(_) => {},
                }
            }
        },
    }
}

/// A stream that asks for no file stays as it is when one is handed over.
pub proof fn lemma_supplied_without_need(
    stream: LogStreamView,
    content: FileReadView,
    modified: Option<Modified>,
)
    requires
        !(stream.end() is NeedsFile),
    ensures
        stream.supplied(content, modified) == stream,
{
    match stream {
        LogStreamView::Files { pattern, context, files } => {
            lemma_supply_without_need(files, content, modified);
        },
        LogStreamView::Ready { items } => {},
    }
}

/// Every entry that the files of a source give passes the filter of the
/// request: it is not dated before `from_ms`, and where log levels are asked
/// for it has one of them.
pub proof fn lemma_files_pass_filter(
    files: Seq<FileLogStreamView>,
    pattern: LinePatternView,
    context: LogQueryContextView,
)
    ensures
        forall|i: int|
            0 <= i < entries_at_hand(files, pattern, context).len() ==> context.matches(
                (#[trigger] entries_at_hand(files, pattern, context)[i]).parsed_line,
            ),
    decreases files.len(),
{
    if files.len() > 0 && files[0].opened {
        lemma_entries_pass_filter(pattern, context, files[0].year, files[0].frames);
        if !files[0].watch {
            lemma_files_pass_filter(files.skip(1), pattern, context);
        }
    }
}

impl LogStream {
    /// Whether every file of the stream is well-formed.
    pub open spec fn wf(&self) -> bool {
        match self {
            LogStream::Files { line_pattern, context, files } => forall|i: int|
                0 <= i < files@.len() ==> (#[trigger] files@[i]).wf(),
            LogStream::Ready { items } => true,
        }
    }

    /// A stream of entries and failures that are already at hand. It ends
    /// with the first failure, or finished.
    pub fn from_items(items: Vec<Result<StreamEntry, ApplicationError>>) -> (stream: LogStream)
        ensures
            stream.wf(),
            stream@ == (LogStreamView::Ready { items: item_views(items@) }),
    {
        LogStream::Ready { items }
    }

    /// A stream over the files of a source.
    pub fn from_files(
        line_pattern: Arc<LinePattern>,
        context: Arc<LogQueryContext>,
        files: Vec<FileLogStream>,
    ) -> (stream: LogStream)
        requires
            forall|i: int| 0 <= i < files@.len() ==> (#[trigger] files@[i]).wf(),
        ensures
            stream.wf(),
            stream@ == (LogStreamView::Files {
                pattern: line_pattern@,
                context: context@,
                files: file_views(files@),
            }),
    {
        LogStream::Files { line_pattern, context, files }
    }

    /// Hands the stream what was read of the file that it asks for, and
    /// when that file was last modified, if that is known. A stream that asks
    /// for no file stays as it is.
    pub fn supply_file(&mut self, content: FileRead, modified: Option<Modified>)
        requires
            old(self).wf(),
        ensures
            final(self).wf(),
            final(self)@ == old(self)@.supplied(content@, modified),
    {
        match self {
            LogStream::Ready { items } => {},
            LogStream::Files { line_pattern, context, files } => {
                let ghost before = file_views(files@);
                let mut k: usize = 0;
                while k < files.len() && !files[k].needs_file() && !files[k].watches()
                    invariant
                        k <= files@.len(),
                        before == file_views(files@),
                        forall|i: int| 0 <= i < k ==> (#[trigger] before[i]).opened && !before[i].watch,
                    decreases files@.len() - k,
                {
                    k += 1;
                }
                proof {
                    lemma_supply_at(before, k as int, content@, modified);
                }
                if k < files.len() && files[k].needs_file() {
                    files[k].open(content, modified);
                    assert(file_views(files@) =~= before.update(
                        k as int,
                        before[k as int].open(content@, modified),
                    ));
                }
            },
        }
    }

    /// Answers a demand with the next entry at hand, or else with how the
    /// stream goes on.
    pub fn poll_next(&mut self) -> (poll: StreamPoll)
        requires
            old(self).wf(),
        ensures
            final(self).wf(),
            poll@ == old(self)@.answer(),
            final(self)@ == old(self)@.after_poll(),
    {
        match self {
            LogStream::Ready { items } => {
                if items.len() == 0 {
                    StreamPoll::Finished
                } else {
                    let ghost before = items@;
                    let first = items.remove(0);
                    assert(item_views(before)[0] == item_view(first));
                    match first {
                        Ok(entry) => {
                            assert(item_views(items@) =~= item_views(before).skip(1));
                            StreamPoll::Entry(entry)
                        },
                        Err(error) => {
                            items.clear();
                            assert(item_views(items@) =~= Seq::<
                                Result<StreamEntryView, ApplicationError>,
                            >::empty());
                            StreamPoll::Failed(error)
                        },
                    }
                }
            },
            LogStream::Files { line_pattern, context, files } => {
                poll_files(line_pattern, context, files)
            },
        }
    }
}

/// Answers a demand on the files of a source: the next entry of the first
/// file that has one, leaving out the files in front that are at their end.
#[verifier::loop_isolation(false)]
fn poll_files(line_pattern: &LinePattern, context: &LogQueryContext, files: &mut Vec<FileLogStream>) -> (poll:
    StreamPoll)
    requires
        forall|i: int| 0 <= i < old(files)@.len() ==> (#[trigger] old(files)@[i]).wf(),
    ensures
        forall|i: int| 0 <= i < final(files)@.len() ==> (#[trigger] final(files)@[i]).wf(),
        poll@ == files_answer(file_views(old(files)@), line_pattern@, context@),
        file_views(final(files)@) == files_after_poll(
            file_views(old(files)@),
            line_pattern@,
            context@,
        ),
{
    let ghost answer = files_answer(file_views(files@), line_pattern@, context@);
    let ghost after = files_after_poll(file_views(files@), line_pattern@, context@);
    while files.len() > 0
        invariant
            forall|i: int| 0 <= i < files@.len() ==> (#[trigger] files@[i]).wf(),
            files_answer(file_views(files@), line_pattern@, context@) == answer,
            files_after_poll(file_views(files@), line_pattern@, context@) == after,
        decreases files.len(),
    {
        let ghost before = file_views(files@);
        let mut first = files.remove(0);
        let ghost rest = file_views(files@);
        assert(rest =~= before.skip(1));
        assert(first@ == before[0]);
        let poll = first.poll_next(line_pattern, context);
        match poll {
            StreamPoll::Finished => {},
            _ => {
                let ghost polled = first@;
                files.insert(0, first);
                assert(file_views(files@) =~= before.update(0, polled));
                return poll;
            },
        }
    }
    assert(file_views(files@) =~= after);
    StreamPoll::Finished
}

} // verus!

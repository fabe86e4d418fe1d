//! Reading one file, or the files of a source, from start to end at once.
use crate::data::{
    ApplicationError, LogQueryContext, LogQueryContextView, ParsedLine, StreamEntry,
    StreamEntryView,
};
use crate::pattern::{parse_line, LinePattern, LinePatternView};
use crate::resolver::{FileInfo, FilePattern, FileSource};
use crate::stream::{
    entries_of, frames_of_read, plain_content, FileLogStream, FileRead, FileReadView,
    StreamPoll,
};
use crate::util::{year_of, Modified};
use vstd::prelude::*;

verus! {

/// The values of some entries.
pub open spec fn entry_views(entries: Seq<StreamEntry>) -> Seq<StreamEntryView> {
    Seq::new(entries.len(), |i: int| entries[i]@)
}

/// The entries of a file: those of its lines that pass the filter, in the
/// order of the file. Lines of more than 2048 bytes are not accepted. Of a
/// file whose reading failed, they are those of the lines that were read to
/// their end.
pub open spec fn entries_of_file(
    path: Seq<char>,
    content: FileReadView,
    modified: Option<Modified>,
    pattern: LinePatternView,
    filter: LogQueryContextView,
) -> Seq<StreamEntryView> {
    entries_of(
        pattern,
        filter,
        year_of(modified),
        frames_of_read(2048, plain_content(path, content)),
    )
}

/// Reads whole files.
pub struct LogFileStreamer;

impl LogFileStreamer {
    /// Applies a line pattern to a raw line, with `year` standing in for a
    /// missing year.
    pub fn apply_pattern(line: &str, line_pattern: &LinePattern, year: i32) -> (parsed: ParsedLine)
        ensures
            parsed@ == parse_line(line_pattern@, line@, year as int),
    {
        crate::pattern::apply_pattern(line, line_pattern, year)
    }

    /// Reads the entries of one file that pass the filter: `content` is what
    /// was read of the file, and `modified` is when it was last modified, if
    /// that is known.
    pub fn read_file(
        path: &str,
        content: FileRead,
        modified: Option<Modified>,
        line_pattern: &LinePattern,
        filter: &LogQueryContext,
    ) -> (entries: Vec<StreamEntry>)
        ensures
            entry_views(entries@) == entries_of_file(
                path@,
                content@,
                modified,
                line_pattern@,
                filter@,
            ),
    {
        let mut stream = FileLogStream::new(path);
        stream.open(content, modified);
        let ghost all = stream@.pending(line_pattern@, filter@);
        let mut entries: Vec<StreamEntry> = Vec::new();
        loop
            invariant
                stream.wf(),
                stream@.opened,
                !stream@.watch,
                all == entry_views(entries@) + stream@.pending(line_pattern@, filter@),
            ensures
                all == entry_views(entries@),
            decreases stream@.pending(line_pattern@, filter@).len(),
        {
            let ghost done = entry_views(entries@);
            let ghost left = stream@.pending(line_pattern@, filter@);
            proof {
                crate::stream::lemma_first_entry(
                    line_pattern@,
                    filter@,
                    stream@.year,
                    stream@.frames,
                );
            }
            match stream.next_line(line_pattern, filter) {
                StreamPoll::Entry(entry) => {
                    entries.push(entry);
                    assert(entry_views(entries@) =~= done.push(left[0]));
                    assert(done.push(left[0]) + left.skip(1) =~= done + left);
                },
                _ => {
                    assert(done + left =~= done);
                    break ;
                },
            }
        }
        entries
    }
}

} // verus!

//! The files of a source read from start to end, one after the other.
use crate::data::{ApplicationError, LogQueryContext, LogQueryContextView, ParsedLine, StreamEntry, StreamEntryView};
use crate::log_streamer::{entries_of_file, entry_views, LogFileStreamer};
use crate::pattern::{parse_line, LinePattern, LinePatternView};
use crate::resolver::{candidates, listing_view, paths_of, ranked, FileInfo, FilePattern, FileSource};
use crate::stream::{FileRead, FileReadView};
use crate::util::Modified;
use vstd::prelude::*;

verus! {

/// A file of a source with what was read of it.
#[derive(Debug, Clone, PartialEq, Eq)]
pub struct FileContent {
    pub path: String,
    /// Whether the path turned out to name a directory.
    pub is_dir: bool,
    /// What was read of the file.
    pub content: FileRead,
    /// When the file was last modified, if that is known.
    pub modified: Option<Modified>,
}

/// The mathematical value of a [`FileContent`].
pub ghost struct FileContentView {
    pub path: Seq<char>,
    pub is_dir: bool,
    pub content: FileReadView,
    pub modified: Option<Modified>,
}

impl View for FileContent {
    type V = FileContentView;

    open spec fn view(&self) -> FileContentView {
        FileContentView {
            path: self.path@,
            is_dir: self.is_dir,
            content: self.content@,
            modified: self.modified,
        }
    }
}

/// The values of some files.
pub open spec fn content_views(files: Seq<FileContent>) -> Seq<FileContentView> {
    Seq::new(files.len(), |i: int| files[i]@)
}

/// Whether one of the files is a directory.
pub open spec fn holds_directory(files: Seq<FileContentView>) -> bool {
    exists|i: int| 0 <= i < files.len() && (#[trigger] files[i]).is_dir
}

/// The entries of all the files, file after file.
pub open spec fn entries_of_files(
    files: Seq<FileContentView>,
    pattern: LinePatternView,
    filter: LogQueryContextView,
) -> Seq<StreamEntryView>
    decreases files.len(),
{
    if files.len() == 0 {
        Seq::empty()
    } else {
        entries_of_files(files.drop_last(), pattern, filter) + entries_of_file(
            files.last().path,
            files.last().content,
            files.last().modified,
            pattern,
            filter,
        )
    }
}

/// Reads the files of a source.
pub struct FileRepository;

impl FileRepository {
    /// Picks the files of a source out of the listing of its directory and
    /// puts them in reading order, as [`FileSource::resolve_files`] does.
    pub fn resolve_files(
        file_pattern: &FilePattern,
        from_ms: u64,
        listing: Option<&Vec<FileInfo>>,
    ) -> (files: Result<Vec<String>, ApplicationError>)
        ensures
            listing is None ==> files is Err && files->Err_0
                == ApplicationError::FailedToReadSource,
            listing is Some ==> files is Ok && crate::data::texts(files->Ok_0@) == paths_of(
                ranked(candidates(file_pattern@, from_ms, listing_view(listing->0@))),
            ),
    {
        FileSource::resolve_files(file_pattern, from_ms, listing)
    }

    /// Applies a line pattern to a raw line, with `year` standing in for a
    /// missing year.
    pub fn apply_pattern(line: &str, line_pattern: &LinePattern, year: i32) -> (parsed: ParsedLine)
        ensures
            parsed@ == parse_line(line_pattern@, line@, year as int),
    {
        crate::pattern::apply_pattern(line, line_pattern, year)
    }

    /// Reads the entries of one file that pass the filter. A directory in
    /// place of a file is an error.
    pub fn stream_file(file: FileContent, line_pattern: &LinePattern, logfilter: &LogQueryContext) -> (entries:
        Result<Vec<StreamEntry>, ApplicationError>)
        ensures
            match entries {
                Ok(entries) => !file.is_dir && entry_views(entries@) == entries_of_file(
                    file@.path,
                    file@.content,
                    file@.modified,
                    line_pattern@,
                    logfilter@,
                ),
                Err(error) => file.is_dir && error == ApplicationError::FailedToReadSource,
            },
    {
        if file.is_dir {
            Err(ApplicationError::FailedToReadSource)
        } else {
            Ok(
                LogFileStreamer::read_file(
                    file.path.as_str(),
                    file.content,
                    file.modified,
                    line_pattern,
                    logfilter,
                ),
            )
        }
    }

    /// Reads the entries of the files of a source that pass the filter, file
    /// after file. Where one of the files is a directory there is no output.
    #[verifier::loop_isolation(false)]
    pub fn stream(files: Vec<FileContent>, line_pattern: &LinePattern, logfilter: &LogQueryContext) -> (entries:
        Result<Vec<StreamEntry>, ApplicationError>)
        ensures
            match entries {
                Ok(entries) => !holds_directory(content_views(files@)) && entry_views(entries@)
                    == entries_of_files(content_views(files@), line_pattern@, logfilter@),
                Err(error) => holds_directory(content_views(files@)) && error
                    == ApplicationError::FailedToReadSource,
            },
    {
        let ghost all = content_views(files@);
        let mut files = files;
        let mut entries: Vec<StreamEntry> = Vec::new();
        let ghost mut done: int = 0;
        assert(all.take(0) =~= Seq::<FileContentView>::empty());
        while files.len() > 0
            invariant
                0 <= done,
                done + files@.len() == all.len(),
                forall|i: int| 0 <= i < files@.len() ==> (#[trigger] files@[i])@ == all[done + i],
                forall|i: int| 0 <= i < done ==> !(#[trigger] all[i]).is_dir,
                entry_views(entries@) == entries_of_files(
                    all.take(done as int),
                    line_pattern@,
                    logfilter@,
                ),
            decreases files@.len(),
        {
            let ghost before = entry_views(entries@);
            let file = files.remove(0);
            assert(file@ == all[done as int]);
            match Self::stream_file(file, line_pattern, logfilter) {
                Ok(mut more) => {
                    let ghost added = entry_views(more@);
                    entries.append(&mut more);
                    assert(entry_views(entries@) =~= before + added);
                    assert(all.take(done + 1).drop_last() =~= all.take(done as int));
                    assert(all.take(done + 1).last() == all[done as int]);
                    proof {
                        done = done + 1;
                    }
                },
                Err(error) => {
                    assert(all[done as int].is_dir);
                    return Err(error);
                },
            }
        }
        assert(all.take(done as int) =~= all);
        Ok(entries)
    }
}

} // verus!

//! From a requested id to the lazy stream of that source.
use crate::data::{ApplicationError, LogQueryContext, LogQueryContextView};
use crate::resolver::{
    candidates, listing_view, ranked, readable_files, unopened_files, FileInfo, FileInfoView,
    FileSource,
};
use crate::source::{LogSource, LogSourceView};
use crate::state::{has_id_at, ids_unique, ServerState};
use crate::stream::{LogStream, LogStreamView};
use std::sync::Arc;
use vstd::prelude::*;

verus! {

/// What the service is asked to do.
#[derive(Debug, Clone, PartialEq, Eq)]
pub enum LogSourceServiceMessage {
    /// Stream the file at this path.
    StreamFilePath(String),
}

impl LogSourceServiceMessage {
    /// The path of the file that is asked for.
    pub fn path(&self) -> (path: &String)
        ensures
            self == LogSourceServiceMessage::StreamFilePath(*path),
    {
        match self {
            LogSourceServiceMessage::StreamFilePath(path) => path,
        }
    }
}

/// Makes the streams of requested sources.
pub struct LogSourceService;

/// Whether a stream is the one of a file source under a filter, made from
/// the listing of its directory: over the files of the source in reading
/// order, none of them opened yet, the last one watched where the filter
/// asks for it.
pub open spec fn is_stream_of(
    stream: LogStreamView,
    source: LogSourceView,
    filter: LogQueryContextView,
    listing: Seq<FileInfoView>,
) -> bool {
    &&& source matches LogSourceView::File { id, file_pattern, line_pattern }
    &&& stream == (LogStreamView::Files {
        pattern: line_pattern,
        context: filter,
        files: unopened_files(
            ranked(candidates(file_pattern, filter.from_ms, listing)),
            filter.watch == Some(true),
        ),
    })
}

/// The value of an optional listing.
pub open spec fn option_listing(listing: Option<&Vec<FileInfo>>) -> Option<Seq<FileInfoView>> {
    match listing {
        Some(entries) => Some(listing_view(entries@)),
        None => None,
    }
}

/// Why the stream of the source with this id cannot be made; `None` where it
/// can. No source with the id: the source is not found. A journal, a
/// directory that could not be read, or a directory among the files of the
/// source: the source cannot be read.
pub open spec fn request_fault(
    state: Seq<LogSourceView>,
    id: Seq<char>,
    from_ms: u64,
    listing: Option<Seq<FileInfoView>>,
) -> Option<ApplicationError> {
    if forall|i: int| !has_id_at(state, id, i) {
        Some(ApplicationError::SourceNotFound)
    } else {
        let at = choose|i: int| has_id_at(state, id, i);
        match state[at] {
            LogSourceView::Journal { .. } => Some(ApplicationError::FailedToReadSource),
            LogSourceView::File { id, file_pattern, line_pattern } => {
                if listing is None || !readable_files(
                    ranked(candidates(file_pattern, from_ms, listing->0)),
                ) {
                    Some(ApplicationError::FailedToReadSource)
                } else {
                    None
                }
            },
        }
    }
}

impl LogSourceService {
    /// Makes the lazy stream of the source with this id, from the listing of
    /// the directory that its files are in (`None` where that could not be
    /// read).
    ///
    /// Fails with `SourceNotFound` where no source has the id, and with
    /// `FailedToReadSource` where the source is a journal, the directory
    /// could not be read, or a file of the source is a directory.
    pub fn create_content_stream(
        id: &str,
        state: &ServerState,
        logfilter: &Arc<LogQueryContext>,
        listing: Option<&Vec<FileInfo>>,
    ) -> (stream: Result<LogStream, ApplicationError>)
        ensures
            ids_unique(state@),
            match stream {
                Ok(_) => request_fault(state@, id@, logfilter@.from_ms, option_listing(listing))
                    is None,
                Err(error) => request_fault(
                    state@,
                    id@,
                    logfilter@.from_ms,
                    option_listing(listing),
                ) == Some(error),
            },
            (forall|i: int| !has_id_at(state@, id@, i)) ==> stream is Err && stream->Err_0
                == ApplicationError::SourceNotFound,
            stream is Ok ==> stream->Ok_0.wf() && forall|i: int|
                has_id_at(state@, id@, i) ==> is_stream_of(
                    stream->Ok_0@,
                    #[trigger] state@[i],
                    logfilter@,
                    option_listing(listing)->0,
                ),
    {
        let lookup = state.lookup_source(id);
        match lookup {
            Some(logsource) => {
                proof {
                    let found = choose|i: int|
                        has_id_at(state@, id@, i) && logsource@ == #[trigger] state@[i];
                    assert forall|i: int| has_id_at(state@, id@, i) implies i == found by {
                        if i < found {
                            assert(state@[i].id() != state@[found].id());
                        } else if i > found {
                            assert(state@[found].id() != state@[i].id());
                        }
                    }
                    let at = choose|i: int| has_id_at(state@, id@, i);
                    assert(at == found);
                }
                match logsource {
                    LogSource::File { id: _, file_pattern, line_pattern } => {
                        FileSource::create_stream(file_pattern, line_pattern, logfilter, listing)
                    },
                    LogSource::Journal { id: _, unit: _, line_pattern: _ } => Err(
                        ApplicationError::FailedToReadSource,
                    ),
                }
            },
            None => Err(ApplicationError::SourceNotFound),
        }
    }
}

} // verus!

//! What the transport needs of the pipeline: how sources are listed, how a
//! query becomes a filter, how requested ids become streams, and how merged
//! entries become the bytes of the response body.
use crate::data::{
    option_text, texts, ApplicationError, LogQueryContext, LogQueryContextView, ParsedLine,
    ParsedLineView, StreamEntry, StreamEntryView,
};
use crate::log_merge::{stream_views, LogMerge, MergePoll};
use crate::logsource_svc::{is_stream_of, option_listing, request_fault, LogSourceService};
use crate::merge_model::{MergeAnswer, MergeModel, SourceModel};
use crate::resolver::{folder_of, listing_view, FileInfo, FileInfoView, FileSource};
use crate::source::{LogSource, LogSourceView};
use crate::state::{has_id_at, ServerState};
use crate::stream::{FileRead, LogStream, LogStreamView};
use crate::text::{same_text, split_on, split_text};
use crate::util::Modified;
use std::sync::Arc;
use vstd::prelude::*;
use vstd::string::*;

verus! {

/// The bytes that `serde_json::to_vec` writes for the JSON object with the
/// three members `k1: v1`, `k2: v2` and `k3: v3`, put in in this order;
/// `None` where it fails.
pub uninterp spec fn json_record(
    k1: Seq<char>,
    v1: u64,
    k2: Seq<char>,
    v2: Option<Seq<char>>,
    k3: Seq<char>,
    v3: Seq<char>,
) -> Option<Seq<u8>>;

/// Puts the three members into a `serde_json::Map` with `insert` and calls
/// `serde_json::to_vec` on the object. Believed: the result is what
/// [`json_record`] names.
#[verifier::external_body]
fn json_object(k1: &str, v1: u64, k2: &str, v2: &Option<String>, k3: &str, v3: &str) -> (bytes:
    Option<Vec<u8>>)
    ensures
        match bytes {
            Some(bytes) => json_record(k1@, v1, k2@, option_text(*v2), k3@, v3@) == Some(bytes@),
            None => json_record(k1@, v1, k2@, option_text(*v2), k3@, v3@) is None,
        },
{
    let mut object = serde_json::Map::new();
    object.insert(k1.to_string(), serde_json::Value::from(v1));
    object.insert(k2.to_string(), serde_json::Value::from(v2.clone()));
    object.insert(k3.to_string(), serde_json::Value::from(v3));
    serde_json::to_vec(&serde_json::Value::Object(object)).ok()
}

/// The kind of a source, as it is listed.
#[derive(Debug, Clone, Copy, PartialEq, Eq, Structural)]
pub enum LogSourceType {
    File,
    Journal,
}

/// A source as it is listed: its kind, its id, and of its other parts those
/// that it has.
#[derive(Debug, Clone, PartialEq, Eq)]
pub struct LogSourceRepr {
    pub src_type: LogSourceType,
    pub id: String,
    pub line_pattern: Option<String>,
    pub file_pattern: Option<String>,
    pub unit: Option<String>,
}

/// The mathematical value of a [`LogSourceRepr`].
pub ghost struct LogSourceReprView {
    pub src_type: LogSourceType,
    pub id: Seq<char>,
    pub line_pattern: Option<Seq<char>>,
    pub file_pattern: Option<Seq<char>>,
    pub unit: Option<Seq<char>>,
}

impl View for LogSourceRepr {
    type V = LogSourceReprView;

    open spec fn view(&self) -> LogSourceReprView {
        LogSourceReprView {
            src_type: self.src_type,
            id: self.id@,
            line_pattern: option_text(self.line_pattern),
            file_pattern: option_text(self.file_pattern),
            unit: option_text(self.unit),
        }
    }
}

/// How a source is listed.
pub open spec fn listed(source: LogSourceView) -> LogSourceReprView {
    match source {
        LogSourceView::File { id, file_pattern, line_pattern } => LogSourceReprView {
            src_type: LogSourceType::File,
            id,
            line_pattern: Some(line_pattern.raw),
            file_pattern: Some(file_pattern),
            unit: None,
        },
        LogSourceView::Journal { id, unit, line_pattern } => LogSourceReprView {
            src_type: LogSourceType::Journal,
            id,
            line_pattern: Some(line_pattern.raw),
            file_pattern: None,
            unit: Some(unit),
        },
    }
}

impl LogSourceRepr {
    /// The listing of a source.
    pub fn from(src: &LogSource) -> (repr: LogSourceRepr)
        ensures
            repr@ == listed(src@),
    {
        match src {
            LogSource::File { id, file_pattern, line_pattern } => LogSourceRepr {
                src_type: LogSourceType::File,
                id: id.clone(),
                line_pattern: Some(line_pattern.raw.clone()),
                file_pattern: Some(file_pattern.as_str().to_owned()),
                unit: None,
            },
            LogSource::Journal { id, unit, line_pattern } => LogSourceRepr {
                src_type: LogSourceType::Journal,
                id: id.clone(),
                line_pattern: Some(line_pattern.raw.clone()),
                file_pattern: None,
                unit: Some(unit.clone()),
            },
        }
    }
}

/// What a client hands in to name a source: its kind, and its path where
/// it has one.
#[derive(Debug, Clone, PartialEq, Eq)]
pub struct LogSourceSpec {
    pub src_type: LogSourceType,
    pub path: Option<String>,
}

/// The listings of some sources.
pub open spec fn all_listed(sources: Seq<LogSource>) -> Seq<LogSourceReprView> {
    Seq::new(sources.len(), |i: int| listed(sources[i]@))
}

/// The values of some listings.
pub open spec fn repr_views(reprs: Seq<LogSourceRepr>) -> Seq<LogSourceReprView> {
    Seq::new(reprs.len(), |i: int| reprs[i]@)
}

/// Lists the sources, in their order.
pub fn get_sources(sources: &Vec<LogSource>) -> (dto: Vec<LogSourceRepr>)
    ensures
        repr_views(dto@) == all_listed(sources@),
{
    let mut dto: Vec<LogSourceRepr> = Vec::new();
    let mut i: usize = 0;
    while i < sources.len()
        invariant
            i <= sources.len(),
            dto@.len() == i,
            forall|k: int| 0 <= k < i ==> (#[trigger] dto@[k])@ == listed(sources@[k]@),
        decreases sources.len() - i,
    {
        dto.push(LogSourceRepr::from(&sources[i]));
        i += 1;
    }
    assert(repr_views(dto@) =~= all_listed(sources@));
    dto
}

/// The parameters of a content query, as the client gave them.
#[derive(Debug, Clone, PartialEq, Eq)]
pub struct QueryParameters {
    /// The earliest timestamp asked for, in Unix milliseconds.
    pub from_ms: Option<i64>,
    /// The log levels asked for, separated by commas.
    pub loglevels: Option<String>,
    /// Whether the client wants to follow the live file.
    pub watch: Option<bool>,
}

/// The filter that the parameters of a query ask for: entries from `from_ms`
/// on, which is 0 where none is given and for one below 0, since no entry is
/// dated before 0; and the log levels between the commas, where any are given.
pub open spec fn filter_of(
    from_ms: Option<i64>,
    loglevels: Option<Seq<char>>,
    watch: Option<bool>,
) -> LogQueryContextView {
    LogQueryContextView {
        from_ms: match from_ms {
            Some(ms) => if ms > 0 {
                ms as u64
            } else {
                0
            },
            None => 0,
        },
        loglevels: match loglevels {
            Some(text) => Some(split_on(text, ',')),
            None => None,
        },
        watch,
    }
}

/// Makes the filter of a request from the parameters of the query.
pub fn logfilter_from_query(parameters: &QueryParameters) -> (context: LogQueryContext)
    ensures
        context@ == filter_of(
            parameters.from_ms,
            option_text(parameters.loglevels),
            parameters.watch,
        ),
{
    LogQueryContext {
        from_ms: match parameters.from_ms {
            Some(ms) => if ms > 0 {
                ms as u64
            } else {
                0
            },
            None => 0,
        },
        loglevels: match &parameters.loglevels {
            Some(text) => Some(split_text(text.as_str(), ',')),
            None => None,
        },
        watch: parameters.watch,
    }
}

/// The ids of a request: the parts of the path segment between its commas.
pub fn requested_ids(ids: &str) -> (parts: Vec<String>)
    ensures
        texts(parts@) == split_on(ids@, ','),
{
    split_text(ids, ',')
}

/// The HTTP status that an error is reported with.
pub fn status_of(error: &ApplicationError) -> (status: u16)
    ensures
        status == match error {
            ApplicationError::SourceNotFound => 404u16,
            ApplicationError::FailedToReadSource => 500u16,
        },
{
    match error {
        ApplicationError::SourceNotFound => 404,
        ApplicationError::FailedToReadSource => 500,
    }
}

/// Whether the body is JSON, for what the client accepts: plain text for
/// `*/*` and `text/plain`, JSON for `application/json`, and `None`, which is
/// answered with status 406, for anything else.
pub fn negotiate(accept: &str) -> (as_json: Option<bool>)
    ensures
        as_json == if accept@ == "*/*"@ || accept@ == "text/plain"@ {
            Some(false)
        } else if accept@ == "application/json"@ {
            Some(true)
        } else {
            None
        },
{
    if same_text(accept, "*/*") || same_text(accept, "text/plain") {
        Some(false)
    } else if same_text(accept, "application/json") {
        Some(true)
    } else {
        None
    }
}

/// The content type of the body.
pub fn content_type(as_json: bool) -> (name: &'static str)
    ensures
        name@ == if as_json {
            "application/json"@
        } else {
            "text/plain"@
        },
{
    if as_json {
        "application/json"
    } else {
        "text/plain"
    }
}

/// Turns merged entries into the frames of a response body, one after the
/// other, in the order in which they come.
#[derive(Debug, Clone, Copy, PartialEq, Eq)]
pub struct ResponseEncoder {
    as_json: bool,
    last_ts: u64,
}

/// The mathematical value of a [`ResponseEncoder`].
pub ghost struct ResponseEncoderView {
    /// Whether frames are JSON records; else they are the original lines.
    pub as_json: bool,
    /// The last timestamp above 0 that went into a JSON frame, 0 at the start.
    pub last_ts: u64,
}

impl View for ResponseEncoder {
    type V = ResponseEncoderView;

    closed spec fn view(&self) -> ResponseEncoderView {
        ResponseEncoderView { as_json: self.as_json, last_ts: self.last_ts }
    }
}

impl ResponseEncoderView {
    /// The timestamp that an entry gets in a JSON frame: its own, or the
    /// last one above 0 where it has none.
    pub open spec fn filled(self, timestamp: u64) -> u64 {
        if timestamp == 0 {
            self.last_ts
        } else {
            timestamp
        }
    }

    /// The frame of an entry; `None` where it cannot be written.
    pub open spec fn frame(self, entry: StreamEntryView) -> Option<Seq<u8>> {
        if self.as_json {
            match json_record(
                "timestamp"@,
                self.filled(entry.parsed_line.timestamp),
                "loglevel"@,
                entry.parsed_line.loglevel,
                "message"@,
                entry.parsed_line.message,
            ) {
                Some(bytes) => Some(bytes.push(10u8)),
                None => None,
            }
        } else {
            Some(vstd::utf8::encode_utf8(entry.line).push(10u8))
        }
    }

    /// The encoder after an entry.
    pub open spec fn after(self, entry: StreamEntryView) -> ResponseEncoderView {
        if self.as_json {
            ResponseEncoderView { last_ts: self.filled(entry.parsed_line.timestamp), ..self }
        } else {
            self
        }
    }
}

impl ResponseEncoder {
    /// An encoder at the start of a body.
    pub fn new(as_json: bool) -> (encoder: ResponseEncoder)
        ensures
            encoder@ == (ResponseEncoderView { as_json, last_ts: 0 }),
    {
        ResponseEncoder { as_json, last_ts: 0 }
    }

    /// Writes the frame of the next entry.
    ///
    /// As text it is the original line and a line feed. As JSON it is the
    /// record of the timestamp, the log level and the message, and a line
    /// feed; an entry without a timestamp gets the last one that was written.
    pub fn encode(&mut self, entry: StreamEntry) -> (frame: Result<Vec<u8>, ApplicationError>)
        ensures
            final(self)@ == old(self)@.after(entry@),
            match frame {
                Ok(bytes) => old(self)@.frame(entry@) == Some(bytes@),
                Err(error) => old(self)@.frame(entry@) is None && error
                    == ApplicationError::FailedToReadSource,
            },
    {
        match entry {
            StreamEntry::LogLine { line, parsed_line } => {
                if self.as_json {
                    let timestamp: u64 = if parsed_line.timestamp == 0 {
                        self.last_ts
                    } else {
                        parsed_line.timestamp
                    };
                    self.last_ts = timestamp;
                    match json_object(
                        "timestamp",
                        timestamp,
                        "loglevel",
                        &parsed_line.loglevel,
                        "message",
                        parsed_line.message.as_str(),
                    ) {
                        Some(mut bytes) => {
                            bytes.push(10u8);
                            Ok(bytes)
                        },
                        None => Err(ApplicationError::FailedToReadSource),
                    }
                } else {
                    let mut bytes = line.as_str().as_bytes_vec();
                    bytes.push(10u8);
                    Ok(bytes)
                }
            },
        }
    }
}

/// What a demand for the next frame of a body is answered with.
#[derive(Debug, Clone, PartialEq, Eq)]
pub enum FramePoll {
    /// The next frame.
    Frame(Vec<u8>),
    /// The next entry could not be written.
    Failed(ApplicationError),
    /// The body is complete.
    Finished,
    /// Nothing can be written before some source has answered.
    Pending,
    /// The source with this index cannot go on before it has been handed the
    /// file at this path.
    NeedsFile { source: usize, path: String },
}

/// The body of a response: the merge of the requested sources, and the
/// encoder that writes its entries.
pub struct ContentStream {
    merge: LogMerge,
    encoder: ResponseEncoder,
}

impl ContentStream {
    /// Whether the merge is in a state that it can reach.
    pub closed spec fn wf(&self) -> bool {
        self.merge.wf()
    }

    /// The state of the merge.
    pub closed spec fn merge(&self) -> MergeModel {
        self.merge@
    }

    /// The state of the encoder.
    pub closed spec fn encoder(&self) -> ResponseEncoderView {
        self.encoder@
    }

    /// The body over these streams.
    pub fn new(streams: Vec<LogStream>, as_json: bool) -> (body: ContentStream)
        requires
            forall|s: int| 0 <= s < streams@.len() ==> (#[trigger] streams@[s]).wf(),
        ensures
            body.wf(),
            body.merge() == MergeModel::start(stream_views(streams@)),
            body.encoder() == (ResponseEncoderView { as_json, last_ts: 0 }),
    {
        ContentStream { merge: LogMerge::new(streams), encoder: ResponseEncoder::new(as_json) }
    }

    /// Answers a demand for the next frame: what the merge answers, with an
    /// entry turned into its frame. The frames come in the order in which the
    /// merge emits the entries.
    pub fn next_frame(&mut self) -> (poll: FramePoll)
        requires
            old(self).wf(),
        ensures
            final(self).wf(),
            final(self).merge() == old(self).merge().demand().0,
            match old(self).merge().demand().1 {
                MergeAnswer::Entry(entry) => {
                    &&& final(self).encoder() == old(self).encoder().after(entry)
                    &&& match poll {
                        FramePoll::Frame(bytes) => old(self).encoder().frame(entry) == Some(bytes@),
                        FramePoll::Failed(error) => old(self).encoder().frame(entry) is None
                            && error == ApplicationError::FailedToReadSource,
                        _ => false,
                    }
                },
                MergeAnswer::Finished => poll == FramePoll::Finished && final(self).encoder()
                    == old(self).encoder(),
                MergeAnswer::Pending => poll == FramePoll::Pending && final(self).encoder() == old(
                    self,
                ).encoder(),
                MergeAnswer::NeedsFile { source, path } => {
                    &&& poll matches FramePoll::NeedsFile { source: wanted, path: file }
                    &&& wanted == source
                    &&& file@ == path
                    &&& final(self).encoder() == old(self).encoder()
                },
            },
    {
        match self.merge.poll_next() {
            MergePoll::Entry(entry) => match self.encoder.encode(entry) {
                Ok(bytes) => FramePoll::Frame(bytes),
                Err(error) => FramePoll::Failed(error),
            },
            MergePoll::Finished => FramePoll::Finished,
            MergePoll::Pending => FramePoll::Pending,
            MergePoll::NeedsFile { source, path } => FramePoll::NeedsFile { source, path },
        }
    }

    /// The number of sources.
    pub fn source_count(&self) -> (n: usize)
        ensures
            n == self.merge().sources.len(),
    {
        self.merge.source_count()
    }

    /// Hands the source with index `source` the file that it asks for, as
    /// [`LogMerge::supply_file`] does.
    pub fn supply_file(&mut self, source: usize, content: FileRead, modified: Option<Modified>)
        requires
            old(self).wf(),
            source < old(self).merge().sources.len(),
        ensures
            final(self).wf(),
            final(self).encoder() == old(self).encoder(),
            final(self).merge() == old(self).merge().supplied(
                source as int,
                content@,
                modified,
            ),
    {
        self.merge.supply_file(source, content, modified);
    }
}

/// The directory that has to be listed for the source with this id; `None`
/// where no file source has the id, or where its file pattern names no
/// directory.
pub open spec fn folder_for(state: Seq<LogSourceView>, id: Seq<char>) -> Option<Seq<char>> {
    if forall|i: int| !has_id_at(state, id, i) {
        None
    } else {
        match state[choose|i: int| has_id_at(state, id, i)] {
            LogSourceView::File { id, file_pattern, line_pattern } => folder_of(file_pattern),
            LogSourceView::Journal { .. } => None,
        }
    }
}

/// The directories that have to be listed before the body of a content
/// query can be made: one for each requested id, in the order of the ids.
#[verifier::loop_isolation(false)]
pub fn folders_to_list(id: &str, state: &ServerState) -> (folders: Vec<Option<String>>)
    ensures
        folders@.len() == split_on(id@, ',').len(),
        forall|i: int|
            0 <= i < folders@.len() ==> option_text(#[trigger] folders@[i]) == folder_for(
                state@,
                split_on(id@, ',')[i],
            ),
{
    let ids = requested_ids(id);
    let ghost names = texts(ids@);
    let mut folders: Vec<Option<String>> = Vec::new();
    let mut i: usize = 0;
    while i < ids.len()
        invariant
            i <= ids@.len(),
            folders@.len() == i,
            forall|k: int|
                0 <= k < i ==> option_text(#[trigger] folders@[k]) == folder_for(state@, names[k]),
        decreases ids@.len() - i,
    {
        assert(names[i as int] == ids@[i as int]@);
        let folder = match state.lookup_source(ids[i].as_str()) {
            Some(source) => {
                proof {
                    let key = names[i as int];
                    let found = choose|j: int|
                        has_id_at(state@, key, j) && source@ == #[trigger] state@[j];
                    let at = choose|j: int| has_id_at(state@, key, j);
                    assert(at == found) by {
                        if at < found {
                            assert(state@[at].id() != state@[found].id());
                        } else if at > found {
                            assert(state@[found].id() != state@[at].id());
                        }
                    }
                }
                match source {
                    LogSource::File { id: _, file_pattern, line_pattern: _ } => FileSource::folder(
                        file_pattern,
                    ),
                    LogSource::Journal { id: _, unit: _, line_pattern: _ } => None,
                }
            },
            None => None,
        };
        folders.push(folder);
        i += 1;
    }
    folders
}

/// The listing that belongs to the id with index `i`; `None`, which stands
/// for a directory that could not be read, where there is none.
pub open spec fn listing_for(listings: Seq<Option<Vec<FileInfo>>>, i: int) -> Option<
    Seq<FileInfoView>,
> {
    if 0 <= i < listings.len() {
        match listings[i] {
            Some(entries) => Some(listing_view(entries@)),
            None => None,
        }
    } else {
        None
    }
}

/// Whether the id with index `i` is the first one whose stream cannot be made.
pub open spec fn is_first_fault(
    state: Seq<LogSourceView>,
    ids: Seq<Seq<char>>,
    from_ms: u64,
    listings: Seq<Option<Vec<FileInfo>>>,
    i: int,
) -> bool {
    &&& 0 <= i < ids.len()
    &&& request_fault(state, ids[i], from_ms, listing_for(listings, i)) is Some
    &&& forall|k: int|
        0 <= k < i ==> request_fault(state, #[trigger] ids[k], from_ms, listing_for(listings, k))
            is None
}

/// Makes the body of the response to a content query.
///
/// `id` holds the requested ids, separated by commas, and `listings` holds
/// for each of them, in the same order, the listing of the directory that
/// the files of that source are in, `None` where it could not be read.
///
/// Where the stream of one of the sources cannot be made there is no body:
/// the error of the first such source is the error of the request. Else the
/// body is the merge of the streams of the sources, in the order of the ids,
/// with every source still to be asked.
#[verifier::loop_isolation(false)]
pub fn get_source_content(
    id: &str,
    filter: &QueryParameters,
    state: &ServerState,
    listings: &Vec<Option<Vec<FileInfo>>>,
    as_json: bool,
) -> (body: Result<ContentStream, ApplicationError>)
    ensures
        ({
            let ids = split_on(id@, ',');
            let context = filter_of(filter.from_ms, option_text(filter.loglevels), filter.watch);
            match body {
                Ok(body) => {
                    &&& forall|i: int|
                        0 <= i < ids.len() ==> request_fault(
                            state@,
                            #[trigger] ids[i],
                            context.from_ms,
                            listing_for(listings@, i),
                        ) is None
                    &&& body.wf()
                    &&& body.encoder() == (ResponseEncoderView { as_json, last_ts: 0 })
                    &&& body.merge().sources.len() == ids.len()
                    &&& body.merge() == MergeModel::start(
                        Seq::new(ids.len(), |i: int| body.merge().sources[i].stream),
                    )
                    &&& forall|i: int, j: int|
                        0 <= i < ids.len() && has_id_at(state@, ids[i], j) ==> is_stream_of(
                            (#[trigger] body.merge().sources[i]).stream,
                            #[trigger] state@[j],
                            context,
                            listing_for(listings@, i)->0,
                        )
                },
                Err(error) => exists|i: int|
                    is_first_fault(state@, ids, context.from_ms, listings@, i) && request_fault(
                        state@,
                        #[trigger] ids[i],
                        context.from_ms,
                        listing_for(listings@, i),
                    ) == Some(error),
            }
        }),
{
    let ids = requested_ids(id);
    let context = Arc::new(logfilter_from_query(filter));
    let ghost names = texts(ids@);
    let mut streams: Vec<LogStream> = Vec::new();
    let mut i: usize = 0;
    while i < ids.len()
        invariant
            i <= ids@.len(),
            streams@.len() == i,
            forall|k: int| 0 <= k < i ==> (#[trigger] streams@[k]).wf(),
            forall|k: int|
                0 <= k < i ==> request_fault(
                    state@,
                    #[trigger] names[k],
                    context@.from_ms,
                    listing_for(listings@, k),
                ) is None,
            forall|k: int, j: int|
                0 <= k < i && has_id_at(state@, names[k], j) ==> is_stream_of(
                    (#[trigger] streams@[k])@,
                    #[trigger] state@[j],
                    context@,
                    listing_for(listings@, k)->0,
                ),
        decreases ids@.len() - i,
    {
        let listing: Option<&Vec<FileInfo>> = if i < listings.len() {
            match &listings[i] {
                Some(entries) => Some(entries),
                None => None,
            }
        } else {
            None
        };
        assert(option_listing(listing) == listing_for(listings@, i as int));
        assert(names[i as int] == ids@[i as int]@);
        match LogSourceService::create_content_stream(ids[i].as_str(), state, &context, listing) {
            Ok(stream) => {
                streams.push(stream);
            },
            Err(error) => {
                assert(is_first_fault(state@, names, context@.from_ms, listings@, i as int));
                return Err(error);
            },
        }
        i += 1;
    }
    let body = ContentStream::new(streams, as_json);
    proof {
        assert(stream_views(streams@) =~= Seq::new(
            names.len(),
            |i: int| body.merge().sources[i].stream,
        ));
        assert forall|i: int, j: int|
            0 <= i < names.len() && has_id_at(state@, names[i], j) implies is_stream_of(
            (#[trigger] body.merge().sources[i]).stream,
            #[trigger] state@[j],
            context@,
            listing_for(listings@, i)->0,
        ) by {
            assert(is_stream_of(streams@[i]@, state@[j], context@, listing_for(listings@, i)->0));
        }
    }
    Ok(body)
}

} // verus!

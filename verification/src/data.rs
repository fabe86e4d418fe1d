//! The values that travel through the pipeline: parsed lines, stream entries,
//! the query context with its filter, and the two errors that cross the
//! library's boundary.
use vstd::prelude::*;

verus! {

/// The errors that are reported to a caller before any output begins.
#[derive(Debug, Clone, Copy, PartialEq, Eq, Structural)]
pub enum ApplicationError {
    /// The requested source id is not configured.
    SourceNotFound,
    /// The source is configured but cannot be read.
    FailedToReadSource,
}

impl ApplicationError {
    /// The text shown to a client for this error.
    pub fn message(&self) -> (text: String)
        ensures
            text@ == self.message_text(),
    {
        match self {
            ApplicationError::SourceNotFound => "Source not found".to_owned(),
            ApplicationError::FailedToReadSource => "Failed to read source".to_owned(),
        }
    }

    pub open spec fn message_text(&self) -> Seq<char> {
        match self {
            ApplicationError::SourceNotFound => "Source not found"@,
            ApplicationError::FailedToReadSource => "Failed to read source"@,
        }
    }
}

/// One log line after the line pattern has been applied to it.
///
/// A `timestamp` of 0 stands for "could not be parsed".
#[derive(Debug, Clone, PartialEq, Eq)]
pub struct ParsedLine {
    pub timestamp: u64,
    pub loglevel: Option<String>,
    pub message: String,
}

/// The mathematical value of a [`ParsedLine`].
pub ghost struct ParsedLineView {
    pub timestamp: u64,
    pub loglevel: Option<Seq<char>>,
    pub message: Seq<char>,
}

/// The characters of an optional string.
pub open spec fn option_text(s: Option<String>) -> Option<Seq<char>> {
    match s {
        Some(t) => Some(t@),
        None => None,
    }
}

impl View for ParsedLine {
    type V = ParsedLineView;

    open spec fn view(&self) -> ParsedLineView {
        ParsedLineView {
            timestamp: self.timestamp,
            loglevel: option_text(self.loglevel),
            message: self.message@,
        }
    }
}

/// An entry of a log stream: the original line and what was parsed from it.
#[derive(Debug, Clone, PartialEq, Eq)]
pub enum StreamEntry {
    LogLine { line: String, parsed_line: ParsedLine },
}

/// The mathematical value of a [`StreamEntry`].
pub ghost struct StreamEntryView {
    pub line: Seq<char>,
    pub parsed_line: ParsedLineView,
}

impl View for StreamEntry {
    type V = StreamEntryView;

    open spec fn view(&self) -> StreamEntryView {
        match self {
            StreamEntry::LogLine { line, parsed_line } => StreamEntryView {
                line: line@,
                parsed_line: parsed_line@,
            },
        }
    }
}

impl StreamEntry {
    /// The timestamp of the parsed line.
    pub fn timestamp(&self) -> (t: u64)
        ensures
            t == self@.parsed_line.timestamp,
    {
        match self {
            StreamEntry::LogLine { line: _, parsed_line } => parsed_line.timestamp,
        }
    }
}

/// The filter and options of one request.
#[derive(Debug, Clone, PartialEq, Eq)]
pub struct LogQueryContext {
    pub from_ms: u64,
    pub loglevels: Option<Vec<String>>,
    pub watch: Option<bool>,
}

/// The mathematical value of a [`LogQueryContext`].
pub ghost struct LogQueryContextView {
    pub from_ms: u64,
    pub loglevels: Option<Seq<Seq<char>>>,
    pub watch: Option<bool>,
}

/// The characters of each string of a list.
pub open spec fn texts(v: Seq<String>) -> Seq<Seq<char>> {
    Seq::new(v.len(), |i: int| v[i]@)
}

impl View for LogQueryContext {
    type V = LogQueryContextView;

    open spec fn view(&self) -> LogQueryContextView {
        LogQueryContextView {
            from_ms: self.from_ms,
            loglevels: match self.loglevels {
                Some(levels) => Some(texts(levels@)),
                None => None,
            },
            watch: self.watch,
        }
    }
}

impl LogQueryContextView {
    /// Whether a parsed line passes the filter: it is not older than
    /// `from_ms`, and where a set of log levels is given, the line has a level
    /// and that level is in the set.
    pub open spec fn matches(self, line: ParsedLineView) -> bool {
        &&& line.timestamp >= self.from_ms
        &&& match self.loglevels {
            Some(levels) => line.loglevel is Some && levels.contains(line.loglevel->0),
            None => true,
        }
    }

    /// Whether the filter lets every line through.
    pub open spec fn is_disabled(self) -> bool {
        self.from_ms == 0 && self.loglevels is None
    }
}

impl LogQueryContext {
    /// Checks the filter against a parsed line: `true` if the line belongs in the output.
    #[verifier::loop_isolation(false)]
    pub fn matches(&self, parsed_line: &ParsedLine) -> (included: bool)
        ensures
            included == self@.matches(parsed_line@),
    {
        if parsed_line.timestamp >= self.from_ms {
            match &self.loglevels {
                Some(filter) => match &parsed_line.loglevel {
                    Some(loglvl) => {
                        let mut i: usize = 0;
                        while i < filter.len()
                            invariant
                                i <= filter.len(),
                                forall|j: int| 0 <= j < i ==> filter@[j]@ != loglvl@,
                            decreases filter.len() - i,
                        {
                            if filter[i] == *loglvl {
                                assert(texts(filter@)[i as int] == loglvl@);
                                assert(texts(filter@).contains(loglvl@));
                                return true;
                            }
                            i += 1;
                        }
                        assert(!texts(filter@).contains(loglvl@));
                        false
                    },
                    None => false,
                },
                None => true,
            }
        } else {
            false
        }
    }
}

} // verus!

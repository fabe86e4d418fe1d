//! A list of sources that can be added to, each source named by its kind
//! and its path.
use vstd::prelude::*;
use vstd::string::*;

verus! {

/// Why a source could not be added.
#[derive(Debug, Clone, Copy, PartialEq, Eq, Structural)]
pub enum ApiError {
    SourceAlreadyAdded,
    FailedToWriteSource,
}

impl ApiError {
    /// The text shown for this error.
    pub fn message(&self) -> (text: String)
        ensures
            text@ == match self {
                ApiError::SourceAlreadyAdded => "Source already exists"@,
                ApiError::FailedToWriteSource => "Failed to store source"@,
            },
    {
        match self {
            ApiError::SourceAlreadyAdded => "Source already exists".to_owned(),
            ApiError::FailedToWriteSource => "Failed to store source".to_owned(),
        }
    }
}

/// The kind of a source.
#[derive(Debug, Clone, Copy, PartialEq, Eq, Structural)]
pub enum SourceType {
    File,
    Url,
    Journal,
}

/// A source: where log lines come from.
#[derive(Debug, Clone, PartialEq, Eq)]
pub struct Source {
    srctype: SourceType,
    path: String,
}

/// A source as it is handed to and taken from a client.
#[derive(Debug, Clone, PartialEq, Eq)]
pub struct SourceDTO {
    pub srctype: SourceType,
    pub path: String,
}

/// The mathematical value of a [`Source`] and of a [`SourceDTO`].
pub ghost struct SourceView {
    pub srctype: SourceType,
    pub path: Seq<char>,
}

impl View for Source {
    type V = SourceView;

    closed spec fn view(&self) -> SourceView {
        SourceView { srctype: self.srctype, path: self.path@ }
    }
}

impl View for SourceDTO {
    type V = SourceView;

    open spec fn view(&self) -> SourceView {
        SourceView { srctype: self.srctype, path: self.path@ }
    }
}

impl Source {
    /// The source as it is handed to a client.
    pub fn into_dto(&self) -> (dto: SourceDTO)
        ensures
            dto@ == self@,
    {
        SourceDTO { srctype: self.srctype, path: self.path.clone() }
    }

    /// The source that a client has handed in.
    pub fn from(dto: SourceDTO) -> (source: Source)
        ensures
            source@ == dto@,
    {
        Source { srctype: dto.srctype, path: dto.path }
    }
}

/// The values of some sources.
pub open spec fn source_values(sources: Seq<Source>) -> Seq<SourceView> {
    Seq::new(sources.len(), |i: int| sources[i]@)
}

/// The sources that have been added.
pub struct SourceList {
    sources: Vec<Source>,
}

impl View for SourceList {
    type V = Seq<SourceView>;

    closed spec fn view(&self) -> Seq<SourceView> {
        source_values(self.sources@)
    }
}

impl SourceList {
    /// A list without sources.
    pub fn new() -> (list: SourceList)
        ensures
            list@ == Seq::<SourceView>::empty(),
    {
        let list = SourceList { sources: Vec::new() };
        assert(list@ =~= Seq::<SourceView>::empty());
        list
    }

    /// Adds a source at the end of the list, unless the list holds it already.
    pub fn add_source(&mut self, source: Source) -> (added: Result<(), ApiError>)
        ensures
            match added {
                Ok(_) => !old(self)@.contains(source@) && final(self)@ == old(self)@.push(
                    source@,
                ),
                Err(error) => old(self)@.contains(source@) && final(self)@ == old(self)@ && error
                    == ApiError::SourceAlreadyAdded,
            },
    {
        let mut i: usize = 0;
        while i < self.sources.len()
            invariant
                i <= self.sources@.len(),
                *self == *old(self),
                forall|k: int| 0 <= k < i ==> (#[trigger] self@[k]) != source@,
            decreases self.sources@.len() - i,
        {
            if self.sources[i].srctype == source.srctype && self.sources[i].path == source.path {
                assert(self@[i as int] == source@);
                return Err(ApiError::SourceAlreadyAdded);
            }
            i += 1;
        }
        let ghost value = source@;
        self.sources.push(source);
        assert(self@ =~= old(self)@.push(value));
        Ok(())
    }

    /// The sources, in the order in which they were added.
    pub fn get_sources(&self) -> (sources: &Vec<Source>)
        ensures
            source_values(sources@) == self@,
    {
        &self.sources
    }
}

} // verus!

//! The source registry: the configured sources, each under its own id. It is
//! made once and only read from then on.
use crate::source::{ConfigError, ConfigErrorView, LogSource, LogSourceView};
use vstd::prelude::*;
use vstd::string::*;

verus! {

/// The values of the sources of a list.
pub open spec fn source_views(sources: Seq<LogSource>) -> Seq<LogSourceView> {
    Seq::new(sources.len(), |i: int| sources[i]@)
}

/// Whether no two sources of a list have the same id.
pub open spec fn ids_unique(sources: Seq<LogSourceView>) -> bool {
    forall|i: int, j: int|
        0 <= i < j < sources.len() ==> (#[trigger] sources[i]).id() != (#[trigger] sources[j]).id()
}

/// Whether the source at index `j` has the id of one in front of it.
pub open spec fn repeats_id(sources: Seq<LogSourceView>, j: int) -> bool {
    exists|i: int| 0 <= i < j && (#[trigger] sources[i]).id() == sources[j].id()
}

/// Whether the source at index `j` is the first one that has the id of one
/// in front of it.
pub open spec fn is_first_repeat(sources: Seq<LogSourceView>, j: int) -> bool {
    &&& 0 <= j < sources.len()
    &&& repeats_id(sources, j)
    &&& forall|k: int| 0 <= k < j ==> !repeats_id(sources, k)
}

/// Whether the source at index `i` is the one with this id.
pub open spec fn has_id_at(sources: Seq<LogSourceView>, key: Seq<char>, i: int) -> bool {
    0 <= i < sources.len() && sources[i].id() == key
}

/// The registry of the configured sources.
pub struct ServerState {
    sources: Vec<LogSource>,
}

impl View for ServerState {
    type V = Seq<LogSourceView>;

    closed spec fn view(&self) -> Seq<LogSourceView> {
        source_views(self.sources@)
    }
}

impl ServerState {
    #[verifier::type_invariant]
    spec fn unique_ids(self) -> bool {
        ids_unique(source_views(self.sources@))
    }

    /// Makes the registry. Fails where two sources have the same id, and
    /// names the first id that comes a second time.
    #[verifier::loop_isolation(false)]
    pub fn new(sources: Vec<LogSource>) -> (state: Result<ServerState, ConfigError>)
        ensures
            match state {
                Ok(state) => ids_unique(source_views(sources@)) && state@ == source_views(
                    sources@,
                ),
                Err(error) => {
                    &&& !ids_unique(source_views(sources@))
                    &&& exists|j: int|
                        is_first_repeat(source_views(sources@), j) && error@
                            == ConfigErrorView::Message(
                            "Duplicate source id: "@ + (#[trigger] source_views(sources@)[j]).id(),
                        )
                },
            },
    {
        let ghost views = source_views(sources@);
        let mut j: usize = 0;
        while j < sources.len()
            invariant
                j <= sources.len(),
                views == source_views(sources@),
                forall|k: int| 0 <= k < j ==> !repeats_id(views, k),
            decreases sources.len() - j,
        {
            let mut i: usize = 0;
            while i < j
                invariant
                    i <= j < sources.len(),
                    views == source_views(sources@),
                    forall|k: int| 0 <= k < i ==> (#[trigger] views[k]).id() != views[j as int].id(),
                decreases j - i,
            {
                if *sources[i].id() == *sources[j].id() {
                    let text = "Duplicate source id: ".to_owned().concat(sources[j].id().as_str());
                    proof {
                        assert(views[i as int].id() == views[j as int].id());
                        assert(repeats_id(views, j as int));
                        assert(is_first_repeat(views, j as int));
                        assert(text@ == "Duplicate source id: "@ + views[j as int].id());
                    }
                    return Err(ConfigError::Message(text));
                }
                i += 1;
            }
            j += 1;
        }
        proof {
            assert forall|a: int, b: int| 0 <= a < b < views.len() implies (#[trigger] views[a]).id()
                != (#[trigger] views[b]).id() by {
                assert(!repeats_id(views, b));
            }
        }
        Ok(ServerState { sources })
    }

    /// The sources, in the order in which they were configured.
    pub fn get_sources(&self) -> (sources: &Vec<LogSource>)
        ensures
            source_views(sources@) == self@,
            ids_unique(self@),
    {
        proof {
            use_type_invariant(&*self);
        }
        &self.sources
    }

    /// Looks a source up by its id. There is at most one with that id.
    #[verifier::loop_isolation(false)]
    pub fn lookup_source(&self, key: &str) -> (found: Option<&LogSource>)
        ensures
            ids_unique(self@),
            match found {
                Some(source) => exists|i: int|
                    has_id_at(self@, key@, i) && source@ == #[trigger] self@[i],
                None => forall|i: int| !has_id_at(self@, key@, i),
            },
    {
        proof {
            use_type_invariant(&*self);
        }
        let mut i: usize = 0;
        while i < self.sources.len()
            invariant
                i <= self.sources@.len(),
                forall|k: int| 0 <= k < i ==> (#[trigger] self@[k]).id() != key@,
            decreases self.sources@.len() - i,
        {
            if crate::text::same_text(self.sources[i].id().as_str(), key) {
                proof {
                    assert(has_id_at(self@, key@, i as int));
                }
                return Some(&self.sources[i]);
            }
            i += 1;
        }
        None
    }
}

} // verus!

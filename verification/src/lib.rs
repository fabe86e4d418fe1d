//! Read-only access to rotated log files as one time-ordered stream of parsed
//! entries: pattern parsing, file resolution, per-file line streams, the k-way
//! merge and the response encoder.
use vstd::prelude::*;

pub mod data;
pub mod filerepo;
pub mod log_merge;
pub mod log_streamer;
pub mod logcodec;
pub mod logsource_port;
pub mod logsource_svc;
pub mod merge_model;
pub mod pattern;
pub mod resolver;
pub mod shared;
pub mod sink;
pub mod source;
pub mod sources_api;
pub mod state;
pub mod stream;
pub mod util;
pub mod text;

verus! {

/// The version of this library.
pub fn version() -> (v: &'static str)
    ensures
        v@ == "0.1.0"@,
{
    "0.1.0"
}

/// The authors of this library.
pub fn authors() -> (a: &'static str)
    ensures
        a@ == "The tentacle authors"@,
{
    "The tentacle authors"
}

} // verus!

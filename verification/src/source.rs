//! Log sources and how they are made from configuration.
use crate::data::option_text;
use crate::pattern::{
    grok_compiles, zone_known, GrokPattern, GrokPatternView, LinePattern, LinePatternView, Zone,
};
use crate::resolver::{regex_compiles, FilePattern};
use crate::text::{contains_text, is_within, same_text};
use std::sync::Arc;
use vstd::prelude::*;
use vstd::string::*;

verus! {

/// A declared origin of log lines, known by its id.
pub enum LogSource {
    /// A family of rotated files.
    File { id: String, file_pattern: FilePattern, line_pattern: Arc<LinePattern> },
    /// A journal unit. It can be declared; it cannot be streamed.
    Journal { id: String, unit: String, line_pattern: Arc<LinePattern> },
}

/// The mathematical value of a [`LogSource`].
pub ghost enum LogSourceView {
    File { id: Seq<char>, file_pattern: Seq<char>, line_pattern: LinePatternView },
    Journal { id: Seq<char>, unit: Seq<char>, line_pattern: LinePatternView },
}

impl View for LogSource {
    type V = LogSourceView;

    open spec fn view(&self) -> LogSourceView {
        match self {
            LogSource::File { id, file_pattern, line_pattern } => LogSourceView::File {
                id: id@,
                file_pattern: file_pattern@,
                line_pattern: line_pattern@,
            },
            LogSource::Journal { id, unit, line_pattern } => LogSourceView::Journal {
                id: id@,
                unit: unit@,
                line_pattern: line_pattern@,
            },
        }
    }
}

impl LogSourceView {
    /// The id of the source.
    pub open spec fn id(self) -> Seq<char> {
        match self {
            LogSourceView::File { id, .. } => id,
            LogSourceView::Journal { id, .. } => id,
        }
    }

    /// The line pattern of the source.
    pub open spec fn line_pattern(self) -> LinePatternView {
        match self {
            LogSourceView::File { line_pattern, .. } => line_pattern,
            LogSourceView::Journal { line_pattern, .. } => line_pattern,
        }
    }
}

/// One entry of the configured sources: the texts under the keys that a
/// source is made from, `None` for a key that is missing.
#[derive(Debug, Clone, PartialEq, Eq)]
pub struct SourceConfig {
    pub id: Option<String>,
    /// The text under the key `type`.
    pub source_type: Option<String>,
    pub line_pattern: Option<String>,
    pub datetime_pattern: Option<String>,
    pub timezone: Option<String>,
    pub file_pattern: Option<String>,
    pub unit: Option<String>,
}

/// The mathematical value of a [`SourceConfig`].
pub ghost struct SourceConfigView {
    pub id: Option<Seq<char>>,
    pub source_type: Option<Seq<char>>,
    pub line_pattern: Option<Seq<char>>,
    pub datetime_pattern: Option<Seq<char>>,
    pub timezone: Option<Seq<char>>,
    pub file_pattern: Option<Seq<char>>,
    pub unit: Option<Seq<char>>,
}

impl View for SourceConfig {
    type V = SourceConfigView;

    open spec fn view(&self) -> SourceConfigView {
        SourceConfigView {
            id: option_text(self.id),
            source_type: option_text(self.source_type),
            line_pattern: option_text(self.line_pattern),
            datetime_pattern: option_text(self.datetime_pattern),
            timezone: option_text(self.timezone),
            file_pattern: option_text(self.file_pattern),
            unit: option_text(self.unit),
        }
    }
}

/// Why a source could not be made from its configuration.
#[derive(Debug, Clone, PartialEq, Eq)]
pub enum ConfigError {
    /// A key is missing.
    NotFound(String),
    /// A value cannot be used.
    Message(String),
}

/// The mathematical value of a [`ConfigError`].
pub ghost enum ConfigErrorView {
    NotFound(Seq<char>),
    Message(Seq<char>),
}

impl View for ConfigError {
    type V = ConfigErrorView;

    open spec fn view(&self) -> ConfigErrorView {
        match self {
            ConfigError::NotFound(key) => ConfigErrorView::NotFound(key@),
            ConfigError::Message(text) => ConfigErrorView::Message(text@),
        }
    }
}

/// Whether a grok expression captures a timestamp without a year.
pub open spec fn is_syslog(line_pattern: Seq<char>) -> bool {
    is_within("%{SYSLOGTIMESTAMP:timestamp}"@, line_pattern)
}

/// The format that timestamps are read with: the configured one, with `%Y `
/// in front where the timestamp is captured without a year.
pub open spec fn timestamp_format(line_pattern: Seq<char>, datetime_pattern: Seq<char>) -> Seq<
    char,
> {
    if is_syslog(line_pattern) {
        "%Y "@ + datetime_pattern
    } else {
        datetime_pattern
    }
}

impl SourceConfigView {
    /// The line pattern that this entry describes.
    pub open spec fn line_pattern_view(self) -> LinePatternView {
        LinePatternView {
            raw: self.line_pattern->0,
            grok: GrokPatternView { source: self.line_pattern->0, alias_only: true },
            chrono: timestamp_format(self.line_pattern->0, self.datetime_pattern->0),
            timezone: self.timezone->0,
            syslog_ts: is_syslog(self.line_pattern->0),
        }
    }

    /// Why no source can be made from this entry; `None` where one can be
    /// made. The type of a file source is `file`, that of a journal source
    /// `journal`.
    ///
    /// The keys are looked at in this order: `id`, `line_pattern`, which has
    /// to compile, `datetime_pattern`, `timezone`, which has to be known,
    /// `type`, and then `unit` for a journal, or `file_pattern`, which has to
    /// compile, for a file. The first fault is the one reported.
    pub open spec fn fault(self) -> Option<ConfigErrorView> {
        if self.id is None {
            Some(ConfigErrorView::NotFound("id"@))
        } else if self.line_pattern is None {
            Some(ConfigErrorView::NotFound("line_pattern"@))
        } else if !grok_compiles(self.line_pattern->0, true) {
            Some(ConfigErrorView::Message("Failed to parse line pattern"@))
        } else if self.datetime_pattern is None {
            Some(ConfigErrorView::NotFound("datetime_pattern"@))
        } else if self.timezone is None {
            Some(ConfigErrorView::NotFound("timezone"@))
        } else if !zone_known(self.timezone->0) {
            Some(ConfigErrorView::Message("Failed to parse timezone"@))
        } else if self.source_type is None {
            Some(ConfigErrorView::NotFound("type"@))
        } else if self.source_type->0 == "journal"@ {
            if self.unit is None {
                Some(ConfigErrorView::NotFound("unit"@))
            } else {
                None
            }
        } else if self.source_type->0 == "file"@ {
            if self.file_pattern is None {
                Some(ConfigErrorView::NotFound("file_pattern"@))
            } else if !regex_compiles(self.file_pattern->0) {
                Some(ConfigErrorView::Message("Failed to parse file pattern"@))
            } else {
                None
            }
        } else {
            Some(ConfigErrorView::Message("Unknown type: "@ + self.source_type->0))
        }
    }

    /// The source that this entry describes, where it has no fault.
    pub open spec fn source(self) -> LogSourceView {
        if self.source_type->0 == "journal"@ {
            LogSourceView::Journal {
                id: self.id->0,
                unit: self.unit->0,
                line_pattern: self.line_pattern_view(),
            }
        } else {
            LogSourceView::File {
                id: self.id->0,
                file_pattern: self.file_pattern->0,
                line_pattern: self.line_pattern_view(),
            }
        }
    }
}

/// Whether what was built is what the entry describes.
pub open spec fn built_as_described(
    built: Result<LogSource, ConfigError>,
    value: SourceConfigView,
) -> bool {
    match built {
        Ok(source) => value.fault() is None && source@ == value.source(),
        Err(error) => value.fault() == Some(error@),
    }
}

fn not_found(key: &str) -> (error: ConfigError)
    ensures
        error@ == ConfigErrorView::NotFound(key@),
{
    ConfigError::NotFound(key.to_owned())
}

fn message(text: &str) -> (error: ConfigError)
    ensures
        error@ == ConfigErrorView::Message(text@),
{
    ConfigError::Message(text.to_owned())
}

/// Makes a source from an entry of the configuration.
fn build_source(value: &SourceConfig) -> (built: Result<LogSource, ConfigError>)
    ensures
        built_as_described(built, value@),
{
    let id = match &value.id {
        Some(id) => id.clone(),
        None => {
            return Err(not_found("id"));
        },
    };
    let line_pattern = match &value.line_pattern {
        Some(text) => text.clone(),
        None => {
            return Err(not_found("line_pattern"));
        },
    };
    let grok_pattern = match GrokPattern::new(line_pattern.as_str()) {
        Some(pattern) => pattern,
        None => {
            return Err(message("Failed to parse line pattern"));
        },
    };
    // a timestamp without a year gets the year of the file put in front
    let syslog_ts = contains_text(line_pattern.as_str(), "%{SYSLOGTIMESTAMP:timestamp}");
    let chrono_pattern = match &value.datetime_pattern {
        Some(text) => text.clone(),
        None => {
            return Err(not_found("datetime_pattern"));
        },
    };
    let chrono_pattern = if syslog_ts {
        "%Y ".to_owned().concat(chrono_pattern.as_str())
    } else {
        chrono_pattern
    };
    let timezone = match &value.timezone {
        Some(name) => match Zone::new(name.as_str()) {
            Some(zone) => zone,
            None => {
                return Err(message("Failed to parse timezone"));
            },
        },
        None => {
            return Err(not_found("timezone"));
        },
    };
    let srctype = match &value.source_type {
        Some(text) => text.clone(),
        None => {
            return Err(not_found("type"));
        },
    };
    let pattern = LinePattern {
        raw: line_pattern,
        grok: grok_pattern,
        chrono: chrono_pattern,
        timezone,
        syslog_ts,
    };
    assert(pattern@ == value@.line_pattern_view());
    if same_text(srctype.as_str(), "journal") {
        let unit = match &value.unit {
            Some(unit) => unit.clone(),
            None => {
                return Err(not_found("unit"));
            },
        };
        Ok(LogSource::Journal { id, unit, line_pattern: Arc::new(pattern) })
    } else if same_text(srctype.as_str(), "file") {
        let file_pattern = match &value.file_pattern {
            Some(text) => match FilePattern::new(text.as_str()) {
                Some(compiled) => compiled,
                None => {
                    return Err(message("Failed to parse file pattern"));
                },
            },
            None => {
                return Err(not_found("file_pattern"));
            },
        };
        Ok(LogSource::File { id, file_pattern, line_pattern: Arc::new(pattern) })
    } else {
        Err(ConfigError::Message("Unknown type: ".to_owned().concat(srctype.as_str())))
    }
}

/// Makes sources from the entries of a configuration.
pub struct LogSourceBuilder;

impl LogSourceBuilder {
    /// Makes a source from an entry of the configuration. The type of a file
    /// source is `file`, that of a journal source `journal`.
    pub fn create(value: &SourceConfig) -> (built: Result<LogSource, ConfigError>)
        ensures
            built_as_described(built, value@),
    {
        build_source(value)
    }
}

impl LogSource {
    /// Makes a source from an entry of the configuration, as
    /// [`LogSourceBuilder::create`] does.
    pub fn try_from_config(value: &SourceConfig) -> (built: Result<LogSource, ConfigError>)
        ensures
            built_as_described(built, value@),
    {
        build_source(value)
    }

    /// The id of the source.
    pub fn id(&self) -> (id: &String)
        ensures
            id@ == self@.id(),
    {
        match self {
            LogSource::File { id, file_pattern: _, line_pattern: _ } => id,
            LogSource::Journal { id, unit: _, line_pattern: _ } => id,
        }
    }
}

} // verus!

//! Line patterns: a compiled grok expression with named captures, the format
//! of the timestamp it captures, and the time zone that timestamp is local to.
//!
//! The grok engine and the calendar live in other crates; what is believed of
//! them without proof is stated here, each item with the function it stands for.
use std::sync::Arc;
use vstd::prelude::*;
use vstd::string::*;
use crate::data::{option_text, ParsedLine, ParsedLineView};

verus! {

/// `grok::Pattern`, a compiled grok expression. Nothing is seen of its inside.
#[verifier::external_type_specification]
#[verifier::external_body]
pub struct ExGrokPattern(grok::Pattern);

/// `chrono_tz::Tz`, a time zone of the IANA database. Nothing is seen of its inside.
#[verifier::external_type_specification]
#[verifier::external_body]
pub struct ExTz(chrono_tz::Tz);

/// Whether `grok::Grok::compile`, on the default pattern set, accepts `source`.
pub uninterp spec fn grok_compiles(source: Seq<char>, alias_only: bool) -> bool;

/// Whether `grok::Pattern::match_against` finds a match of the pattern
/// compiled from `source` in `line`.
pub uninterp spec fn grok_matches(source: Seq<char>, alias_only: bool, line: Seq<char>) -> bool;

/// What `grok::Matches::get` returns for `name` after that match.
pub uninterp spec fn grok_field(
    source: Seq<char>,
    alias_only: bool,
    line: Seq<char>,
    name: Seq<char>,
) -> Option<Seq<char>>;

/// What `chrono::NaiveDateTime::parse_from_str` reads from `text` under
/// `format`: the seconds from 1970-01-01 00:00:00 to that wall-clock time, and
/// the milliseconds within its second; `None` where the text does not parse.
pub uninterp spec fn naive_datetime(text: Seq<char>, format: Seq<char>) -> Option<(int, int)>;

/// Whether `chrono_tz::Tz::from_str` knows the zone `name`.
pub uninterp spec fn zone_known(name: Seq<char>) -> bool;

/// The Unix time, in seconds, of the wall-clock time `local_secs` in the zone
/// `name`, as `chrono::TimeZone::from_local_datetime` maps it; `None` where the
/// wall-clock time is ambiguous or does not exist in that zone.
pub uninterp spec fn zone_instant(name: Seq<char>, local_secs: int) -> Option<int>;

/// A grok expression, compiled against the default pattern set.
///
/// `compiled` is always what `source` and `alias_only` compile to: the only
/// way to make a value is [`GrokPattern::new`].
pub struct GrokPattern {
    source: String,
    alias_only: bool,
    compiled: Arc<grok::Pattern>,
}

/// The mathematical value of a [`GrokPattern`]: what it was compiled from.
pub ghost struct GrokPatternView {
    pub source: Seq<char>,
    pub alias_only: bool,
}

impl View for GrokPattern {
    type V = GrokPatternView;

    closed spec fn view(&self) -> GrokPatternView {
        GrokPatternView { source: self.source@, alias_only: self.alias_only }
    }
}

/// Calls `grok::Grok::compile` on a `grok::Grok` with the default patterns.
/// Believed: it succeeds exactly where [`grok_compiles`] says, and the value
/// made remembers the text and the flag it was compiled from.
#[verifier::external_body]
fn compile_grok(source: &str, alias_only: bool) -> (pattern: Option<GrokPattern>)
    ensures
        pattern is Some <==> grok_compiles(source@, alias_only),
        pattern is Some ==> pattern->0@ == (GrokPatternView { source: source@, alias_only }),
{
    match grok::Grok::default().compile(source, alias_only) {
        Ok(compiled) => Some(
            GrokPattern { source: source.to_string(), alias_only, compiled: Arc::new(compiled) },
        ),
        Err(_) => None,
    }
}

/// Calls `grok::Pattern::match_against` on `line` and then
/// `grok::Matches::get` for each of `names`. Believed: there is a result
/// exactly where [`grok_matches`] says, and it holds, in the order of `names`,
/// what [`grok_field`] says of each name.
#[verifier::external_body]
fn match_fields(pattern: &GrokPattern, line: &str, names: &Vec<&str>) -> (fields: Option<
    Vec<Option<String>>,
>)
    ensures
        fields is Some <==> grok_matches(pattern@.source, pattern@.alias_only, line@),
        fields is Some ==> fields->0@.len() == names@.len(),
        fields is Some ==> forall|i: int|
            0 <= i < names@.len() ==> crate::data::option_text(#[trigger] fields->0@[i])
                == grok_field(pattern@.source, pattern@.alias_only, line@, names@[i]@),
{
    pattern.compiled.match_against(line).map(
        |found| names.iter().map(|name| found.get(name).map(|text| text.to_string())).collect(),
    )
}

impl GrokPattern {
    /// Compiles `source` against the default pattern set, keeping only the
    /// captures that `source` gives an alias to. `None` where it does not compile.
    pub fn new(source: &str) -> (pattern: Option<GrokPattern>)
        ensures
            pattern is Some <==> grok_compiles(source@, true),
            pattern is Some ==> pattern->0@ == (GrokPatternView { source: source@, alias_only: true }),
    {
        compile_grok(source, true)
    }

    /// The text this pattern was compiled from.
    pub fn source(&self) -> (text: &str)
        ensures
            text@ == self@.source,
    {
        self.source.as_str()
    }

    /// Matches `line` and reads the captures `names`: `None` where the line
    /// does not match, else one entry for each name, in order.
    pub fn captures(&self, line: &str, names: &Vec<&str>) -> (fields: Option<Vec<Option<String>>>)
        ensures
            fields is Some <==> grok_matches(self@.source, self@.alias_only, line@),
            fields is Some ==> fields->0@.len() == names@.len(),
            fields is Some ==> forall|i: int|
                0 <= i < names@.len() ==> crate::data::option_text(#[trigger] fields->0@[i])
                    == grok_field(self@.source, self@.alias_only, line@, names@[i]@),
    {
        match_fields(self, line, names)
    }
}

/// A time zone of the IANA database, known by its name.
///
/// `tz` is always the zone that `name` parses to: the only way to make a
/// value is [`Zone::new`].
pub struct Zone {
    name: String,
    tz: chrono_tz::Tz,
}

impl View for Zone {
    type V = Seq<char>;

    closed spec fn view(&self) -> Seq<char> {
        self.name@
    }
}

/// Calls `chrono_tz::Tz::from_str` (through `str::parse`). Believed: it
/// succeeds exactly where [`zone_known`] says, and the value made remembers
/// the name it was parsed from.
#[verifier::external_body]
fn parse_zone(name: &str) -> (zone: Option<Zone>)
    ensures
        zone is Some <==> zone_known(name@),
        zone is Some ==> zone->0@ == name@,
{
    match name.parse::<chrono_tz::Tz>() {
        Ok(tz) => Some(Zone { name: name.to_string(), tz }),
        Err(_) => None,
    }
}

/// Calls `chrono::NaiveDateTime::parse_from_str` and hands the result out as
/// two integers. Believed: the result is what [`naive_datetime`] names.
#[verifier::external_body]
fn parse_naive(text: &str, format: &str) -> (time: Option<(i64, u32)>)
    ensures
        match time {
            Some((secs, millis)) => naive_datetime(text@, format@) == Some(
                (secs as int, millis as int),
            ),
            None => naive_datetime(text@, format@) is None,
        },
{
    match chrono::NaiveDateTime::parse_from_str(text, format) {
        Ok(time) => Some((time.and_utc().timestamp(), time.and_utc().timestamp_subsec_millis())),
        Err(_) => None,
    }
}

/// Calls `chrono::TimeZone::from_local_datetime` for the zone, on the
/// wall-clock time that lies `local_secs` seconds after 1970-01-01 00:00:00,
/// and keeps the result only where it is single. Believed: the result is what
/// [`zone_instant`] names.
#[verifier::external_body]
fn local_to_unix(zone: &Zone, local_secs: i64) -> (secs: Option<i64>)
    ensures
        match secs {
            Some(unix) => zone_instant(zone@, local_secs as int) == Some(unix as int),
            None => zone_instant(zone@, local_secs as int) is None,
        },
{
    let local = chrono::DateTime::from_timestamp(local_secs, 0)?.naive_utc();
    chrono::TimeZone::from_local_datetime(&zone.tz, &local).single().map(|time| time.timestamp())
}

impl Zone {
    /// Looks a zone up by its IANA name; `None` where there is no such zone.
    pub fn new(name: &str) -> (zone: Option<Zone>)
        ensures
            zone is Some <==> zone_known(name@),
            zone is Some ==> zone->0@ == name@,
    {
        parse_zone(name)
    }

    /// The name of the zone.
    pub fn name(&self) -> (text: &str)
        ensures
            text@ == self@,
    {
        self.name.as_str()
    }
}

/// How the lines of a source are read: the grok expression, the format and
/// zone of the timestamp it captures, and whether that timestamp lacks a year.
pub struct LinePattern {
    /// The grok expression as it was configured.
    pub raw: String,
    /// The compiled expression, with the captures `timestamp`, `loglevel` and `message`.
    pub grok: GrokPattern,
    /// The format of the captured timestamp.
    pub chrono: String,
    /// The zone the captured timestamp is local to.
    pub timezone: Zone,
    /// Whether the captured timestamp has no year and gets one put in front.
    pub syslog_ts: bool,
}

/// The mathematical value of a [`LinePattern`].
pub ghost struct LinePatternView {
    pub raw: Seq<char>,
    pub grok: GrokPatternView,
    pub chrono: Seq<char>,
    pub timezone: Seq<char>,
    pub syslog_ts: bool,
}

impl View for LinePattern {
    type V = LinePatternView;

    open spec fn view(&self) -> LinePatternView {
        LinePatternView {
            raw: self.raw@,
            grok: self.grok@,
            chrono: self.chrono@,
            timezone: self.timezone@,
            syslog_ts: self.syslog_ts,
        }
    }
}

/// Unix milliseconds from whole seconds and the milliseconds within the
/// second; 0 where the instant lies before 1970 or does not fit.
pub open spec fn epoch_millis(secs: int, millis: int) -> u64 {
    let total = secs * 1000 + millis;
    if 0 <= total <= u64::MAX {
        total as u64
    } else {
        0
    }
}

/// The text that is parsed as a timestamp: the capture itself, or for a
/// timestamp without a year, the year, a space, and the capture.
pub open spec fn dated_text(capture: Seq<char>, syslog_ts: bool, year: int) -> Seq<char> {
    if syslog_ts {
        crate::text::decimal(year) + seq![' '] + capture
    } else {
        capture
    }
}

/// The timestamp of a line, in Unix milliseconds, from its `timestamp`
/// capture: 0 where there is no capture, where it does not parse under the
/// pattern's format, or where the zone has no single instant for it.
pub open spec fn timestamp_of(pattern: LinePatternView, capture: Option<Seq<char>>, year: int) -> u64 {
    match capture {
        None => 0,
        Some(text) => match naive_datetime(
            dated_text(text, pattern.syslog_ts, year),
            pattern.chrono,
        ) {
            None => 0,
            Some((local_secs, millis)) => match zone_instant(pattern.timezone, local_secs) {
                None => 0,
                Some(unix_secs) => epoch_millis(unix_secs, millis),
            },
        },
    }
}

/// What a line parses to under a pattern, with `year` standing in for a
/// missing year.
pub open spec fn parse_line(pattern: LinePatternView, line: Seq<char>, year: int) -> crate::data::ParsedLineView {
    if grok_matches(pattern.grok.source, pattern.grok.alias_only, line) {
        crate::data::ParsedLineView {
            timestamp: timestamp_of(
                pattern,
                grok_field(pattern.grok.source, pattern.grok.alias_only, line, "timestamp"@),
                year,
            ),
            loglevel: grok_field(pattern.grok.source, pattern.grok.alias_only, line, "loglevel"@),
            message: match grok_field(
                pattern.grok.source,
                pattern.grok.alias_only,
                line,
                "message"@,
            ) {
                Some(text) => text,
                None => Seq::empty(),
            },
        }
    } else {
        crate::data::ParsedLineView {
            timestamp: 0,
            loglevel: None,
            message: "Failed to parse: "@ + line,
        }
    }
}

/// Parsing is a function of its inputs: two results for the same line, the
/// same pattern and the same year are the same.
pub proof fn lemma_parse_is_deterministic(
    pattern: LinePatternView,
    line: Seq<char>,
    year: int,
    first: ParsedLineView,
    second: ParsedLineView,
)
    requires
        first == parse_line(pattern, line, year),
        second == parse_line(pattern, line, year),
    ensures
        first == second,
{
}

/// Unix milliseconds from whole seconds and the milliseconds within the second.
pub fn unix_millis(secs: i64, millis: u32) -> (timestamp: u64)
    ensures
        timestamp == epoch_millis(secs as int, millis as int),
{
    let total: i128 = (secs as i128) * 1000 + millis as i128;
    if 0 <= total && total <= u64::MAX as i128 {
        total as u64
    } else {
        0
    }
}

/// Reads the timestamp of a line from its `timestamp` capture.
pub fn timestamp_from_capture(pattern: &LinePattern, capture: Option<&String>, year: i32) -> (timestamp: u64)
    ensures
        timestamp == timestamp_of(pattern@, match capture { Some(text) => Some(text@), None => None }, year as int),
{
    match capture {
        None => 0,
        Some(text) => {
            let parsed = if pattern.syslog_ts {
                proof {
                    reveal_strlit(" ");
                }
                let mut dated = crate::text::decimal_text(year);
                dated.append(" ");
                dated.append(text.as_str());
                assert(dated@ =~= dated_text(text@, true, year as int));
                parse_naive(dated.as_str(), pattern.chrono.as_str())
            } else {
                parse_naive(text.as_str(), pattern.chrono.as_str())
            };
            match parsed {
                None => 0,
                Some((local_secs, millis)) => match local_to_unix(&pattern.timezone, local_secs) {
                    None => 0,
                    Some(unix_secs) => unix_millis(unix_secs, millis),
                },
            }
        },
    }
}

/// Builds the parsed line from what the grok expression captured: `fields`
/// is `None` where the line did not match, else the captures `timestamp`,
/// `loglevel` and `message`, of which the first has already been turned into
/// `timestamp`.
pub fn line_from_fields(line: &str, matched: bool, timestamp: u64, loglevel: Option<String>, message: Option<String>) -> (parsed: ParsedLine)
    ensures
        matched ==> parsed@ == (ParsedLineView {
            timestamp,
            loglevel: option_text(loglevel),
            message: match message { Some(text) => text@, None => Seq::empty() },
        }),
        !matched ==> parsed@ == (ParsedLineView {
            timestamp: 0,
            loglevel: None,
            message: "Failed to parse: "@ + line@,
        }),
{
    if matched {
        ParsedLine {
            timestamp,
            loglevel,
            message: match message {
                Some(text) => text,
                None => String::new(),
            },
        }
    } else {
        let mut text = "Failed to parse: ".to_owned();
        text.append(line);
        ParsedLine { timestamp: 0, loglevel: None, message: text }
    }
}

/// Applies a line pattern to a raw line. Never fails: a line that does not
/// match gives timestamp 0, no log level and a message that says so.
pub fn apply_pattern(line: &str, line_pattern: &LinePattern, year: i32) -> (parsed: ParsedLine)
    ensures
        parsed@ == parse_line(line_pattern@, line@, year as int),
{
    let names: Vec<&str> = vec!["timestamp", "loglevel", "message"];
    match line_pattern.grok.captures(line, &names) {
        Some(mut fields) => {
            let message = fields.pop().unwrap();
            let loglevel = fields.pop().unwrap();
            let capture = fields.pop().unwrap();
            let timestamp = timestamp_from_capture(line_pattern, capture.as_ref(), year);
            line_from_fields(line, true, timestamp, loglevel, message)
        },
        None => line_from_fields(line, false, 0, None, None),
    }
}

} // verus!

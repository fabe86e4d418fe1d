//! The file resolver: which files of a directory belong to a source, and in
//! which order they are read.
//!
//! Older rotations come first and the live file last, so that the output
//! starts with the earliest history and a tail can extend it.
use crate::data::{option_text, ApplicationError, LogQueryContext};
use crate::pattern::LinePattern;
use crate::stream::{file_views, FileLogStream, FileLogStreamView, LogStream, LogStreamView};
use std::sync::Arc;
use crate::text::{int_of_text, parse_int};
use vstd::prelude::*;
use vstd::string::*;

verus! {

/// `regex::Regex`, a compiled regular expression. Nothing is seen of its inside.
#[verifier::external_type_specification]
#[verifier::external_body]
pub struct ExRegex(regex::Regex);

/// Whether `regex::Regex::new` accepts `source`.
pub uninterp spec fn regex_compiles(source: Seq<char>) -> bool;

/// Where the match lies that `regex::Regex::captures` finds for the
/// expression `source` in `text`: the byte offsets of its start and end;
/// `None` where there is no match.
pub uninterp spec fn regex_span(source: Seq<char>, text: Seq<char>) -> Option<(int, int)>;

/// What `regex::Captures::name` holds for the group `group` in that match.
pub uninterp spec fn regex_group(source: Seq<char>, text: Seq<char>, group: Seq<char>) -> Option<
    Seq<char>,
>;

/// A regular expression over absolute paths, with an optional named group
/// `rotation`.
///
/// `compiled` is always what `source` compiles to: the only way to make a
/// value is [`FilePattern::new`].
pub struct FilePattern {
    source: String,
    compiled: regex::Regex,
}

impl View for FilePattern {
    type V = Seq<char>;

    closed spec fn view(&self) -> Seq<char> {
        self.source@
    }
}

/// Calls `regex::Regex::new`. Believed: it succeeds exactly where
/// [`regex_compiles`] says, and the value made remembers its source text.
#[verifier::external_body]
fn compile_regex(source: &str) -> (pattern: Option<FilePattern>)
    ensures
        pattern is Some <==> regex_compiles(source@),
        pattern is Some ==> pattern->0@ == source@,
{
    match regex::Regex::new(source) {
        Ok(compiled) => Some(FilePattern { source: source.to_string(), compiled }),
        Err(_) => None,
    }
}

/// Calls `regex::Regex::captures` on `text`, then `regex::Captures::get` for
/// the whole match and `regex::Captures::name` for `group`. Believed: there is
/// a result exactly where [`regex_span`] says; it holds the byte offsets that
/// [`regex_span`] names and the group's text that [`regex_group`] names.
#[verifier::external_body]
fn capture_group(pattern: &FilePattern, text: &str, group: &str) -> (found: Option<
    (usize, usize, Option<String>),
>)
    ensures
        match found {
            Some((start, end, value)) => regex_span(pattern@, text@) == Some(
                (start as int, end as int),
            ) && option_text(value) == regex_group(pattern@, text@, group@),
            None => regex_span(pattern@, text@) is None,
        },
{
    let found = pattern.compiled.captures(text)?;
    let whole = found.get(0)?;
    Some((whole.start(), whole.end(), found.name(group).map(|part| part.as_str().to_string())))
}

impl FilePattern {
    /// Compiles a regular expression; `None` where it is not one.
    pub fn new(source: &str) -> (pattern: Option<FilePattern>)
        ensures
            pattern is Some <==> regex_compiles(source@),
            pattern is Some ==> pattern->0@ == source@,
    {
        compile_regex(source)
    }

    /// The text of the expression.
    pub fn as_str(&self) -> (text: &str)
        ensures
            text@ == self@,
    {
        self.source.as_str()
    }
}

/// What is known of one entry of a directory.
#[derive(Debug, Clone, PartialEq, Eq)]
pub struct FileInfo {
    /// The path of the entry, as the directory was given joined with its name.
    pub path: String,
    /// When the entry was last modified, in Unix milliseconds.
    pub modified_ms: u64,
    /// Whether the entry is a directory.
    pub is_dir: bool,
}

/// The mathematical value of a [`FileInfo`].
pub ghost struct FileInfoView {
    pub path: Seq<char>,
    pub modified_ms: u64,
    pub is_dir: bool,
}

impl View for FileInfo {
    type V = FileInfoView;

    open spec fn view(&self) -> FileInfoView {
        FileInfoView { path: self.path@, modified_ms: self.modified_ms, is_dir: self.is_dir }
    }
}

/// The value of each entry of a listing.
pub open spec fn listing_view(listing: Seq<FileInfo>) -> Seq<FileInfoView> {
    Seq::new(listing.len(), |i: int| listing[i]@)
}

/// A file that belongs to a source, with what it is ranked by.
pub ghost struct Candidate {
    pub path: Seq<char>,
    pub rotation: int,
    pub modified_ms: int,
    pub is_dir: bool,
}

/// Whether the expression matches the whole of `path`.
pub open spec fn matches_in_full(pattern: Seq<char>, path: Seq<char>) -> bool {
    regex_span(pattern, path) == Some((0int, vstd::utf8::encode_utf8(path).len() as int))
}

/// The rotation index of a matching path: the number that the group
/// `rotation` captured, 0 where there is no such group or no number in it.
pub open spec fn rotation_of(pattern: Seq<char>, path: Seq<char>) -> int {
    match regex_group(pattern, path, "rotation"@) {
        Some(text) => match int_of_text(text) {
            Some(index) => index,
            None => 0,
        },
        None => 0,
    }
}

/// Whether an entry is kept: its path matches in full, and with a `from_ms`
/// above 0 it was not last modified before `from_ms`.
pub open spec fn is_candidate(pattern: Seq<char>, from_ms: u64, entry: FileInfoView) -> bool {
    matches_in_full(pattern, entry.path) && (from_ms > 0 ==> entry.modified_ms >= from_ms)
}

/// The entries of a listing that are kept, in the order of the listing.
pub open spec fn candidates(pattern: Seq<char>, from_ms: u64, listing: Seq<FileInfoView>) -> Seq<
    Candidate,
>
    decreases listing.len(),
{
    if listing.len() == 0 {
        Seq::empty()
    } else {
        let before = candidates(pattern, from_ms, listing.drop_last());
        let entry = listing.last();
        if is_candidate(pattern, from_ms, entry) {
            before.push(
                Candidate {
                    path: entry.path,
                    rotation: rotation_of(pattern, entry.path),
                    modified_ms: entry.modified_ms as int,
                    is_dir: entry.is_dir,
                },
            )
        } else {
            before
        }
    }
}

/// Whether `a` has to be read before `b`: it has the higher rotation index,
/// or the same index and was modified earlier.
pub open spec fn precedes(a: Candidate, b: Candidate) -> bool {
    a.rotation > b.rotation || (a.rotation == b.rotation && a.modified_ms < b.modified_ms)
}

/// Where a candidate goes in a ranked sequence: in front of the first one that
/// it has to be read before, at the end where there is none.
pub open spec fn place_of(ranked: Seq<Candidate>, c: Candidate) -> int
    decreases ranked.len(),
{
    if ranked.len() == 0 {
        0
    } else if precedes(c, ranked[0]) {
        0
    } else {
        1 + place_of(ranked.skip(1), c)
    }
}

/// The candidates in the order in which they are read: each one placed, in
/// the order of the listing, among those placed before it.
pub open spec fn ranked(cands: Seq<Candidate>) -> Seq<Candidate>
    decreases cands.len(),
{
    if cands.len() == 0 {
        Seq::empty()
    } else {
        let before = ranked(cands.drop_last());
        before.insert(place_of(before, cands.last()), cands.last())
    }
}

/// The paths of a sequence of candidates.
pub open spec fn paths_of(cands: Seq<Candidate>) -> Seq<Seq<char>> {
    Seq::new(cands.len(), |i: int| cands[i].path)
}

/// The directory that an expression over paths points into: the text in
/// front of its last `/` (`/` itself where that is the only one in front);
/// `None` where the expression holds no `/`.
pub open spec fn folder_of(pattern: Seq<char>) -> Option<Seq<char>> {
    if !pattern.contains('/') {
        None
    } else {
        let last = last_separator(pattern);
        if last == 0 {
            Some(seq!['/'])
        } else {
            Some(pattern.take(last))
        }
    }
}

/// The index of the last `/` of a text that holds one.
pub open spec fn last_separator(pattern: Seq<char>) -> int
    decreases pattern.len(),
{
    if pattern.len() == 0 {
        0
    } else if pattern.last() == '/' {
        pattern.len() - 1
    } else {
        last_separator(pattern.drop_last())
    }
}

/// Whether a sequence is in reading order: from each file to any later one
/// the rotation index does not rise, and where it stays the same the time
/// of last modification does not fall.
pub open spec fn in_reading_order(files: Seq<Candidate>) -> bool {
    forall|i: int, j: int|
        0 <= i < j < files.len() ==> (#[trigger] files[i]).rotation > (#[trigger] files[j]).rotation
            || (files[i].rotation == files[j].rotation && files[i].modified_ms
            <= files[j].modified_ms)
}

/// The place of a candidate lies within the sequence or at its end; it has to
/// be read before none of those in front of that place, and before the one at it.
proof fn lemma_place_of(files: Seq<Candidate>, c: Candidate)
    ensures
        0 <= place_of(files, c) <= files.len(),
        forall|k: int| 0 <= k < place_of(files, c) ==> !precedes(c, #[trigger] files[k]),
        place_of(files, c) < files.len() ==> precedes(c, files[place_of(files, c)]),
    decreases files.len(),
{
    if files.len() > 0 && !precedes(c, files[0]) {
        lemma_place_of(files.skip(1), c);
        assert forall|k: int| 0 <= k < place_of(files, c) implies !precedes(
            c,
            #[trigger] files[k],
        ) by {
            if k > 0 {
                assert(files[k] == files.skip(1)[k - 1]);
            }
        }
        if place_of(files, c) < files.len() {
            assert(files[place_of(files, c)] == files.skip(1)[place_of(files.skip(1), c)]);
        }
    }
}

/// Ranking keeps every candidate, keeps none twice, and yields the reading
/// order: descending rotation index, then ascending time of last
/// modification. So a file with rotation index 0, the live file, is followed
/// only by files whose index is not above 0.
pub proof fn lemma_ranked_in_reading_order(cands: Seq<Candidate>)
    ensures
        ranked(cands).len() == cands.len(),
        ranked(cands).to_multiset() == cands.to_multiset(),
        in_reading_order(ranked(cands)),
        forall|i: int, j: int|
            0 <= i < j < cands.len() && (#[trigger] ranked(cands)[i]).rotation == 0 ==> (
            #[trigger] ranked(cands)[j]).rotation <= 0,
    decreases cands.len(),
{
    broadcast use vstd::seq_lib::group_to_multiset_ensures;

    if cands.len() > 0 {
        let before = ranked(cands.drop_last());
        let c = cands.last();
        let at = place_of(before, c);
        lemma_ranked_in_reading_order(cands.drop_last());
        lemma_place_of(before, c);
        let after = before.insert(at, c);
        assert(after.remove(at) =~= before);
        assert(after[at] == c);
        assert(after.to_multiset() =~= before.to_multiset().insert(c));
        assert(cands.drop_last().push(c) =~= cands);
        assert(cands.to_multiset() =~= cands.drop_last().to_multiset().insert(c));
        assert forall|i: int, j: int| 0 <= i < j < after.len() implies (#[trigger] after[i]).rotation
            > (#[trigger] after[j]).rotation || (after[i].rotation == after[j].rotation
            && after[i].modified_ms <= after[j].modified_ms) by {
            if i < at && j > at {
                assert(after[i] == before[i] && after[j] == before[j - 1]);
            } else if i < at && j == at {
                assert(after[i] == before[i]);
            } else if i < at {
                assert(after[i] == before[i] && after[j] == before[j]);
            } else if i == at {
                assert(after[j] == before[j - 1]);
                assert(precedes(c, before[at]));
                if j - 1 > at {
                    assert(before[at].rotation > before[j - 1].rotation || (before[at].rotation
                        == before[j - 1].rotation && before[at].modified_ms
                        <= before[j - 1].modified_ms));
                }
            } else {
                assert(after[i] == before[i - 1] && after[j] == before[j - 1]);
            }
        }
    } else {
        assert(ranked(cands) =~= cands);
    }
}

/// A `/` with none behind it is the last one.
proof fn lemma_last_separator(pattern: Seq<char>, k: int)
    requires
        0 <= k < pattern.len(),
        pattern[k] == '/',
        forall|j: int| k < j < pattern.len() ==> pattern[j] != '/',
    ensures
        last_separator(pattern) == k,
        pattern.contains('/'),
    decreases pattern.len(),
{
    if pattern.last() != '/' {
        lemma_last_separator(pattern.drop_last(), k);
    }
}

/// A kept file during ranking.
struct RankedFile {
    path: String,
    rotation: i32,
    modified_ms: u64,
    is_dir: bool,
}

impl View for RankedFile {
    type V = Candidate;

    closed spec fn view(&self) -> Candidate {
        Candidate {
            path: self.path@,
            rotation: self.rotation as int,
            modified_ms: self.modified_ms as int,
            is_dir: self.is_dir,
        }
    }
}

spec fn ranked_view(files: Seq<RankedFile>) -> Seq<Candidate> {
    Seq::new(files.len(), |i: int| files[i]@)
}

/// Puts a file in its place among those ranked before it.
fn place(files: &mut Vec<RankedFile>, file: RankedFile)
    ensures
        ranked_view(final(files)@) == ranked_view(old(files)@).insert(
            place_of(ranked_view(old(files)@), file@),
            file@,
        ),
{
    let ghost before = ranked_view(files@);
    let mut at: usize = 0;
    assert(before.skip(0) =~= before);
    while at < files.len() && !(file.rotation > files[at].rotation || (file.rotation
        == files[at].rotation && file.modified_ms < files[at].modified_ms))
        invariant
            at <= files.len(),
            before == ranked_view(files@),
            place_of(before, file@) == at + place_of(before.skip(at as int), file@),
        decreases files.len() - at,
    {
        assert(before.skip(at as int)[0] == files@[at as int]@);
        assert(before.skip(at as int).skip(1) =~= before.skip(at + 1));
        at += 1;
    }
    proof {
        if at < files.len() {
            assert(before.skip(at as int)[0] == files@[at as int]@);
        }
        assert(place_of(before, file@) == at);
    }
    let ghost placed = file@;
    files.insert(at, file);
    assert(ranked_view(files@) =~= before.insert(at as int, placed));
}

/// The resolver of a file source.
pub struct FileSource;

impl FileSource {
    /// The directory that has to be listed for a file pattern; `None` where
    /// the pattern names none.
    pub fn folder(file_pattern: &FilePattern) -> (dir: Option<String>)
        ensures
            option_text(dir) == folder_of(file_pattern@),
    {
        let text = file_pattern.as_str();
        let n: usize = text.unicode_len();
        let mut i: usize = n;
        while i > 0
            invariant
                i <= n,
                n == text@.len(),
                text@ == file_pattern@,
                forall|j: int| i <= j < n ==> text@[j] != '/',
            decreases i,
        {
            if text.get_char(i - 1) == '/' {
                proof {
                    lemma_last_separator(text@, i - 1);
                }
                if i == 1 {
                    proof {
                        reveal_strlit("/");
                    }
                    let root = "/".to_owned();
                    assert(root@ =~= seq!['/']);
                    return Some(root);
                } else {
                    return Some(text.substring_char(0, i - 1).to_owned());
                }
            }
            i -= 1;
        }
        assert(!text@.contains('/'));
        None
    }

    /// Picks the files of a source out of the listing of its directory and
    /// puts them in reading order: by descending rotation index, then by
    /// ascending time of last modification, then as the listing had them.
    ///
    /// `listing` is `None` where the directory could not be read; that is the
    /// one case that fails.
    pub fn resolve_files(
        file_pattern: &FilePattern,
        from_ms: u64,
        listing: Option<&Vec<FileInfo>>,
    ) -> (files: Result<Vec<String>, ApplicationError>)
        ensures
            listing is None ==> files is Err && files->Err_0
                == ApplicationError::FailedToReadSource,
            listing is Some ==> files is Ok && crate::data::texts(files->Ok_0@) == paths_of(
                ranked(candidates(file_pattern@, from_ms, listing_view(listing->0@))),
            ),
    {
        let entries = match listing {
            Some(entries) => entries,
            None => {
                return Err(ApplicationError::FailedToReadSource);
            },
        };
        let kept = rank_files(file_pattern, from_ms, entries);
        let mut files: Vec<String> = Vec::new();
        let mut k: usize = 0;
        while k < kept.len()
            invariant
                k <= kept.len(),
                files@.len() == k,
                forall|j: int| 0 <= j < k ==> files@[j]@ == kept@[j].path@,
            decreases kept.len() - k,
        {
            files.push(kept[k].path.clone());
            k += 1;
        }
        assert(crate::data::texts(files@) =~= paths_of(ranked_view(kept@)));
        Ok(files)
    }

    /// Makes the lazy stream of a file source from the listing of its
    /// directory: one stream for each resolved file, in reading order, none
    /// of them opened yet. Where the request asks to watch, the last file is
    /// the one that is watched.
    ///
    /// Fails where the directory could not be read (`listing` is `None`) or
    /// where one of the resolved files is a directory.
    #[verifier::loop_isolation(false)]
    pub fn create_stream(
        file_pattern: &FilePattern,
        line_pattern: &Arc<LinePattern>,
        context: &Arc<LogQueryContext>,
        listing: Option<&Vec<FileInfo>>,
    ) -> (stream: Result<LogStream, ApplicationError>)
        ensures
            match stream {
                Ok(stream) => {
                    &&& listing is Some
                    &&& readable_files(
                        ranked(
                            candidates(file_pattern@, context@.from_ms, listing_view(listing->0@)),
                        ),
                    )
                    &&& stream.wf()
                    &&& stream@ == (LogStreamView::Files {
                        pattern: line_pattern@,
                        context: context@,
                        files: unopened_files(
                            ranked(
                                candidates(
                                    file_pattern@,
                                    context@.from_ms,
                                    listing_view(listing->0@),
                                ),
                            ),
                            context@.watch == Some(true),
                        ),
                    })
                },
                Err(error) => {
                    &&& error == ApplicationError::FailedToReadSource
                    &&& listing is Some ==> !readable_files(
                        ranked(
                            candidates(file_pattern@, context@.from_ms, listing_view(listing->0@)),
                        ),
                    )
                },
            },
    {
        let entries = match listing {
            Some(entries) => entries,
            None => {
                return Err(ApplicationError::FailedToReadSource);
            },
        };
        let kept = rank_files(file_pattern, context.from_ms, entries);
        let watch = match context.watch {
            Some(true) => true,
            _ => false,
        };
        let ghost goal = unopened_files(ranked_view(kept@), watch);
        let mut streams: Vec<FileLogStream> = Vec::new();
        let mut k: usize = 0;
        while k < kept.len()
            invariant
                k <= kept.len(),
                streams@.len() == k,
                goal == unopened_files(ranked_view(kept@), watch),
                forall|j: int| 0 <= j < k ==> !(#[trigger] kept@[j]).is_dir,
                forall|j: int| 0 <= j < k ==> (#[trigger] streams@[j]).wf(),
                forall|j: int| 0 <= j < k ==> (#[trigger] streams@[j])@ == goal[j],
            decreases kept.len() - k,
        {
            if kept[k].is_dir {
                assert(ranked_view(kept@)[k as int].is_dir);
                return Err(ApplicationError::FailedToReadSource);
            }
            let fstream = FileLogStream::new(kept[k].path.as_str());
            // the last file is the one that a tail goes on from
            let fstream = if watch && k + 1 == kept.len() {
                fstream.with_watch()
            } else {
                fstream
            };
            streams.push(fstream);
            k += 1;
        }
        assert(file_views(streams@) =~= goal);
        assert(readable_files(ranked_view(kept@))) by {
            assert forall|j: int| 0 <= j < ranked_view(kept@).len() implies !(
            #[trigger] ranked_view(kept@)[j]).is_dir by {
                assert(!kept@[j].is_dir);
            }
        }
        Ok(
            LogStream::Files {
                line_pattern: crate::shared::share(line_pattern),
                context: crate::shared::share(context),
                files: streams,
            },
        )
    }
}

/// Ranks the entries of a listing that belong to a source.
fn rank_files(file_pattern: &FilePattern, from_ms: u64, entries: &Vec<FileInfo>) -> (kept: Vec<
    RankedFile,
>)
    ensures
        ranked_view(kept@) == ranked(candidates(file_pattern@, from_ms, listing_view(entries@))),
{
    let ghost all = listing_view(entries@);
    let mut kept: Vec<RankedFile> = Vec::new();
    let mut i: usize = 0;
    assert(all.take(0) =~= Seq::<FileInfoView>::empty());
    while i < entries.len()
        invariant
            i <= entries.len(),
            all == listing_view(entries@),
            ranked_view(kept@) == ranked(candidates(file_pattern@, from_ms, all.take(i as int))),
        decreases entries.len() - i,
    {
        let entry = &entries[i];
        assert(all.take(i + 1).drop_last() =~= all.take(i as int));
        assert(all.take(i + 1).last() == entry@);
        let ghost before = candidates(file_pattern@, from_ms, all.take(i as int));
        let ghost keep = is_candidate(file_pattern@, from_ms, entry@);
        assert(candidates(file_pattern@, from_ms, all.take(i + 1)) == if keep {
            before.push(
                Candidate {
                    path: entry@.path,
                    rotation: rotation_of(file_pattern@, entry@.path),
                    modified_ms: entry@.modified_ms as int,
                    is_dir: entry@.is_dir,
                },
            )
        } else {
            before
        });
        match capture_group(file_pattern, entry.path.as_str(), "rotation") {
            Some((start, end, group)) => {
                if start == 0 && end == entry.path.as_str().as_bytes().len() && (from_ms == 0
                    || entry.modified_ms >= from_ms) {
                    let rotation: i32 = match group {
                        Some(text) => match parse_int(text.as_str()) {
                            Some(index) => index,
                            None => 0,
                        },
                        None => 0,
                    };
                    assert(keep);
                    assert(rotation == rotation_of(file_pattern@, entry@.path));
                    let ghost last = Candidate {
                        path: entry@.path,
                        rotation: rotation as int,
                        modified_ms: entry@.modified_ms as int,
                        is_dir: entry@.is_dir,
                    };
                    assert(before.push(last).drop_last() =~= before);
                    place(
                        &mut kept,
                        RankedFile {
                            path: entry.path.clone(),
                            rotation,
                            modified_ms: entry.modified_ms,
                            is_dir: entry.is_dir,
                        },
                    );
                } else {
                    assert(!keep);
                }
            },
            None => {
                assert(!keep);
            },
        }
        i += 1;
    }
    assert(all.take(entries.len() as int) =~= all);
    kept
}

/// Whether none of the files is a directory.
pub open spec fn readable_files(files: Seq<Candidate>) -> bool {
    forall|i: int| 0 <= i < files.len() ==> !(#[trigger] files[i]).is_dir
}

/// The streams of files that have not been opened, of which the last one is
/// watched where `watch` says so.
pub open spec fn unopened_files(files: Seq<Candidate>, watch: bool) -> Seq<FileLogStreamView> {
    Seq::new(
        files.len(),
        |i: int|
            FileLogStreamView {
                path: files[i].path,
                opened: false,
                watch: watch && i + 1 == files.len(),
                year: 0,
                max_line_length: 2048,
                frames: Seq::empty(),
            },
    )
}

} // verus!

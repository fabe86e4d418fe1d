//! The k-way merge of lazy source streams into one stream in time order.
//!
//! Each demand first asks every source that has nothing in the buffer for
//! its next entry, then emits the earliest buffered entry once every running
//! source has one there. A source that fails puts one entry into the output
//! that says so, and is left out from then on.
use crate::data::{ApplicationError, ParsedLine, StreamEntry, StreamEntryView};
use crate::merge_model::{
    emitted_stamps, entries_from, failure_entry, in_time_order, is_live, lemma_ask_keeps_done,
    lemma_ask_keeps_inv, lemma_emit_keeps_done, lemma_emit_keeps_inv,
    lemma_sources_do_not_matter, lemma_start_inv, lemma_supplied_keeps_done, slot_for, Buffered,
    MergeAnswer, MergeModel, SourceModel, SourceState,
};
use crate::stream::{FileRead, LogStream, LogStreamView, StreamAnswer, StreamPoll};
use crate::util::Modified;
use vstd::prelude::*;

verus! {

/// An entry that waits in the buffer, with the index of its source.
#[derive(Debug)]
pub struct BufferEntry {
    log_line: StreamEntry,
    source_idx: usize,
}

impl View for BufferEntry {
    type V = Buffered;

    closed spec fn view(&self) -> Buffered {
        Buffered { source: self.source_idx as int, entry: self.log_line@ }
    }
}

/// What the merge answers to a demand.
#[derive(Debug, Clone, PartialEq, Eq)]
pub enum MergePoll {
    /// The next entry of the merged stream.
    Entry(StreamEntry),
    /// Every source is done and every entry has been emitted.
    Finished,
    /// Nothing can be emitted before some source has answered.
    Pending,
    /// The source with this index cannot go on before it has been handed the
    /// file at this path.
    NeedsFile { source: usize, path: String },
}

impl View for MergePoll {
    type V = MergeAnswer;

    open spec fn view(&self) -> MergeAnswer {
        match self {
            MergePoll::Entry(entry) => MergeAnswer::Entry(entry@),
            MergePoll::Finished => MergeAnswer::Finished,
            MergePoll::Pending => MergeAnswer::Pending,
            MergePoll::NeedsFile { source, path } => MergeAnswer::NeedsFile {
                source: *source as int,
                path: path@,
            },
        }
    }
}

/// The record of what has happened in a merge.
pub ghost struct Record {
    pub taken: Seq<Seq<StreamEntryView>>,
    pub given: Seq<Seq<StreamEntryView>>,
    pub emitted: Seq<Buffered>,
}

/// The merge of the streams of several sources.
pub struct LogMerge {
    running_sources: usize,
    sources: Vec<LogStream>,
    source_state: Vec<SourceState>,
    buffer: Vec<BufferEntry>,
    current_timestamp: u64,
    record: Ghost<Record>,
}

/// The values of the entries of a buffer.
pub closed spec fn buffer_view(buffer: Seq<BufferEntry>) -> Seq<Buffered> {
    Seq::new(buffer.len(), |i: int| buffer[i]@)
}

/// The values of some streams.
pub open spec fn stream_views(sources: Seq<LogStream>) -> Seq<LogStreamView> {
    Seq::new(sources.len(), |s: int| sources[s]@)
}

impl View for LogMerge {
    type V = MergeModel;

    closed spec fn view(&self) -> MergeModel {
        MergeModel {
            sources: Seq::new(
                self.sources@.len(),
                |s: int| SourceModel { state: self.source_state@[s], stream: self.sources@[s]@ },
            ),
            buffer: buffer_view(self.buffer@),
            running: self.running_sources as int,
            current_timestamp: self.current_timestamp,
            taken: self.record@.taken,
            given: self.record@.given,
            emitted: self.record@.emitted,
        }
    }
}

impl LogMerge {
    /// Whether the merge is in a state that it can reach from its start.
    pub closed spec fn wf(&self) -> bool {
        &&& self.sources@.len() == self.source_state@.len()
        &&& forall|s: int| 0 <= s < self.sources@.len() ==> (#[trigger] self.sources@[s]).wf()
        &&& self@.inv()
        &&& self@.done_is_done()
    }

    /// A merge over these streams. Every source is asked at the first demand.
    pub fn new(sources: Vec<LogStream>) -> (merge: LogMerge)
        requires
            forall|s: int| 0 <= s < sources@.len() ==> (#[trigger] sources@[s]).wf(),
        ensures
            merge.wf(),
            merge@ == MergeModel::start(stream_views(sources@)),
    {
        let num_sources: usize = sources.len();
        let mut source_state: Vec<SourceState> = Vec::with_capacity(num_sources);
        let mut i: usize = 0;
        while i < num_sources
            invariant
                i <= num_sources,
                source_state@.len() == i,
                forall|s: int| 0 <= s < i ==> source_state@[s] == SourceState::NeedsPoll,
            decreases num_sources - i,
        {
            source_state.push(SourceState::NeedsPoll);
            i += 1;
        }
        let ghost start = MergeModel::start(stream_views(sources@));
        let merge = LogMerge {
            running_sources: num_sources,
            sources,
            source_state,
            buffer: Vec::with_capacity(num_sources),
            current_timestamp: 0,
            record: Ghost(
                Record {
                    taken: start.taken,
                    given: start.given,
                    emitted: Seq::empty(),
                },
            ),
        };
        proof {
            lemma_start_inv(stream_views(sources@));
            assert(merge@.sources =~= start.sources);
            assert(merge@.buffer =~= start.buffer);
        }
        merge
    }

    /// The number of sources.
    pub fn source_count(&self) -> (n: usize)
        ensures
            n == self@.sources.len(),
    {
        self.sources.len()
    }

    /// Where the source with index `s` stands.
    pub fn source_state(&self, s: usize) -> (state: SourceState)
        requires
            self.wf(),
            s < self@.sources.len(),
        ensures
            state == self@.sources[s as int].state,
    {
        self.source_state[s]
    }

    /// The number of entries that wait in the buffer.
    pub fn buffered(&self) -> (n: usize)
        ensures
            n == self@.buffer.len(),
    {
        self.buffer.len()
    }

    /// A merge that is well-formed is in a state of which the invariant of
    /// the merge holds.
    pub proof fn lemma_invariant(&self)
        requires
            self.wf(),
        ensures
            self@.inv(),
            self@.sources.len() == self@.taken.len(),
    {
    }

    /// The output is in time order. As long as every source has given its
    /// entries in time order, no dated entry of the output is dated before an
    /// earlier one; so of two entries emitted one after the other, both
    /// dated, the second is not dated before the first.
    pub proof fn lemma_output_in_time_order(&self)
        requires
            self.wf(),
            self@.sources_in_time_order(),
        ensures
            in_time_order(emitted_stamps(self@.emitted)),
            forall|i: int|
                0 <= i && i + 1 < self@.emitted.len() && (#[trigger] self@.emitted[i]).timestamp()
                    != 0 && self@.emitted[i + 1].timestamp() != 0 ==> self@.emitted[i].timestamp()
                    <= self@.emitted[i + 1].timestamp(),
    {
        let stamps = emitted_stamps(self@.emitted);
        assert forall|i: int|
            0 <= i && i + 1 < self@.emitted.len() && (#[trigger] self@.emitted[i]).timestamp() != 0
                && self@.emitted[i + 1].timestamp() != 0 implies self@.emitted[i].timestamp()
            <= self@.emitted[i + 1].timestamp() by {
            assert(stamps[i] == self@.emitted[i].timestamp());
            assert(stamps[i + 1] == self@.emitted[i + 1].timestamp());
        }
    }

    /// A failure stays with its source. Of each source, what has been
    /// emitted, with the entry that still waits in the buffer behind it, is
    /// what has gone into the buffer for that source, in the same order. And
    /// that is what the stream of the source gave, with exactly one entry
    /// more behind it if the source has failed, the one that says so, and
    /// with nothing more if it has not. Once the merge is finished, all of it
    /// has been emitted.
    pub proof fn lemma_failure_stays_with_its_source(&self, s: int)
        requires
            self.wf(),
            0 <= s < self@.sources.len(),
        ensures
            self@.has_buffered(s) ==> exists|i: int|
                0 <= i < self@.buffer.len() && (#[trigger] self@.buffer[i]).source == s
                    && self@.given[s] == entries_from(self@.emitted, s).push(self@.buffer[i].entry),
            !self@.has_buffered(s) ==> self@.given[s] == entries_from(self@.emitted, s),
            self@.sources[s].state != SourceState::Failed ==> self@.given[s] == self@.taken[s],
            self@.sources[s].state == SourceState::Failed ==> exists|timestamp: u64|
                self@.given[s] == self@.taken[s].push(#[trigger] failure_entry(timestamp)),
            self@.running == 0 && self@.buffer.len() == 0 ==> entries_from(self@.emitted, s)
                == self@.given[s],
    {
        let m = self@;
        if m.has_buffered(s) {
            let i = choose|i: int| 0 <= i < m.buffer.len() && (#[trigger] m.buffer[i]).source == s;
            assert(m.given[m.buffer[i].source] == entries_from(m.emitted, m.buffer[i].source).push(
                m.buffer[i].entry,
            ));
        }
        if m.sources[s].state == SourceState::Failed {
            let ts = choose|timestamp: u64|
                m.given[s] == m.taken[s].push(#[trigger] failure_entry(timestamp));
            assert(m.given[s] == m.taken[s].push(failure_entry(ts)));
        }
    }

    /// Nothing is lost. Once the merge is finished, every source is done, and
    /// what has been emitted of a source is all that the source has brought,
    /// in the same order; behind it stands the one entry that says that the
    /// source has failed, if it has, and nothing else.
    pub proof fn lemma_finished_has_emitted_all(&self, s: int)
        requires
            self.wf(),
            0 <= s < self@.sources.len(),
            self@.running == 0,
            self@.buffer.len() == 0,
        ensures
            self@.sources[s].state == SourceState::Finished || self@.sources[s].state
                == SourceState::Failed,
            self@.sources[s].state == SourceState::Finished ==> entries_from(self@.emitted, s)
                == self@.brought(s),
            self@.sources[s].state == SourceState::Failed ==> exists|timestamp: u64|
                entries_from(self@.emitted, s) == self@.brought(s).push(
                    #[trigger] failure_entry(timestamp),
                ),
    {
        broadcast use vstd::set::group_set_axioms;

        let m = self@;
        assert(!is_live(m.sources[s].state)) by {
            if is_live(m.sources[s].state) {
                assert(m.live_sources().contains(s));
                assert(m.live_sources().len() > 0);
            }
        }
        assert(!m.has_buffered(s));
        assert(m.given[s] == entries_from(m.emitted, s));
        assert(m.brought(s) =~= m.taken[s]);
        if m.sources[s].state == SourceState::Failed {
            let ts = choose|timestamp: u64|
                m.given[s] == m.taken[s].push(#[trigger] failure_entry(timestamp));
            assert(entries_from(m.emitted, s) == m.brought(s).push(failure_entry(ts)));
        }
    }

    /// Takes the first entry out of the buffer.
    fn next_entry(&mut self) -> (entry: BufferEntry)
        requires
            old(self).buffer@.len() > 0,
        ensures
            entry@ == buffer_view(old(self).buffer@)[0],
            buffer_view(final(self).buffer@) == buffer_view(old(self).buffer@).skip(1),
            final(self).sources == old(self).sources,
            final(self).source_state == old(self).source_state,
            final(self).running_sources == old(self).running_sources,
            final(self).current_timestamp == old(self).current_timestamp,
            final(self).record == old(self).record,
    {
        let entry = self.buffer.remove(0);
        assert(buffer_view(self.buffer@) =~= buffer_view(old(self).buffer@).skip(1));
        entry
    }

    /// Puts an entry into the buffer: in front of the first entry with a
    /// greater timestamp, or with the same timestamp and a source that stands
    /// later in the list of sources.
    fn insert_into_buffer(&mut self, log_line: StreamEntry, source_idx: usize)
        ensures
            buffer_view(final(self).buffer@) == buffer_view(old(self).buffer@).insert(
                slot_for(
                    buffer_view(old(self).buffer@),
                    log_line@.parsed_line.timestamp,
                    source_idx as int,
                ),
                Buffered { source: source_idx as int, entry: log_line@ },
            ),
            final(self).sources == old(self).sources,
            final(self).source_state == old(self).source_state,
            final(self).running_sources == old(self).running_sources,
            final(self).current_timestamp == old(self).current_timestamp,
            final(self).record == old(self).record,
    {
        let line = BufferEntry { log_line, source_idx };
        let ghost before = buffer_view(self.buffer@);
        let ghost stamp = line@.timestamp();
        let buffer_size: usize = self.buffer.len();
        let mut insert_at: usize = 0;
        assert(before.skip(0) =~= before);
        while insert_at < buffer_size && !(line.log_line.timestamp()
            < self.buffer[insert_at].log_line.timestamp() || (line.log_line.timestamp()
            == self.buffer[insert_at].log_line.timestamp() && source_idx
            < self.buffer[insert_at].source_idx))
            invariant
                insert_at <= buffer_size,
                buffer_size == self.buffer@.len(),
                before == buffer_view(self.buffer@),
                stamp == line@.timestamp(),
                line.source_idx == source_idx,
                self.buffer == old(self).buffer,
                slot_for(before, stamp, source_idx as int) == insert_at + slot_for(
                    before.skip(insert_at as int),
                    stamp,
                    source_idx as int,
                ),
            decreases buffer_size - insert_at,
        {
            assert(before.skip(insert_at as int)[0] == self.buffer@[insert_at as int]@);
            assert(before.skip(insert_at as int).skip(1) =~= before.skip(insert_at + 1));
            insert_at += 1;
        }
        proof {
            if insert_at < buffer_size {
                assert(before.skip(insert_at as int)[0] == self.buffer@[insert_at as int]@);
            }
        }
        let ghost placed = line@;
        self.buffer.insert(insert_at, line);
        assert(buffer_view(self.buffer@) =~= before.insert(insert_at as int, placed));
    }

    /// Puts the entry that stands for a failed source into the buffer, with
    /// the timestamp of the entry that was emitted last.
    fn inject_error(&mut self, _err: ApplicationError, source_idx: usize)
        ensures
            buffer_view(final(self).buffer@) == buffer_view(old(self).buffer@).insert(
                slot_for(
                    buffer_view(old(self).buffer@),
                    old(self).current_timestamp,
                    source_idx as int,
                ),
                Buffered {
                    source: source_idx as int,
                    entry: failure_entry(old(self).current_timestamp),
                },
            ),
            final(self).sources == old(self).sources,
            final(self).source_state == old(self).source_state,
            final(self).running_sources == old(self).running_sources,
            final(self).current_timestamp == old(self).current_timestamp,
            final(self).record == old(self).record,
    {
        let error = ParsedLine {
            timestamp: self.current_timestamp,
            loglevel: Some("ERROR".to_owned()),
            message: "A tentacle failed while retrieving the log.".to_owned(),
        };
        let log_line = StreamEntry::LogLine {
            line: "Failed while retrieving the log.".to_owned(),
            parsed_line: error,
        };
        self.insert_into_buffer(log_line, source_idx);
    }

    /// Asks the source with index `s`, which needs it, for its next entry.
    /// Returns the path of the file that the source asks for, if it does.
    fn poll_source(&mut self, s: usize) -> (wanted: Option<String>)
        requires
            old(self).wf(),
            s < old(self)@.sources.len(),
            old(self)@.sources[s as int].state == SourceState::NeedsPoll,
        ensures
            final(self).wf(),
            final(self)@ == old(self)@.ask(s as int).0,
            crate::data::option_text(wanted) == old(self)@.ask(s as int).1,
    {
        let ghost before = self@;
        let ghost goal = before.ask(s as int).0;
        let ghost answer = before.sources[s as int].stream.answer();
        proof {
            lemma_ask_keeps_inv(before, s as int);
            lemma_ask_keeps_done(before, s as int);
        }
        let poll = self.sources[s].poll_next();
        let ghost polled = self.sources@;
        assert(polled.len() == old(self).sources@.len());
        assert(forall|t: int|
            0 <= t < polled.len() && t != s ==> polled[t] == old(self).sources@[t]);
        assert(self@.sources =~= before.polled(s as int).sources);
        assert(self@ == before.polled(s as int));
        assert(poll@ == answer);
        match poll {
            StreamPoll::Entry(line) => {
                let ghost entry = line@;
                self.insert_into_buffer(line, s);
                self.source_state[s] = SourceState::Delivered;
                self.record = Ghost(
                    Record {
                        taken: before.taken.update(s as int, before.taken[s as int].push(entry)),
                        given: before.given.update(s as int, before.given[s as int].push(entry)),
                        ..self.record@
                    },
                );
                assert(self@.sources =~= goal.sources);
                assert(self@ == goal);
                None
            },
            StreamPoll::Finished => {
                self.source_state[s] = SourceState::Finished;
                self.running_sources -= 1;
                assert(self@.sources =~= goal.sources);
                assert(self@ == goal);
                None
            },
            StreamPoll::Pending => {
                self.source_state[s] = SourceState::NeedsPoll;
                assert(self@.sources =~= goal.sources);
                assert(self@ == goal);
                None
            },
            StreamPoll::Failed(error) => {
                self.inject_error(error, s);
                self.source_state[s] = SourceState::Failed;
                self.running_sources -= 1;
                self.record = Ghost(
                    Record {
                        given: before.given.update(
                            s as int,
                            before.given[s as int].push(failure_entry(before.current_timestamp)),
                        ),
                        ..self.record@
                    },
                );
                assert(self@.sources =~= goal.sources);
                assert(self@ == goal);
                None
            },
            StreamPoll::NeedsFile(path) => {
                assert(self@ == goal);
                Some(path)
            },
        }
    }

    /// Answers a demand for the next entry of the merged stream.
    ///
    /// Every source that needs it is asked for an entry, in the order of the
    /// sources. Where one of them asks for a file, so does the merge, and
    /// nothing is emitted. Else the first entry of the buffer is emitted if
    /// the buffer holds at least as many entries as sources are running; the
    /// merge is finished where no source is running and the buffer is empty,
    /// and has to wait otherwise.
    #[verifier::loop_isolation(false)]
    pub fn poll_next(&mut self) -> (poll: MergePoll)
        requires
            old(self).wf(),
        ensures
            final(self).wf(),
            final(self)@ == old(self)@.demand().0,
            poll@ == old(self)@.demand().1,
    {
        let ghost start = self@;
        let n: usize = self.source_state.len();
        let mut s: usize = 0;
        while s < n
            invariant
                self.wf(),
                s <= n,
                n == self@.sources.len(),
                self@.ask_from(s as int) == start.ask_from(0),
            decreases n - s,
        {
            let ghost current = self@;
            match self.source_state[s] {
                SourceState::NeedsPoll => {
                    match self.poll_source(s) {
                        Some(path) => {
                            assert(current.ask_from(s as int) == (
                                self@,
                                Some((s as int, path@)),
                            ));
                            return MergePoll::NeedsFile { source: s, path };
                        },
                        None => {
                            assert(current.ask_from(s as int) == self@.ask_from(s + 1));
                        },
                    }
                },
                _ => {
                    assert(current.ask_from(s as int) == current.ask_from(s + 1));
                },
            }
            s += 1;
        }
        let ghost asked = self@;
        proof {
            lemma_emit_keeps_inv(asked);
            lemma_emit_keeps_done(asked);
        }
        if self.running_sources == 0 && self.buffer.len() == 0 {
            MergePoll::Finished
        } else if self.running_sources <= self.buffer.len() {
            let entry = self.next_entry();
            if self.source_state[entry.source_idx] == SourceState::Delivered {
                self.source_state[entry.source_idx] = SourceState::NeedsPoll;
            }
            self.current_timestamp = entry.log_line.timestamp();
            self.record = Ghost(
                Record { emitted: asked.emitted.push(entry@), ..self.record@ },
            );
            assert(self@.sources =~= asked.emit().0.sources);
            assert(self@ == asked.emit().0);
            MergePoll::Entry(entry.log_line)
        } else {
            MergePoll::Pending
        }
    }

    /// Hands the source with index `source` what was read of the file that
    /// it asks for, and when that file was last modified, if that is known.
    /// Nothing else changes, and a source that asks for no file stays as it
    /// is.
    pub fn supply_file(&mut self, source: usize, content: FileRead, modified: Option<Modified>)
        requires
            old(self).wf(),
            source < old(self)@.sources.len(),
        ensures
            final(self).wf(),
            final(self)@ == old(self)@.supplied(source as int, content@, modified),
    {
        let ghost before = self@;
        self.sources[source].supply_file(content, modified);
        proof {
            let goal = before.supplied(source as int, content@, modified);
            assert(self@.sources =~= goal.sources);
            assert(self@ == goal);
            lemma_sources_do_not_matter(before, goal);
            lemma_supplied_keeps_done(before, source as int, content@, modified);
        }
    }
}

} // verus!

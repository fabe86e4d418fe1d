//! The merge as mathematics: its state, what one demand does to it, and the
//! record of what each source has given and what has been emitted.
use crate::data::{ApplicationError, ParsedLineView, StreamEntryView};
use crate::stream::{
    lemma_answer, lemma_supplied_without_need, LogStreamView, StreamAnswer, StreamEnd,
};
use vstd::prelude::*;

verus! {

/// Where a source stands in the merge.
#[derive(Debug, Clone, Copy, PartialEq, Eq, Structural)]
pub enum SourceState {
    /// It is asked for an entry at the next demand.
    NeedsPoll,
    /// Its entry waits in the buffer.
    Delivered,
    /// It is at its end.
    Finished,
    /// It has failed.
    Failed,
}

/// Whether a source may still give entries.
pub open spec fn is_live(state: SourceState) -> bool {
    state == SourceState::NeedsPoll || state == SourceState::Delivered
}

/// A source as the merge sees it.
pub ghost struct SourceModel {
    pub state: SourceState,
    /// Its stream.
    pub stream: LogStreamView,
}

/// An entry with the index of the source it came from.
pub ghost struct Buffered {
    pub source: int,
    pub entry: StreamEntryView,
}

impl Buffered {
    pub open spec fn timestamp(self) -> u64 {
        self.entry.parsed_line.timestamp
    }
}

/// What a demand on the merge is answered with.
pub ghost enum MergeAnswer {
    Entry(StreamEntryView),
    Finished,
    Pending,
    NeedsFile { source: int, path: Seq<char> },
}

/// The entry that is put into the output in place of a source that failed.
pub open spec fn failure_entry(timestamp: u64) -> StreamEntryView {
    StreamEntryView {
        line: "Failed while retrieving the log."@,
        parsed_line: ParsedLineView {
            timestamp,
            loglevel: Some("ERROR"@),
            message: "A tentacle failed while retrieving the log."@,
        },
    }
}

/// Whether an entry with this timestamp, of the source with this index,
/// leaves the buffer before another one: it has the smaller timestamp, or the
/// same one and its source stands earlier in the list of sources.
pub open spec fn leaves_before(timestamp: u64, source: int, other: Buffered) -> bool {
    timestamp < other.timestamp() || (timestamp == other.timestamp() && source < other.source)
}

/// Where an entry goes into a buffer: in front of the first entry that it
/// leaves before, at the end where there is none.
pub open spec fn slot_for(buffer: Seq<Buffered>, timestamp: u64, source: int) -> int
    decreases buffer.len(),
{
    if buffer.len() == 0 {
        0
    } else if leaves_before(timestamp, source, buffer[0]) {
        0
    } else {
        1 + slot_for(buffer.skip(1), timestamp, source)
    }
}

/// The state of a merge, with the record of what has happened in it.
pub ghost struct MergeModel {
    pub sources: Seq<SourceModel>,
    /// The entries that wait to be emitted, at most one of each source.
    pub buffer: Seq<Buffered>,
    /// The number of sources that may still give entries.
    pub running: int,
    /// The timestamp of the entry that was emitted last.
    pub current_timestamp: u64,
    /// For each source, the entries that its stream has given so far.
    pub taken: Seq<Seq<StreamEntryView>>,
    /// For each source, what has gone into the buffer for it: the entries
    /// taken and, behind them, the entry that stands for its failure.
    pub given: Seq<Seq<StreamEntryView>>,
    /// What has been emitted, first to last.
    pub emitted: Seq<Buffered>,
}

impl MergeModel {
    /// The state after an entry of source `s` has gone into the buffer.
    pub open spec fn with_buffered(self, s: int, entry: StreamEntryView) -> MergeModel {
        MergeModel {
            buffer: self.buffer.insert(
                slot_for(self.buffer, entry.parsed_line.timestamp, s),
                Buffered { source: s, entry },
            ),
            given: self.given.update(s, self.given[s].push(entry)),
            ..self
        }
    }

    /// The state after source `s` has been handed what was read of the file
    /// that it asks for, and when that file was last modified. Only the
    /// stream of that source changes.
    pub open spec fn supplied(
        self,
        s: int,
        content: crate::stream::FileReadView,
        modified: Option<crate::util::Modified>,
    ) -> MergeModel {
        MergeModel {
            sources: self.sources.update(
                s,
                SourceModel {
                    stream: self.sources[s].stream.supplied(content, modified),
                    ..self.sources[s]
                },
            ),
            ..self
        }
    }

    /// The state after source `s` has been given a new standing.
    pub open spec fn with_state(self, s: int, state: SourceState) -> MergeModel {
        MergeModel {
            sources: self.sources.update(s, SourceModel { state, ..self.sources[s] }),
            ..self
        }
    }

    /// Whether a source that has been asked has not answered.
    pub open spec fn awaits_answer(self) -> bool {
        exists|s: int|
            0 <= s < self.sources.len() && (#[trigger] self.sources[s]).state
                == SourceState::NeedsPoll
    }

    /// The state after the stream of source `s` has answered a demand, with
    /// nothing else changed yet.
    pub open spec fn polled(self, s: int) -> MergeModel {
        MergeModel {
            sources: self.sources.update(
                s,
                SourceModel { stream: self.sources[s].stream.after_poll(), ..self.sources[s] },
            ),
            ..self
        }
    }

    /// What the answer of source `s` does to the state.
    ///
    /// An entry goes into the buffer. The end of the stream and a failure
    /// take the source out of the running ones; for a failure an entry with
    /// the timestamp that was emitted last goes into the buffer. A stream
    /// that has to wait leaves everything as it is.
    pub open spec fn settle(self, s: int, answer: StreamAnswer) -> MergeModel {
        match answer {
            StreamAnswer::Entry(entry) => MergeModel {
                taken: self.taken.update(s, self.taken[s].push(entry)),
                ..self
            }.with_state(s, SourceState::Delivered).with_buffered(s, entry),
            StreamAnswer::Finished => MergeModel { running: self.running - 1, ..self }.with_state(
                s,
                SourceState::Finished,
            ),
            StreamAnswer::Failed(_) => MergeModel { running: self.running - 1, ..self }.with_state(
                s,
                SourceState::Failed,
            ).with_buffered(s, failure_entry(self.current_timestamp)),
            StreamAnswer::Pending => self,
            StreamAnswer::NeedsFile(_) => self,
        }
    }

    /// The state after source `s`, which needs it, has been asked for an
    /// entry, and the path of the file that it asks for, if it does.
    pub open spec fn ask(self, s: int) -> (MergeModel, Option<Seq<char>>) {
        let answer = self.sources[s].stream.answer();
        (
            self.polled(s).settle(s, answer),
            match answer {
                StreamAnswer::NeedsFile(path) => Some(path),
                _ => None,
            },
        )
    }

    /// The state after the sources from index `from` on that need it have
    /// been asked, one after the other, and the first of them that asks for a
    /// file, with the path. Behind such a source none is asked.
    pub open spec fn ask_from(self, from: int) -> (MergeModel, Option<(int, Seq<char>)>)
        decreases self.sources.len() - from,
    {
        if from < 0 || from >= self.sources.len() {
            (self, None)
        } else if self.sources[from].state != SourceState::NeedsPoll {
            self.ask_from(from + 1)
        } else {
            let (next, wanted) = self.ask(from);
            match wanted {
                Some(path) => (next, Some((from, path))),
                None => if next.sources.len() == self.sources.len() {
                    next.ask_from(from + 1)
                } else {
                    (next, None)
                },
            }
        }
    }

    /// What the merge does once the sources have been asked.
    ///
    /// With no source running and nothing buffered it is finished. With at
    /// least as many entries buffered as sources are running, the first entry
    /// of the buffer is emitted: its timestamp becomes the current one, and
    /// its source, if it had delivered, is asked again at the next demand.
    /// Otherwise the merge has to wait.
    pub open spec fn emit(self) -> (MergeModel, MergeAnswer) {
        if self.running == 0 && self.buffer.len() == 0 {
            (self, MergeAnswer::Finished)
        } else if self.running <= self.buffer.len() && self.buffer.len() > 0 {
            let first = self.buffer[0];
            let popped = MergeModel {
                buffer: self.buffer.skip(1),
                current_timestamp: first.timestamp(),
                emitted: self.emitted.push(first),
                ..self
            };
            (
                if self.sources[first.source].state == SourceState::Delivered {
                    popped.with_state(first.source, SourceState::NeedsPoll)
                } else {
                    popped
                },
                MergeAnswer::Entry(first.entry),
            )
        } else {
            (self, MergeAnswer::Pending)
        }
    }

    /// What one demand does: the sources that need it are asked; where one of
    /// them asks for a file, so does the merge; else it emits, ends or waits.
    pub open spec fn demand(self) -> (MergeModel, MergeAnswer) {
        let (asked, wanted) = self.ask_from(0);
        match wanted {
            Some((source, path)) => (asked, MergeAnswer::NeedsFile { source, path }),
            None => asked.emit(),
        }
    }
}

/// The entries of one source among buffered or emitted ones, in order.
pub open spec fn entries_from(log: Seq<Buffered>, s: int) -> Seq<StreamEntryView>
    decreases log.len(),
{
    if log.len() == 0 {
        Seq::empty()
    } else if log.last().source == s {
        entries_from(log.drop_last(), s).push(log.last().entry)
    } else {
        entries_from(log.drop_last(), s)
    }
}

impl MergeModel {
    /// The sources that may still give entries.
    pub open spec fn live_sources(self) -> Set<int> {
        Set::new(|s: int| 0 <= s < self.sources.len() && is_live(self.sources[s].state))
    }

    /// Whether an entry of source `s` waits in the buffer.
    pub open spec fn has_buffered(self, s: int) -> bool {
        exists|i: int| 0 <= i < self.buffer.len() && (#[trigger] self.buffer[i]).source == s
    }

    /// The state that a merge over these sources starts in.
    pub open spec fn start(streams: Seq<LogStreamView>) -> MergeModel {
        MergeModel {
            sources: Seq::new(
                streams.len(),
                |s: int| SourceModel { state: SourceState::NeedsPoll, stream: streams[s] },
            ),
            buffer: Seq::empty(),
            running: streams.len() as int,
            current_timestamp: 0,
            taken: Seq::new(streams.len(), |s: int| Seq::empty()),
            given: Seq::new(streams.len(), |s: int| Seq::empty()),
            emitted: Seq::empty(),
        }
    }

    /// How the parts of the state hang together.
    ///
    /// The buffer is in the order of the timestamps, and among equal
    /// timestamps in the order of the sources. It holds at most one entry of
    /// each source: the last one taken of a source that has
    /// delivered, none of a source that is to be asked or is at its end.
    /// `running` counts the sources that may still give entries, and the
    /// current timestamp is that of the entry emitted last.
    pub open spec fn shape(self) -> bool {
        &&& self.taken.len() == self.sources.len()
        &&& self.given.len() == self.sources.len()
        &&& forall|i: int|
            0 <= i < self.buffer.len() ==> 0 <= (#[trigger] self.buffer[i]).source
                < self.sources.len()
        &&& forall|i: int, j: int|
            0 <= i < j < self.buffer.len() ==> (#[trigger] self.buffer[i]).source != (
            #[trigger] self.buffer[j]).source
        &&& forall|i: int, j: int|
            0 <= i < j < self.buffer.len() ==> leaves_before(
                (#[trigger] self.buffer[i]).timestamp(),
                self.buffer[i].source,
                #[trigger] self.buffer[j],
            )
        &&& self.live_sources().finite()
        &&& self.running == self.live_sources().len()
        &&& forall|s: int|
            0 <= s < self.sources.len() && ((#[trigger] self.sources[s]).state
                == SourceState::NeedsPoll || self.sources[s].state == SourceState::Finished)
                ==> !self.has_buffered(s)
        &&& forall|s: int|
            0 <= s < self.sources.len() && (#[trigger] self.sources[s]).state
                == SourceState::Delivered ==> self.taken[s].len() > 0 && self.buffer.contains(
                Buffered { source: s, entry: self.taken[s].last() },
            )
        &&& if self.emitted.len() > 0 {
            self.current_timestamp == self.emitted.last().timestamp()
        } else {
            self.current_timestamp == 0
        }
    }

    /// Nothing is lost and nothing is made up: what has gone into the buffer
    /// for a source is what has been emitted of it and, behind that, what
    /// still waits in the buffer; and it is what the source's stream gave,
    /// with one entry more behind it if and only if the source has failed:
    /// the entry that stands for the failure.
    pub open spec fn conserves(self) -> bool {
        &&& forall|i: int|
            0 <= i < self.buffer.len() ==> self.given[(#[trigger] self.buffer[i]).source]
                == entries_from(self.emitted, self.buffer[i].source).push(self.buffer[i].entry)
        &&& forall|s: int|
            0 <= s < self.sources.len() && !self.has_buffered(s) ==> (#[trigger] self.given[s])
                == entries_from(self.emitted, s)
        &&& forall|s: int|
            0 <= s < self.sources.len() && (#[trigger] self.sources[s]).state
                != SourceState::Failed ==> self.given[s] == self.taken[s]
        &&& forall|s: int|
            0 <= s < self.sources.len() && (#[trigger] self.sources[s]).state
                == SourceState::Failed ==> exists|timestamp: u64|
                self.given[s] == self.taken[s].push(#[trigger] failure_entry(timestamp))
    }
}

/// The slot for an entry lies within the buffer or at its end; the entry
/// leaves before none of those in front of the slot, and before the one at it.
pub proof fn lemma_slot_for(buffer: Seq<Buffered>, timestamp: u64, source: int)
    ensures
        0 <= slot_for(buffer, timestamp, source) <= buffer.len(),
        forall|k: int|
            0 <= k < slot_for(buffer, timestamp, source) ==> !leaves_before(
                timestamp,
                source,
                #[trigger] buffer[k],
            ),
        slot_for(buffer, timestamp, source) < buffer.len() ==> leaves_before(
            timestamp,
            source,
            buffer[slot_for(buffer, timestamp, source)],
        ),
    decreases buffer.len(),
{
    if buffer.len() > 0 && !leaves_before(timestamp, source, buffer[0]) {
        let rest = buffer.skip(1);
        lemma_slot_for(rest, timestamp, source);
        assert forall|k: int| 0 <= k < slot_for(buffer, timestamp, source) implies !leaves_before(
            timestamp,
            source,
            #[trigger] buffer[k],
        ) by {
            if k > 0 {
                assert(buffer[k] == rest[k - 1]);
            }
        }
        if slot_for(buffer, timestamp, source) < buffer.len() {
            assert(buffer[slot_for(buffer, timestamp, source)] == rest[slot_for(
                rest,
                timestamp,
                source,
            )]);
        }
    }
}

/// Putting an entry of a source that has none in the buffer into its slot
/// keeps the buffer in order and with one entry of each source at most.
pub proof fn lemma_insert_keeps_buffer(m: MergeModel, s: int, entry: StreamEntryView)
    requires
        0 <= s < m.sources.len(),
        !m.has_buffered(s),
        forall|i: int|
            0 <= i < m.buffer.len() ==> 0 <= (#[trigger] m.buffer[i]).source < m.sources.len(),
        forall|i: int, j: int|
            0 <= i < j < m.buffer.len() ==> (#[trigger] m.buffer[i]).source != (
            #[trigger] m.buffer[j]).source,
        forall|i: int, j: int|
            0 <= i < j < m.buffer.len() ==> leaves_before(
                (#[trigger] m.buffer[i]).timestamp(),
                m.buffer[i].source,
                #[trigger] m.buffer[j],
            ),
    ensures
        ({
            let after = m.with_buffered(s, entry);
            &&& after.buffer.len() == m.buffer.len() + 1
            &&& after.buffer.contains(Buffered { source: s, entry })
            &&& forall|b: Buffered| m.buffer.contains(b) ==> after.buffer.contains(b)
            &&& forall|b: Buffered|
                after.buffer.contains(b) ==> m.buffer.contains(b) || b == (Buffered {
                    source: s,
                    entry,
                })
            &&& forall|i: int|
                0 <= i < after.buffer.len() ==> 0 <= (#[trigger] after.buffer[i]).source
                    < m.sources.len()
            &&& forall|i: int, j: int|
                0 <= i < j < after.buffer.len() ==> (#[trigger] after.buffer[i]).source != (
                #[trigger] after.buffer[j]).source
            &&& forall|i: int, j: int|
                0 <= i < j < after.buffer.len() ==> leaves_before(
                    (#[trigger] after.buffer[i]).timestamp(),
                    after.buffer[i].source,
                    #[trigger] after.buffer[j],
                )
        }),
{
    let stamp = entry.parsed_line.timestamp;
    let at = slot_for(m.buffer, stamp, s);
    let new = Buffered { source: s, entry };
    let after = m.with_buffered(s, entry).buffer;
    lemma_slot_for(m.buffer, stamp, s);
    assert(after == m.buffer.insert(at, new));
    assert(after[at] == new);
    assert forall|b: Buffered| m.buffer.contains(b) implies after.contains(b) by {
        let i = choose|i: int| 0 <= i < m.buffer.len() && m.buffer[i] == b;
        if i < at {
            assert(after[i] == b);
        } else {
            assert(after[i + 1] == b);
        }
    }
    assert forall|b: Buffered| after.contains(b) implies m.buffer.contains(b) || b == new by {
        let i = choose|i: int| 0 <= i < after.len() && after[i] == b;
        if i < at {
            assert(m.buffer[i] == b);
        } else if i > at {
            assert(m.buffer[i - 1] == b);
        }
    }
    assert forall|i: int| 0 <= i < after.len() implies 0 <= (#[trigger] after[i]).source
        < m.sources.len() by {
        if i < at {
            assert(after[i] == m.buffer[i]);
        } else if i > at {
            assert(after[i] == m.buffer[i - 1]);
        }
    }
    assert forall|i: int, j: int| 0 <= i < j < after.len() implies (#[trigger] after[i]).source
        != (#[trigger] after[j]).source && leaves_before(
        after[i].timestamp(),
        after[i].source,
        after[j],
    ) by {
        let a = if i < at {
            i
        } else {
            i - 1
        };
        let b = if j < at {
            j
        } else {
            j - 1
        };
        if i != at {
            assert(after[i] == m.buffer[a]);
        }
        if j != at {
            assert(after[j] == m.buffer[b]);
        }
        if i == at {
            assert(m.buffer[b].source != s);
            assert(leaves_before(stamp, s, m.buffer[at]));
            if at != b {
                assert(leaves_before(m.buffer[at].timestamp(), m.buffer[at].source, m.buffer[b]));
            }
        } else if j == at {
            assert(m.buffer[a].source != s);
            assert(!leaves_before(stamp, s, m.buffer[a]));
        }
    }
}

/// What is emitted is the buffered entry with the least timestamp, and among
/// the entries with that timestamp the one whose source stands first in the
/// list of sources.
pub proof fn lemma_emitted_leaves_first(m: MergeModel)
    requires
        m.shape(),
        m.emit().1 is Entry,
    ensures
        m.buffer.len() > 0,
        m.emit().1 == MergeAnswer::Entry(m.buffer[0].entry),
        forall|j: int|
            0 < j < m.buffer.len() ==> leaves_before(
                m.buffer[0].timestamp(),
                m.buffer[0].source,
                #[trigger] m.buffer[j],
            ),
{
    assert forall|j: int| 0 < j < m.buffer.len() implies leaves_before(
        m.buffer[0].timestamp(),
        m.buffer[0].source,
        #[trigger] m.buffer[j],
    ) by {
        assert(leaves_before(m.buffer[0].timestamp(), m.buffer[0].source, m.buffer[j]));
    }
}

/// Asking a source that needs it keeps the state in shape.
pub proof fn lemma_settle_keeps_shape(m: MergeModel, s: int, answer: StreamAnswer)
    requires
        m.shape(),
        0 <= s < m.sources.len(),
        m.sources[s].state == SourceState::NeedsPoll,
    ensures
        m.settle(s, answer).shape(),
        m.settle(s, answer).sources.len() == m.sources.len(),
        m.settle(s, answer).emitted == m.emitted,
        m.settle(s, answer).current_timestamp == m.current_timestamp,
        forall|t: int|
            0 <= t < m.sources.len() && t != s ==> (#[trigger] m.settle(s, answer).sources[t])
                == m.sources[t],
        m.running > 0,
{
    broadcast use vstd::set::group_set_axioms;

    let next = m.settle(s, answer);
    let source = m.sources[s];
    assert(m.live_sources().contains(s));
    assert(m.running > 0) by {
        if m.live_sources().len() == 0 {
            assert(m.live_sources() =~= Set::empty());
        }
    }
    if answer is Entry {
        let entry = answer->Entry_0;
        let before = MergeModel { taken: m.taken.update(s, m.taken[s].push(entry)), ..m }.with_state(
            s,
            SourceState::Delivered,
        );
        assert(!before.has_buffered(s)) by {
            assert(!m.has_buffered(s));
        }
        lemma_insert_keeps_buffer(before, s, entry);
        assert(next.live_sources() =~= m.live_sources());
        assert forall|t: int|
            0 <= t < next.sources.len() && ((#[trigger] next.sources[t]).state
                == SourceState::NeedsPoll || next.sources[t].state
                == SourceState::Finished) implies !next.has_buffered(t) by {
            assert(t != s);
            assert(m.sources[t] == next.sources[t]);
            assert(!m.has_buffered(t));
            if next.has_buffered(t) {
                let i = choose|i: int| 0 <= i < next.buffer.len() && next.buffer[i].source == t;
                assert(next.buffer.contains(next.buffer[i]));
                assert(m.buffer.contains(next.buffer[i]));
                let j = choose|j: int| 0 <= j < m.buffer.len() && m.buffer[j] == next.buffer[i];
                assert(m.buffer[j].source == t);
            }
        }
        assert forall|t: int|
            0 <= t < next.sources.len() && (#[trigger] next.sources[t]).state
                == SourceState::Delivered implies next.taken[t].len() > 0 && next.buffer.contains(
            Buffered { source: t, entry: next.taken[t].last() },
        ) by {
            if t != s {
                assert(m.sources[t] == next.sources[t]);
                assert(m.buffer.contains(Buffered { source: t, entry: m.taken[t].last() }));
            }
        }
    } else {
        match answer {
            StreamAnswer::Finished => {
                assert(next.buffer == m.buffer);
                assert(next.live_sources() =~= m.live_sources().remove(s));
                assert forall|t: int|
                    0 <= t < next.sources.len() && ((#[trigger] next.sources[t]).state
                        == SourceState::NeedsPoll || next.sources[t].state
                        == SourceState::Finished) implies !next.has_buffered(t) by {
                    if t != s {
                        assert(m.sources[t] == next.sources[t]);
                    }
                    assert(!m.has_buffered(t));
                }
                assert forall|t: int|
                    0 <= t < next.sources.len() && (#[trigger] next.sources[t]).state
                        == SourceState::Delivered implies next.taken[t].len() > 0
                    && next.buffer.contains(
                    Buffered { source: t, entry: next.taken[t].last() },
                ) by {
                    assert(m.sources[t] == next.sources[t]);
                }
            },
            StreamAnswer::Failed(_) => {
                let entry = failure_entry(m.current_timestamp);
                let before = MergeModel { running: m.running - 1, ..m }.with_state(s, SourceState::Failed);
                assert(!before.has_buffered(s)) by {
                    assert(!m.has_buffered(s));
                }
                lemma_insert_keeps_buffer(before, s, entry);
                assert(next.live_sources() =~= m.live_sources().remove(s));
                assert forall|t: int|
                    0 <= t < next.sources.len() && ((#[trigger] next.sources[t]).state
                        == SourceState::NeedsPoll || next.sources[t].state
                        == SourceState::Finished) implies !next.has_buffered(t) by {
                    assert(t != s);
                    assert(m.sources[t] == next.sources[t]);
                    assert(!m.has_buffered(t));
                    if next.has_buffered(t) {
                        let i = choose|i: int|
                            0 <= i < next.buffer.len() && next.buffer[i].source == t;
                        assert(next.buffer.contains(next.buffer[i]));
                        assert(m.buffer.contains(next.buffer[i]));
                        let j = choose|j: int|
                            0 <= j < m.buffer.len() && m.buffer[j] == next.buffer[i];
                        assert(m.buffer[j].source == t);
                    }
                }
                assert forall|t: int|
                    0 <= t < next.sources.len() && (#[trigger] next.sources[t]).state
                        == SourceState::Delivered implies next.taken[t].len() > 0
                    && next.buffer.contains(
                    Buffered { source: t, entry: next.taken[t].last() },
                ) by {
                    assert(t != s);
                    assert(m.sources[t] == next.sources[t]);
                    assert(m.buffer.contains(Buffered { source: t, entry: m.taken[t].last() }));
                }
            },
            StreamAnswer::Pending => {},
            StreamAnswer::NeedsFile(_) => {},
            StreamAnswer::Entry(_) => {},
        }
    }
}

/// Emitting keeps the state in shape.
pub proof fn lemma_emit_keeps_shape(m: MergeModel)
    requires
        m.shape(),
    ensures
        m.emit().0.shape(),
        m.emit().0.sources.len() == m.sources.len(),
{
    broadcast use vstd::set::group_set_axioms;

    let next = m.emit().0;
    if !(m.running == 0 && m.buffer.len() == 0) && m.running <= m.buffer.len() && m.buffer.len()
        > 0 {
        let first = m.buffer[0];
        let t0 = first.source;
        assert(m.has_buffered(t0));
        assert(next.buffer == m.buffer.skip(1));
        assert(next.live_sources() =~= m.live_sources());
        assert forall|i: int| 0 <= i < next.buffer.len() implies 0 <= (
        #[trigger] next.buffer[i]).source < next.sources.len() by {
            assert(next.buffer[i] == m.buffer[i + 1]);
        }
        assert forall|i: int, j: int| 0 <= i < j < next.buffer.len() implies (
        #[trigger] next.buffer[i]).source != (#[trigger] next.buffer[j]).source
            && leaves_before(next.buffer[i].timestamp(), next.buffer[i].source, next.buffer[j]) by {
            assert(next.buffer[i] == m.buffer[i + 1]);
            assert(next.buffer[j] == m.buffer[j + 1]);
        }
        assert forall|t: int|
            0 <= t < next.sources.len() && ((#[trigger] next.sources[t]).state
                == SourceState::NeedsPoll || next.sources[t].state
                == SourceState::Finished) implies !next.has_buffered(t) by {
            if next.has_buffered(t) {
                let i = choose|i: int| 0 <= i < next.buffer.len() && next.buffer[i].source == t;
                assert(next.buffer[i] == m.buffer[i + 1]);
                assert(m.has_buffered(t));
                assert(t == t0);
                assert(m.buffer[0].source != m.buffer[i + 1].source);
            }
        }
        assert forall|t: int|
            0 <= t < next.sources.len() && (#[trigger] next.sources[t]).state
                == SourceState::Delivered implies next.taken[t].len() > 0 && next.buffer.contains(
            Buffered { source: t, entry: next.taken[t].last() },
        ) by {
            assert(t != t0);
            assert(m.sources[t].state == SourceState::Delivered);
            let b = Buffered { source: t, entry: m.taken[t].last() };
            assert(m.buffer.contains(b));
            let i = choose|i: int| 0 <= i < m.buffer.len() && m.buffer[i] == b;
            assert(i != 0);
            assert(next.buffer[i - 1] == b);
        }
        assert(next.emitted.last() == first);
    }
}

/// What one more emitted entry adds to the entries of a source.
pub proof fn lemma_entries_from_push(log: Seq<Buffered>, b: Buffered, s: int)
    ensures
        entries_from(log.push(b), s) == if b.source == s {
            entries_from(log, s).push(b.entry)
        } else {
            entries_from(log, s)
        },
{
    assert(log.push(b).drop_last() =~= log);
}

/// Asking a source that needs it loses nothing and makes nothing up.
pub proof fn lemma_settle_keeps_conserving(m: MergeModel, s: int, answer: StreamAnswer)
    requires
        m.shape(),
        m.conserves(),
        0 <= s < m.sources.len(),
        m.sources[s].state == SourceState::NeedsPoll,
    ensures
        m.settle(s, answer).conserves(),
{
    let next = m.settle(s, answer);
    let source = m.sources[s];
    lemma_settle_keeps_shape(m, s, answer);
    assert(!m.has_buffered(s));
    assert(m.given[s] == entries_from(m.emitted, s));
    let grows = answer is Entry || answer is Failed;
    if grows {
        let entry = if answer is Entry {
            answer->Entry_0
        } else {
            failure_entry(m.current_timestamp)
        };
        let before = if answer is Entry {
            MergeModel { taken: m.taken.update(s, m.taken[s].push(entry)), ..m }.with_state(
            s,
            SourceState::Delivered,
        )
        } else {
            MergeModel { running: m.running - 1, ..m }.with_state(s, SourceState::Failed)
        };
        assert(next == before.with_buffered(s, entry));
        assert(!before.has_buffered(s));
        lemma_insert_keeps_buffer(before, s, entry);
        let new = Buffered { source: s, entry };
        assert forall|i: int| 0 <= i < next.buffer.len() implies next.given[(
        #[trigger] next.buffer[i]).source] == entries_from(
            next.emitted,
            next.buffer[i].source,
        ).push(next.buffer[i].entry) by {
            let b = next.buffer[i];
            assert(next.buffer.contains(b));
            if b != new {
                assert(m.buffer.contains(b));
                let j = choose|j: int| 0 <= j < m.buffer.len() && m.buffer[j] == b;
                assert(m.buffer[j].source != s);
            }
        }
        assert forall|t: int|
            0 <= t < next.sources.len() && !next.has_buffered(t) implies (
        #[trigger] next.given[t]) == entries_from(next.emitted, t) by {
            if t == s {
                let i = choose|i: int| 0 <= i < next.buffer.len() && next.buffer[i] == new;
                assert(next.buffer[i].source == s);
            } else {
                if m.has_buffered(t) {
                    let j = choose|j: int| 0 <= j < m.buffer.len() && m.buffer[j].source == t;
                    assert(m.buffer.contains(m.buffer[j]));
                    assert(next.buffer.contains(m.buffer[j]));
                    let i = choose|i: int|
                        0 <= i < next.buffer.len() && next.buffer[i] == m.buffer[j];
                    assert(next.buffer[i].source == t);
                }
            }
        }
        assert forall|t: int|
            0 <= t < next.sources.len() && (#[trigger] next.sources[t]).state
                != SourceState::Failed implies next.given[t] == next.taken[t] by {
            if t != s {
                assert(next.sources[t] == m.sources[t]);
            }
        }
        assert forall|t: int|
            0 <= t < next.sources.len() && (#[trigger] next.sources[t]).state
                == SourceState::Failed implies exists|timestamp: u64|
            next.given[t] == next.taken[t].push(#[trigger] failure_entry(timestamp)) by {
            if t != s {
                assert(next.sources[t] == m.sources[t]);
                let ts = choose|timestamp: u64|
                    m.given[t] == m.taken[t].push(#[trigger] failure_entry(timestamp));
                assert(next.given[t] == next.taken[t].push(failure_entry(ts)));
            } else {
                assert(next.given[t] == next.taken[t].push(failure_entry(m.current_timestamp)));
            }
        }
    } else {
        assert(next.buffer == m.buffer);
        assert(next.given == m.given);
        assert(next.taken == m.taken);
        assert forall|t: int|
            0 <= t < next.sources.len() && !next.has_buffered(t) implies (
        #[trigger] next.given[t]) == entries_from(next.emitted, t) by {
            assert(!m.has_buffered(t));
        }
        assert forall|t: int|
            0 <= t < next.sources.len() && (#[trigger] next.sources[t]).state
                != SourceState::Failed implies next.given[t] == next.taken[t] by {
            if t != s {
                assert(next.sources[t] == m.sources[t]);
            }
        }
        assert forall|t: int|
            0 <= t < next.sources.len() && (#[trigger] next.sources[t]).state
                == SourceState::Failed implies exists|timestamp: u64|
            next.given[t] == next.taken[t].push(#[trigger] failure_entry(timestamp)) by {
            assert(next.sources[t] == m.sources[t]);
            let ts = choose|timestamp: u64|
                m.given[t] == m.taken[t].push(#[trigger] failure_entry(timestamp));
            assert(next.given[t] == next.taken[t].push(failure_entry(ts)));
        }
    }
}

/// Emitting loses nothing and makes nothing up.
pub proof fn lemma_emit_keeps_conserving(m: MergeModel)
    requires
        m.shape(),
        m.conserves(),
    ensures
        m.emit().0.conserves(),
{
    let next = m.emit().0;
    lemma_emit_keeps_shape(m);
    if !(m.running == 0 && m.buffer.len() == 0) && m.running <= m.buffer.len() && m.buffer.len()
        > 0 {
        let first = m.buffer[0];
        let t0 = first.source;
        assert(m.has_buffered(t0));
        assert(next.buffer == m.buffer.skip(1));
        assert(next.given == m.given);
        assert(next.taken == m.taken);
        assert forall|i: int| 0 <= i < next.buffer.len() implies next.given[(
        #[trigger] next.buffer[i]).source] == entries_from(
            next.emitted,
            next.buffer[i].source,
        ).push(next.buffer[i].entry) by {
            assert(next.buffer[i] == m.buffer[i + 1]);
            assert(m.buffer[0].source != m.buffer[i + 1].source);
            lemma_entries_from_push(m.emitted, first, next.buffer[i].source);
        }
        assert forall|t: int|
            0 <= t < next.sources.len() && !next.has_buffered(t) implies (
        #[trigger] next.given[t]) == entries_from(next.emitted, t) by {
            lemma_entries_from_push(m.emitted, first, t);
            if t != t0 {
                if m.has_buffered(t) {
                    let j = choose|j: int| 0 <= j < m.buffer.len() && m.buffer[j].source == t;
                    assert(j != 0);
                    assert(next.buffer[j - 1] == m.buffer[j]);
                }
            }
        }
        assert forall|t: int|
            0 <= t < next.sources.len() && (#[trigger] next.sources[t]).state
                != SourceState::Failed implies next.given[t] == next.taken[t] by {
            if t != t0 {
                assert(next.sources[t] == m.sources[t]);
            } else {
                assert(m.sources[t0].state != SourceState::Failed);
            }
        }
        assert forall|t: int|
            0 <= t < next.sources.len() && (#[trigger] next.sources[t]).state
                == SourceState::Failed implies exists|timestamp: u64|
            next.given[t] == next.taken[t].push(#[trigger] failure_entry(timestamp)) by {
            assert(m.sources[t].state == SourceState::Failed);
            let ts = choose|timestamp: u64|
                m.given[t] == m.taken[t].push(#[trigger] failure_entry(timestamp));
            assert(next.given[t] == next.taken[t].push(failure_entry(ts)));
        }
    }
}

/// The timestamps of a sequence of entries.
pub open spec fn stamps(entries: Seq<StreamEntryView>) -> Seq<u64> {
    Seq::new(entries.len(), |i: int| entries[i].parsed_line.timestamp)
}

/// The timestamps of what has been emitted.
pub open spec fn emitted_stamps(log: Seq<Buffered>) -> Seq<u64> {
    Seq::new(log.len(), |i: int| log[i].timestamp())
}

/// Whether timestamps never fall from one to a later one, those that are 0
/// left aside: a timestamp of 0 says that a line could not be dated.
pub open spec fn in_time_order(ts: Seq<u64>) -> bool {
    forall|i: int, j: int|
        0 <= i < j < ts.len() && #[trigger] ts[i] != 0 && #[trigger] ts[j] != 0 ==> ts[i] <= ts[j]
}

/// The last timestamp of a sequence that is not 0; 0 where there is none.
pub open spec fn last_stamp(ts: Seq<u64>) -> u64
    decreases ts.len(),
{
    if ts.len() == 0 {
        0
    } else if ts.last() != 0 {
        ts.last()
    } else {
        last_stamp(ts.drop_last())
    }
}

/// In a sequence in time order no timestamp is above the last one that is not 0.
pub proof fn lemma_last_stamp_is_highest(ts: Seq<u64>)
    requires
        in_time_order(ts),
    ensures
        forall|i: int| 0 <= i < ts.len() ==> #[trigger] ts[i] <= last_stamp(ts),
    decreases ts.len(),
{
    if ts.len() > 0 {
        let front = ts.drop_last();
        assert forall|i: int, j: int|
            0 <= i < j < front.len() && #[trigger] front[i] != 0 && #[trigger] front[j]
                != 0 implies front[i] <= front[j] by {
            assert(front[i] == ts[i] && front[j] == ts[j]);
        }
        lemma_last_stamp_is_highest(front);
        assert forall|i: int| 0 <= i < ts.len() implies #[trigger] ts[i] <= last_stamp(ts) by {
            if i < ts.len() - 1 {
                assert(front[i] == ts[i]);
                if ts.last() != 0 && ts[i] != 0 {
                    assert(ts[i] <= ts[ts.len() - 1]);
                }
            }
        }
    }
}

/// The last timestamp that is not 0 is one of the sequence, or 0.
pub proof fn lemma_last_stamp_is_one(ts: Seq<u64>)
    ensures
        last_stamp(ts) == 0 || exists|i: int| 0 <= i < ts.len() && #[trigger] ts[i] == last_stamp(ts),
    decreases ts.len(),
{
    if ts.len() > 0 {
        if ts.last() != 0 {
            assert(ts[ts.len() - 1] == last_stamp(ts));
        } else {
            lemma_last_stamp_is_one(ts.drop_last());
            if last_stamp(ts) != 0 {
                let i = choose|i: int|
                    0 <= i < ts.drop_last().len() && #[trigger] ts.drop_last()[i] == last_stamp(
                        ts.drop_last(),
                    );
                assert(ts[i] == last_stamp(ts));
            }
        }
    }
}

/// A sequence with one more timestamp is in time order exactly if it was
/// before and the new timestamp is 0 or not below the last one that is not 0.
pub proof fn lemma_time_order_push(ts: Seq<u64>, x: u64)
    ensures
        in_time_order(ts.push(x)) <==> in_time_order(ts) && (x != 0 ==> x >= last_stamp(ts)),
        last_stamp(ts.push(x)) == if x != 0 {
            x
        } else {
            last_stamp(ts)
        },
{
    let more = ts.push(x);
    assert(more.drop_last() =~= ts);
    if in_time_order(more) {
        assert forall|i: int, j: int|
            0 <= i < j < ts.len() && #[trigger] ts[i] != 0 && #[trigger] ts[j] != 0 implies ts[i]
            <= ts[j] by {
            assert(more[i] == ts[i] && more[j] == ts[j]);
        }
        lemma_last_stamp_is_one(ts);
        if x != 0 && last_stamp(ts) != 0 {
            let i = choose|i: int| 0 <= i < ts.len() && #[trigger] ts[i] == last_stamp(ts);
            assert(more[i] == ts[i]);
            assert(more[ts.len() as int] == x);
        }
    }
    if in_time_order(ts) && (x != 0 ==> x >= last_stamp(ts)) {
        lemma_last_stamp_is_highest(ts);
        assert forall|i: int, j: int|
            0 <= i < j < more.len() && #[trigger] more[i] != 0 && #[trigger] more[j]
                != 0 implies more[i] <= more[j] by {
            assert(more[i] == ts[i]);
            if j < ts.len() {
                assert(more[j] == ts[j]);
            }
        }
    }
}

impl MergeModel {
    /// Whether each source has given its entries in time order.
    pub open spec fn sources_in_time_order(self) -> bool {
        forall|s: int|
            0 <= s < self.taken.len() ==> in_time_order(stamps(#[trigger] self.taken[s]))
    }

    /// The timestamp that nothing later may fall below: the last one emitted
    /// that is not 0.
    pub open spec fn high_water(self) -> u64 {
        last_stamp(emitted_stamps(self.emitted))
    }

    /// Whether what has been emitted is in time order and will stay so:
    /// nothing in the buffer is dated before the last dated entry emitted,
    /// no source that may still give entries has fallen behind it, and the
    /// entry that stands for a failed source is dated 0 or exactly as that
    /// entry is.
    pub open spec fn time_ordered(self) -> bool {
        &&& in_time_order(emitted_stamps(self.emitted))
        &&& forall|i: int|
            0 <= i < self.buffer.len() ==> (#[trigger] self.buffer[i]).timestamp() == 0
                || self.buffer[i].timestamp() >= self.high_water()
        &&& forall|s: int|
            0 <= s < self.sources.len() && is_live((#[trigger] self.sources[s]).state)
                ==> last_stamp(stamps(self.taken[s])) >= self.high_water()
        &&& forall|i: int|
            0 <= i < self.buffer.len() && self.sources[(#[trigger] self.buffer[i]).source].state
                == SourceState::Failed ==> self.buffer[i].timestamp() == 0
                || self.buffer[i].timestamp() == self.high_water()
    }

    /// The output is in time order as long as the sources are.
    pub open spec fn keeps_time(self) -> bool {
        self.sources_in_time_order() ==> self.time_ordered()
    }

    /// What holds of every state that a merge can reach.
    pub open spec fn inv(self) -> bool {
        self.shape() && self.conserves() && self.keeps_time()
    }
}

/// Distinct numbers of a finite set are not more than the set holds.
pub proof fn lemma_distinct_within(numbers: Seq<int>, set: Set<int>)
    requires
        set.finite(),
        forall|i: int| 0 <= i < numbers.len() ==> set.contains(#[trigger] numbers[i]),
        forall|i: int, j: int|
            0 <= i < j < numbers.len() ==> #[trigger] numbers[i] != #[trigger] numbers[j],
    ensures
        numbers.len() <= set.len(),
    decreases numbers.len(),
{
    broadcast use vstd::set::group_set_axioms;

    if numbers.len() > 0 {
        let last = numbers.last();
        let front = numbers.drop_last();
        assert(set.contains(numbers[numbers.len() - 1]));
        assert forall|i: int| 0 <= i < front.len() implies set.remove(last).contains(
            #[trigger] front[i],
        ) by {
            assert(front[i] == numbers[i]);
            assert(numbers[i] != numbers[numbers.len() - 1]);
        }
        assert forall|i: int, j: int| 0 <= i < j < front.len() implies #[trigger] front[i]
            != #[trigger] front[j] by {
            assert(front[i] == numbers[i] && front[j] == numbers[j]);
        }
        lemma_distinct_within(front, set.remove(last));
    }
}

/// Where the buffer holds as many entries as sources are running while a
/// source has yet to answer, one of the buffered entries stands for a source
/// that has failed.
pub proof fn lemma_early_meets_failure(m: MergeModel)
    requires
        m.shape(),
        m.running <= m.buffer.len(),
        m.awaits_answer(),
    ensures
        exists|i: int|
            0 <= i < m.buffer.len() && m.sources[(#[trigger] m.buffer[i]).source].state
                == SourceState::Failed,
{
    broadcast use vstd::set::group_set_axioms;

    if !exists|i: int|
        0 <= i < m.buffer.len() && m.sources[(#[trigger] m.buffer[i]).source].state
            == SourceState::Failed {
        let waiting = choose|s: int|
            0 <= s < m.sources.len() && (#[trigger] m.sources[s]).state == SourceState::NeedsPoll;
        let numbers = Seq::new(m.buffer.len(), |i: int| m.buffer[i].source);
        let others = m.live_sources().remove(waiting);
        assert(m.live_sources().contains(waiting));
        assert forall|i: int| 0 <= i < numbers.len() implies others.contains(
            #[trigger] numbers[i],
        ) by {
            let t = m.buffer[i].source;
            assert(m.has_buffered(t));
            assert(m.sources[t].state != SourceState::Failed);
            assert(m.sources[t].state == SourceState::Delivered);
        }
        assert forall|i: int, j: int| 0 <= i < j < numbers.len() implies #[trigger] numbers[i]
            != #[trigger] numbers[j] by {
            assert(m.buffer[i].source != m.buffer[j].source);
        }
        lemma_distinct_within(numbers, others);
        assert(false);
    }
}

/// Asking a source that needs it keeps the time order.
pub proof fn lemma_settle_keeps_time(m: MergeModel, s: int, answer: StreamAnswer)
    requires
        m.shape(),
        m.keeps_time(),
        0 <= s < m.sources.len(),
        m.sources[s].state == SourceState::NeedsPoll,
    ensures
        m.settle(s, answer).keeps_time(),
{
    let next = m.settle(s, answer);
    let source = m.sources[s];
    lemma_settle_keeps_shape(m, s, answer);
    if next.sources_in_time_order() {
        let grows = answer is Entry || answer is Failed;
        let entry = if answer is Entry {
            answer->Entry_0
        } else {
            failure_entry(m.current_timestamp)
        };
        assert(m.sources_in_time_order()) by {
            assert forall|t: int| 0 <= t < m.taken.len() implies in_time_order(
                stamps(#[trigger] m.taken[t]),
            ) by {
                assert(in_time_order(stamps(next.taken[t])));
                if t == s && answer is Entry {
                    assert(stamps(next.taken[s]) =~= stamps(m.taken[s]).push(
                        entry.parsed_line.timestamp,
                    ));
                    lemma_time_order_push(stamps(m.taken[s]), entry.parsed_line.timestamp);
                }
            }
        }
        assert(m.time_ordered());
        assert(next.high_water() == m.high_water());
        if grows {
            let before = if answer is Entry {
                MergeModel { taken: m.taken.update(s, m.taken[s].push(entry)), ..m }.with_state(
            s,
            SourceState::Delivered,
        )
            } else {
                MergeModel { running: m.running - 1, ..m }.with_state(s, SourceState::Failed)
            };
            assert(next == before.with_buffered(s, entry));
            assert(!before.has_buffered(s)) by {
                assert(!m.has_buffered(s));
            }
            lemma_insert_keeps_buffer(before, s, entry);
            let new = Buffered { source: s, entry };
            assert(new.timestamp() == 0 || new.timestamp() >= m.high_water()) by {
                if answer is Entry {
                    assert(stamps(next.taken[s]) =~= stamps(m.taken[s]).push(
                        entry.parsed_line.timestamp,
                    ));
                    lemma_time_order_push(stamps(m.taken[s]), entry.parsed_line.timestamp);
                    assert(is_live(m.sources[s].state));
                } else {
                    if m.emitted.len() > 0 {
                        assert(emitted_stamps(m.emitted).last() == m.emitted.last().timestamp());
                    }
                }
            }
            assert(answer is Failed ==> new.timestamp() == 0 || new.timestamp()
                == m.high_water()) by {
                if m.emitted.len() > 0 {
                    assert(emitted_stamps(m.emitted).last() == m.emitted.last().timestamp());
                }
            }
            assert forall|i: int|
                0 <= i < next.buffer.len() && next.sources[(#[trigger] next.buffer[i]).source].state
                    == SourceState::Failed implies next.buffer[i].timestamp() == 0
                || next.buffer[i].timestamp() == next.high_water() by {
                let b = next.buffer[i];
                assert(next.buffer.contains(b));
                if b != new {
                    assert(m.buffer.contains(b));
                    let j = choose|j: int| 0 <= j < m.buffer.len() && m.buffer[j] == b;
                    assert(m.has_buffered(b.source));
                    assert(b.source != s);
                    assert(next.sources[b.source] == m.sources[b.source]);
                    assert(m.sources[m.buffer[j].source].state == SourceState::Failed);
                }
            }
            assert forall|i: int| 0 <= i < next.buffer.len() implies (
            #[trigger] next.buffer[i]).timestamp() == 0 || next.buffer[i].timestamp()
                >= next.high_water() by {
                let b = next.buffer[i];
                assert(next.buffer.contains(b));
                if b != new {
                    assert(m.buffer.contains(b));
                    let j = choose|j: int| 0 <= j < m.buffer.len() && m.buffer[j] == b;
                    assert(m.buffer[j].timestamp() == 0 || m.buffer[j].timestamp()
                        >= m.high_water());
                }
            }
            assert forall|t: int|
                0 <= t < next.sources.len() && is_live(
                    (#[trigger] next.sources[t]).state,
                ) implies last_stamp(stamps(next.taken[t])) >= next.high_water() by {
                if t != s {
                    assert(next.sources[t] == m.sources[t]);
                } else {
                    assert(answer is Entry);
                    assert(stamps(next.taken[s]) =~= stamps(m.taken[s]).push(
                        entry.parsed_line.timestamp,
                    ));
                    lemma_time_order_push(stamps(m.taken[s]), entry.parsed_line.timestamp);
                    assert(is_live(m.sources[s].state));
                }
            }
        } else {
            assert(next.buffer == m.buffer);
            assert(next.taken == m.taken);
            assert forall|t: int|
                0 <= t < next.sources.len() && is_live(
                    (#[trigger] next.sources[t]).state,
                ) implies last_stamp(stamps(next.taken[t])) >= next.high_water() by {
                if t != s {
                    assert(next.sources[t] == m.sources[t]);
                } else {
                    assert(is_live(m.sources[s].state));
                }
            }
            assert forall|i: int|
                0 <= i < next.buffer.len() && next.sources[(#[trigger] next.buffer[i]).source].state
                    == SourceState::Failed implies next.buffer[i].timestamp() == 0
                || next.buffer[i].timestamp() == next.high_water() by {
                let t = m.buffer[i].source;
                assert(m.has_buffered(t));
                assert(t != s);
                assert(next.sources[t] == m.sources[t]);
            }
        }
    }
}

/// Emitting keeps the time order.
pub proof fn lemma_emit_keeps_time(m: MergeModel)
    requires
        m.shape(),
        m.keeps_time(),
    ensures
        m.emit().0.keeps_time(),
{
    let next = m.emit().0;
    lemma_emit_keeps_shape(m);
    if !(m.running == 0 && m.buffer.len() == 0) && m.running <= m.buffer.len() && m.buffer.len()
        > 0 {
        if next.sources_in_time_order() {
            let first = m.buffer[0];
            let t0 = first.source;
            let x = first.timestamp();
            assert(next.taken == m.taken);
            assert(m.time_ordered());
            assert(emitted_stamps(next.emitted) =~= emitted_stamps(m.emitted).push(x));
            lemma_time_order_push(emitted_stamps(m.emitted), x);
            assert(next.buffer == m.buffer.skip(1));
            // an entry that leaves while a source has yet to answer is
            // dated 0 or as the last dated entry emitted
            assert(x != 0 && m.awaits_answer() ==> x == m.high_water()) by {
                if x != 0 && m.awaits_answer() {
                    lemma_early_meets_failure(m);
                    let i = choose|i: int|
                        0 <= i < m.buffer.len() && m.sources[(#[trigger] m.buffer[i]).source].state
                            == SourceState::Failed;
                    assert(i == 0 || m.buffer[0].timestamp() <= m.buffer[i].timestamp());
                    assert(m.buffer[i].timestamp() == 0 || m.buffer[i].timestamp()
                        == m.high_water());
                }
            }
            assert forall|i: int| 0 <= i < next.buffer.len() implies (
            #[trigger] next.buffer[i]).timestamp() == 0 || next.buffer[i].timestamp()
                >= next.high_water() by {
                assert(next.buffer[i] == m.buffer[i + 1]);
                assert(m.buffer[0].timestamp() <= m.buffer[i + 1].timestamp());
            }
            assert forall|i: int|
                0 <= i < next.buffer.len() && next.sources[(#[trigger] next.buffer[i]).source].state
                    == SourceState::Failed implies next.buffer[i].timestamp() == 0
                || next.buffer[i].timestamp() == next.high_water() by {
                assert(next.buffer[i] == m.buffer[i + 1]);
                assert(m.buffer[0].source != m.buffer[i + 1].source);
                assert(m.buffer[0].timestamp() <= m.buffer[i + 1].timestamp());
                assert(next.sources[m.buffer[i + 1].source] == m.sources[m.buffer[i + 1].source]);
                assert(m.buffer[i + 1].timestamp() == 0 || m.buffer[i + 1].timestamp()
                    == m.high_water());
            }
            assert forall|t: int|
                0 <= t < next.sources.len() && is_live(
                    (#[trigger] next.sources[t]).state,
                ) implies last_stamp(stamps(next.taken[t])) >= next.high_water() by {
                if t != t0 {
                    assert(next.sources[t] == m.sources[t]);
                } else {
                    assert(m.sources[t0].state == SourceState::Delivered);
                }
                assert(is_live(m.sources[t].state));
                if x != 0 && !m.awaits_answer() {
                    // every source that may still give entries has one in
                    // the buffer, and that one is not dated before this one
                    assert(m.sources[t].state != SourceState::NeedsPoll);
                    assert(m.sources[t].state == SourceState::Delivered);
                    let b = Buffered { source: t, entry: m.taken[t].last() };
                    assert(m.buffer.contains(b));
                    let i = choose|i: int| 0 <= i < m.buffer.len() && m.buffer[i] == b;
                    assert(i == 0 || m.buffer[0].timestamp() <= m.buffer[i].timestamp());
                    assert(stamps(m.taken[t]).last() == b.timestamp());
                }
            }
        }
    }
}

/// The invariant does not speak of what the streams of the sources hold, only
/// of where the sources stand.
pub proof fn lemma_sources_do_not_matter(m: MergeModel, other: MergeModel)
    requires
        m.inv(),
        other.sources.len() == m.sources.len(),
        forall|s: int|
            0 <= s < m.sources.len() ==> (#[trigger] other.sources[s]).state == m.sources[s].state,
        other.buffer == m.buffer,
        other.running == m.running,
        other.current_timestamp == m.current_timestamp,
        other.taken == m.taken,
        other.given == m.given,
        other.emitted == m.emitted,
    ensures
        other.inv(),
{
    assert(other.live_sources() =~= m.live_sources());
    assert forall|s: int| other.has_buffered(s) == m.has_buffered(s) by {}
    assert forall|s: int|
        0 <= s < other.sources.len() && ((#[trigger] other.sources[s]).state
            == SourceState::NeedsPoll || other.sources[s].state
            == SourceState::Finished) implies !other.has_buffered(s) by {
        assert(m.sources[s].state == other.sources[s].state);
    }
    assert forall|s: int|
        0 <= s < other.sources.len() && (#[trigger] other.sources[s]).state
            == SourceState::Delivered implies other.taken[s].len() > 0 && other.buffer.contains(
        Buffered { source: s, entry: other.taken[s].last() },
    ) by {
        assert(m.sources[s].state == other.sources[s].state);
    }
    assert forall|s: int|
        0 <= s < other.sources.len() && !other.has_buffered(s) implies (
    #[trigger] other.given[s]) == entries_from(other.emitted, s) by {
        assert(!m.has_buffered(s));
    }
    assert forall|s: int|
        0 <= s < other.sources.len() && (#[trigger] other.sources[s]).state
            != SourceState::Failed implies other.given[s] == other.taken[s] by {
        assert(m.sources[s].state == other.sources[s].state);
    }
    assert forall|s: int|
        0 <= s < other.sources.len() && (#[trigger] other.sources[s]).state
            == SourceState::Failed implies exists|timestamp: u64|
        other.given[s] == other.taken[s].push(#[trigger] failure_entry(timestamp)) by {
        assert(m.sources[s].state == other.sources[s].state);
        let ts = choose|timestamp: u64|
            m.given[s] == m.taken[s].push(#[trigger] failure_entry(timestamp));
        assert(other.given[s] == other.taken[s].push(failure_entry(ts)));
    }
    if other.sources_in_time_order() {
        assert(m.time_ordered());
        assert forall|s: int|
            0 <= s < other.sources.len() && is_live(
                (#[trigger] other.sources[s]).state,
            ) implies last_stamp(stamps(other.taken[s])) >= other.high_water() by {
            assert(m.sources[s].state == other.sources[s].state);
        }
        assert forall|i: int|
            0 <= i < other.buffer.len() && other.sources[(
            #[trigger] other.buffer[i]).source].state == SourceState::Failed implies other.buffer[i].timestamp()
            == 0 || other.buffer[i].timestamp() == other.high_water() by {
            let t = m.buffer[i].source;
            assert(m.sources[t].state == other.sources[t].state);
        }
    }
}

impl MergeModel {
    /// All that source `s` has brought so far: the entries that its stream
    /// has given, and behind them those that the stream still has at hand.
    pub open spec fn brought(self, s: int) -> Seq<StreamEntryView> {
        self.taken[s] + self.sources[s].stream.at_hand()
    }
}

/// Asking a source moves an entry from its stream into the record, or
/// nothing: what each source has brought stays the same.
pub proof fn lemma_ask_moves_entries(m: MergeModel, s: int, t: int)
    requires
        m.shape(),
        0 <= s < m.sources.len(),
        0 <= t < m.sources.len(),
        m.sources[s].state == SourceState::NeedsPoll,
    ensures
        m.ask(s).0.brought(t) == m.brought(t),
{
    let next = m.ask(s).0;
    let stream = m.sources[s].stream;
    let answer = stream.answer();
    lemma_answer(stream);
    assert(next.sources.len() == m.sources.len());
    if t == s {
        assert(next.sources[s].stream == stream.after_poll());
        match answer {
            StreamAnswer::Entry(entry) => {
                assert(next.taken[s] == m.taken[s].push(entry));
                assert(m.taken[s].push(entry) + stream.at_hand().skip(1) =~= m.taken[s]
                    + stream.at_hand());
            },
            _ => {
                assert(next.taken[s] == m.taken[s]);
                assert(next.brought(s) =~= m.brought(s));
            },
        }
    } else {
        assert(next.sources[t] == m.sources[t]);
        assert(next.taken[t] == m.taken[t]);
    }
}

/// A demand loses no entry: it moves entries from the streams into the
/// record, so that what each source has brought stays the same.
pub proof fn lemma_demand_moves_entries(m: MergeModel, t: int)
    requires
        m.inv(),
        0 <= t < m.sources.len(),
    ensures
        m.demand().0.brought(t) == m.brought(t),
{
    lemma_ask_from_moves_entries(m, 0, t);
    lemma_ask_from_keeps_inv(m, 0);
}

/// Asking the sources from an index on keeps what each source has brought.
pub proof fn lemma_ask_from_moves_entries(m: MergeModel, from: int, t: int)
    requires
        m.inv(),
        0 <= from,
        0 <= t < m.sources.len(),
    ensures
        m.ask_from(from).0.brought(t) == m.brought(t),
    decreases m.sources.len() - from,
{
    if from < m.sources.len() {
        if m.sources[from].state != SourceState::NeedsPoll {
            lemma_ask_from_moves_entries(m, from + 1, t);
        } else {
            lemma_ask_keeps_inv(m, from);
            lemma_ask_moves_entries(m, from, t);
            let (next, wanted) = m.ask(from);
            if wanted is None {
                lemma_ask_from_moves_entries(next, from + 1, t);
            }
        }
    }
}

impl MergeModel {
    /// Whether the sources that are done have nothing left: the stream of a
    /// source that is finished or has failed has no entry at hand and is at
    /// its end.
    pub open spec fn done_is_done(self) -> bool {
        forall|s: int|
            0 <= s < self.sources.len() && !is_live((#[trigger] self.sources[s]).state)
                ==> self.sources[s].stream.at_hand().len() == 0 && self.sources[s].stream.end()
                == StreamEnd::Finished
    }
}

/// Asking a source that needs it leaves nothing behind in a source that is done.
pub proof fn lemma_ask_keeps_done(m: MergeModel, s: int)
    requires
        m.done_is_done(),
        0 <= s < m.sources.len(),
        m.sources[s].state == SourceState::NeedsPoll,
    ensures
        m.ask(s).0.done_is_done(),
{
    let next = m.ask(s).0;
    lemma_answer(m.sources[s].stream);
    assert(next.sources.len() == m.sources.len());
    assert forall|t: int|
        0 <= t < next.sources.len() && !is_live((#[trigger] next.sources[t]).state) implies next.sources[t].stream.at_hand().len()
        == 0 && next.sources[t].stream.end() == StreamEnd::Finished by {
        if t != s {
            assert(next.sources[t] == m.sources[t]);
        } else {
            assert(next.sources[s].stream == m.sources[s].stream.after_poll());
        }
    }
}

/// Asking the sources from an index on leaves nothing behind in a source
/// that is done.
pub proof fn lemma_ask_from_keeps_done(m: MergeModel, from: int)
    requires
        m.inv(),
        m.done_is_done(),
        0 <= from,
    ensures
        m.ask_from(from).0.done_is_done(),
    decreases m.sources.len() - from,
{
    if from < m.sources.len() {
        if m.sources[from].state != SourceState::NeedsPoll {
            lemma_ask_from_keeps_done(m, from + 1);
        } else {
            lemma_ask_keeps_inv(m, from);
            lemma_ask_keeps_done(m, from);
            let (next, wanted) = m.ask(from);
            if wanted is None {
                lemma_ask_from_keeps_done(next, from + 1);
            }
        }
    }
}

/// Emitting leaves nothing behind in a source that is done.
pub proof fn lemma_emit_keeps_done(m: MergeModel)
    requires
        m.shape(),
        m.done_is_done(),
    ensures
        m.emit().0.done_is_done(),
{
    let next = m.emit().0;
    lemma_emit_keeps_shape(m);
    assert forall|t: int|
        0 <= t < next.sources.len() && !is_live((#[trigger] next.sources[t]).state) implies next.sources[t].stream.at_hand().len()
        == 0 && next.sources[t].stream.end() == StreamEnd::Finished by {
        assert(next.sources[t].stream == m.sources[t].stream);
        assert(!is_live(m.sources[t].state));
    }
}

/// Handing a file to a source leaves nothing behind in a source that is done.
pub proof fn lemma_supplied_keeps_done(
    m: MergeModel,
    s: int,
    content: crate::stream::FileReadView,
    modified: Option<crate::util::Modified>,
)
    requires
        m.done_is_done(),
        0 <= s < m.sources.len(),
    ensures
        m.supplied(s, content, modified).done_is_done(),
{
    let next = m.supplied(s, content, modified);
    assert forall|t: int|
        0 <= t < next.sources.len() && !is_live((#[trigger] next.sources[t]).state) implies next.sources[t].stream.at_hand().len()
        == 0 && next.sources[t].stream.end() == StreamEnd::Finished by {
        if t == s {
            assert(!is_live(m.sources[s].state));
            lemma_supplied_without_need(m.sources[s].stream, content, modified);
        } else {
            assert(next.sources[t] == m.sources[t]);
        }
    }
}

/// A merge starts in a state of which the invariant holds.
pub proof fn lemma_start_inv(streams: Seq<LogStreamView>)
    ensures
        MergeModel::start(streams).inv(),
{
    broadcast use vstd::set::group_set_axioms;

    let m = MergeModel::start(streams);
    let n = streams.len() as int;
    vstd::set_lib::lemma_int_range(0, n);
    assert(m.live_sources() =~= vstd::set_lib::set_int_range(0, n));
    assert(emitted_stamps(m.emitted) =~= Seq::<u64>::empty());
    assert forall|s: int|
        0 <= s < m.sources.len() && is_live((#[trigger] m.sources[s]).state) implies last_stamp(
        stamps(m.taken[s]),
    ) >= m.high_water() by {}
}

/// Asking a source that needs it keeps the invariant.
pub proof fn lemma_ask_keeps_inv(m: MergeModel, s: int)
    requires
        m.inv(),
        0 <= s < m.sources.len(),
        m.sources[s].state == SourceState::NeedsPoll,
    ensures
        m.ask(s).0.inv(),
        m.ask(s).0.sources.len() == m.sources.len(),
        m.running > 0,
{
    let answer = m.sources[s].stream.answer();
    let polled = m.polled(s);
    lemma_sources_do_not_matter(m, polled);
    lemma_settle_keeps_shape(polled, s, answer);
    lemma_settle_keeps_conserving(polled, s, answer);
    lemma_settle_keeps_time(polled, s, answer);
}

/// Asking the sources from an index on keeps the invariant.
pub proof fn lemma_ask_from_keeps_inv(m: MergeModel, from: int)
    requires
        m.inv(),
        0 <= from,
    ensures
        m.ask_from(from).0.inv(),
        m.ask_from(from).0.sources.len() == m.sources.len(),
    decreases m.sources.len() - from,
{
    if from < m.sources.len() {
        if m.sources[from].state != SourceState::NeedsPoll {
            lemma_ask_from_keeps_inv(m, from + 1);
        } else {
            lemma_ask_keeps_inv(m, from);
            let (next, wanted) = m.ask(from);
            if wanted is None {
                lemma_ask_from_keeps_inv(next, from + 1);
            }
        }
    }
}

/// Emitting keeps the invariant.
pub proof fn lemma_emit_keeps_inv(m: MergeModel)
    requires
        m.inv(),
    ensures
        m.emit().0.inv(),
        m.emit().0.sources.len() == m.sources.len(),
{
    lemma_emit_keeps_shape(m);
    lemma_emit_keeps_conserving(m);
    lemma_emit_keeps_time(m);
}

/// A demand keeps the invariant.
pub proof fn lemma_demand_keeps_inv(m: MergeModel)
    requires
        m.inv(),
    ensures
        m.demand().0.inv(),
        m.demand().0.sources.len() == m.sources.len(),
{
    lemma_ask_from_keeps_inv(m, 0);
    let (asked, wanted) = m.ask_from(0);
    if wanted is None {
        lemma_emit_keeps_inv(asked);
    }
}

} // verus!

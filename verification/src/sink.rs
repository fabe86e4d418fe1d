//! Delivery under backpressure: frames go from the body of a response into a
//! bounded queue, and a frame that finds the queue full is held back until
//! there is room. No frame is dropped and none overtakes another.
use crate::data::ApplicationError;
use crate::stream::{FileRead, FileReadView};
use crate::logsource_port::{ContentStream, FramePoll, ResponseEncoderView};
use crate::merge_model::{MergeAnswer, MergeModel};
use crate::util::Modified;
use vstd::prelude::*;

verus! {

/// The bytes of an optional frame.
pub open spec fn option_bytes(frame: Option<Vec<u8>>) -> Option<Seq<u8>> {
    match frame {
        Some(bytes) => Some(bytes@),
        None => None,
    }
}

/// The number of bytes that some frames hold together.
pub open spec fn total_bytes(frames: Seq<Seq<u8>>) -> nat
    decreases frames.len(),
{
    if frames.len() == 0 {
        0
    } else {
        total_bytes(frames.drop_last()) + frames.last().len()
    }
}

/// Without their first frame, frames hold as many bytes fewer as that frame holds.
pub proof fn lemma_total_bytes_skip(frames: Seq<Seq<u8>>)
    requires
        frames.len() > 0,
    ensures
        total_bytes(frames.skip(1)) + frames[0].len() == total_bytes(frames),
    decreases frames.len(),
{
    if frames.len() == 1 {
        assert(frames.skip(1) =~= Seq::<Seq<u8>>::empty());
        assert(frames.drop_last() =~= Seq::<Seq<u8>>::empty());
    } else {
        lemma_total_bytes_skip(frames.drop_last());
        assert(frames.skip(1).drop_last() =~= frames.drop_last().skip(1));
        assert(frames.skip(1).last() == frames.last());
        assert(frames.drop_last()[0] == frames[0]);
    }
}

/// A bounded queue of frames between the encoder and the transport.
pub struct DeliverySink {
    queue: Vec<Vec<u8>>,
    buffered: usize,
    limit: usize,
}

/// The mathematical value of a [`DeliverySink`].
pub ghost struct DeliverySinkView {
    /// The frames that wait to be sent, first to last.
    pub queue: Seq<Seq<u8>>,
    /// The number of bytes that the queue may hold.
    pub limit: nat,
}

impl DeliverySinkView {
    /// Whether the sink takes a frame of this length: an empty queue takes
    /// any frame, another one a frame that fits within the limit.
    pub open spec fn accepts(self, len: nat) -> bool {
        self.queue.len() == 0 || total_bytes(self.queue) + len <= self.limit
    }
}

/// The contents of some frames.
pub open spec fn frame_views(frames: Seq<Vec<u8>>) -> Seq<Seq<u8>> {
    Seq::new(frames.len(), |i: int| frames[i]@)
}

impl View for DeliverySink {
    type V = DeliverySinkView;

    closed spec fn view(&self) -> DeliverySinkView {
        DeliverySinkView { queue: frame_views(self.queue@), limit: self.limit as nat }
    }
}

impl DeliverySink {
    /// Whether the count of buffered bytes is right.
    pub closed spec fn wf(&self) -> bool {
        self.buffered == total_bytes(frame_views(self.queue@))
    }

    /// An empty sink that holds up to `limit` bytes.
    pub fn new(limit: usize) -> (sink: DeliverySink)
        ensures
            sink.wf(),
            sink@ == (DeliverySinkView { queue: Seq::empty(), limit: limit as nat }),
    {
        let sink = DeliverySink { queue: Vec::new(), buffered: 0, limit };
        assert(frame_views(sink.queue@) =~= Seq::<Seq<u8>>::empty());
        sink
    }

    /// An empty sink with the usual limit of 1024 times 1024 bytes.
    pub fn with_default_limit() -> (sink: DeliverySink)
        ensures
            sink.wf(),
            sink@ == (DeliverySinkView { queue: Seq::empty(), limit: 1048576 }),
    {
        DeliverySink::new(1048576)
    }

    /// Puts a frame at the end of the queue, or hands it back where the
    /// queue is full.
    pub fn offer(&mut self, frame: Vec<u8>) -> (taken: Result<(), Vec<u8>>)
        requires
            old(self).wf(),
        ensures
            final(self).wf(),
            match taken {
                Ok(_) => old(self)@.accepts(frame@.len()) && final(self)@ == (DeliverySinkView {
                    queue: old(self)@.queue.push(frame@),
                    ..old(self)@
                }),
                Err(back) => !old(self)@.accepts(frame@.len()) && final(self)@ == old(self)@
                    && back@ == frame@,
            },
    {
        let ghost before = frame_views(self.queue@);
        let room = if self.queue.len() == 0 {
            assert(before =~= Seq::<Seq<u8>>::empty());
            true
        } else {
            match self.buffered.checked_add(frame.len()) {
                Some(sum) => sum <= self.limit,
                None => false,
            }
        };
        if room {
            let ghost added = frame@;
            self.buffered = self.buffered + frame.len();
            self.queue.push(frame);
            assert(frame_views(self.queue@) =~= before.push(added));
            assert(before.push(added).drop_last() =~= before);
            Ok(())
        } else {
            Err(frame)
        }
    }

    /// Takes the first frame off the queue, if there is one.
    pub fn take(&mut self) -> (frame: Option<Vec<u8>>)
        requires
            old(self).wf(),
        ensures
            final(self).wf(),
            match frame {
                Some(frame) => old(self)@.queue.len() > 0 && frame@ == old(self)@.queue[0]
                    && final(self)@ == (DeliverySinkView {
                    queue: old(self)@.queue.skip(1),
                    ..old(self)@
                }),
                None => old(self)@.queue.len() == 0 && final(self)@ == old(self)@,
            },
    {
        if self.queue.len() == 0 {
            None
        } else {
            let ghost before = frame_views(self.queue@);
            proof {
                lemma_total_bytes_skip(before);
            }
            let frame = self.queue.remove(0);
            assert(frame_views(self.queue@) =~= before.skip(1));
            self.buffered = self.buffered - frame.len();
            Some(frame)
        }
    }

    /// The number of bytes that wait in the queue.
    pub fn buffered(&self) -> (bytes: usize)
        requires
            self.wf(),
        ensures
            bytes == total_bytes(self@.queue),
    {
        self.buffered
    }
}

/// What one step of delivery has done.
#[derive(Debug, Clone, PartialEq, Eq)]
pub enum Pumped {
    /// A frame has gone into the queue.
    Queued,
    /// The queue is full: the frame is held back.
    Full,
    /// The next entry could not be written.
    Failed(ApplicationError),
    /// The body is complete and nothing is held back.
    Finished,
    /// Nothing can be written before some source has answered.
    Pending,
    /// The source with this index cannot go on before it has been handed the
    /// file at this path.
    NeedsFile { source: usize, path: String },
}

/// The record of a delivery.
pub ghost struct Written {
    /// The frames that the body has given, first to last.
    pub produced: Seq<Seq<u8>>,
    /// The frames that have gone into the queue, first to last.
    pub queued: Seq<Seq<u8>>,
}

/// The delivery of the body of a response into a sink.
pub struct Delivery {
    body: ContentStream,
    held: Option<Vec<u8>>,
    written: Ghost<Written>,
}

impl Delivery {
    /// Whether the body is well-formed, and no frame has been dropped or has
    /// overtaken another: the frames that have gone into the queue, with the
    /// one that is held back behind them, are the frames that the body has
    /// given.
    pub closed spec fn wf(&self) -> bool {
        &&& self.body.wf()
        &&& self.written@.produced == match self.held {
            Some(frame) => self.written@.queued.push(frame@),
            None => self.written@.queued,
        }
    }

    /// The state of the merge.
    pub closed spec fn merge(&self) -> MergeModel {
        self.body.merge()
    }

    /// The state of the encoder.
    pub closed spec fn encoder(&self) -> ResponseEncoderView {
        self.body.encoder()
    }

    /// The frame that is held back.
    pub closed spec fn held(&self) -> Option<Seq<u8>> {
        option_bytes(self.held)
    }

    /// The frames that the body has given so far.
    pub closed spec fn produced(&self) -> Seq<Seq<u8>> {
        self.written@.produced
    }

    /// The frames that have gone into the queue so far.
    pub closed spec fn queued(&self) -> Seq<Seq<u8>> {
        self.written@.queued
    }

    /// The delivery of a body of which nothing has been asked yet.
    pub fn new(body: ContentStream) -> (delivery: Delivery)
        requires
            body.wf(),
        ensures
            delivery.wf(),
            delivery.merge() == body.merge(),
            delivery.encoder() == body.encoder(),
            delivery.held() is None,
            delivery.produced() == Seq::<Seq<u8>>::empty(),
            delivery.queued() == Seq::<Seq<u8>>::empty(),
    {
        Delivery {
            body,
            held: None,
            written: Ghost(Written { produced: Seq::empty(), queued: Seq::empty() }),
        }
    }

    /// No frame is dropped under backpressure, and the order of the frames
    /// is kept: the frames that have gone into the queue are the frames that
    /// the body has given, but for the last one where that is held back.
    pub proof fn lemma_nothing_dropped(&self)
        requires
            self.wf(),
        ensures
            self.held() is None ==> self.queued() == self.produced(),
            self.held() is Some ==> self.queued().push(self.held()->0) == self.produced(),
    {
    }

    /// Takes one step: the frame that is held back goes into the queue if
    /// there is room now; without such a frame the body is asked for its next
    /// frame, which goes into the queue, or is held back where the queue is
    /// full.
    pub fn pump(&mut self, sink: &mut DeliverySink) -> (pumped: Pumped)
        requires
            old(self).wf(),
            old(sink).wf(),
        ensures
            final(self).wf(),
            final(sink).wf(),
            final(sink)@.limit == old(sink)@.limit,
            match old(self).held() {
                Some(frame) => {
                    &&& final(self).merge() == old(self).merge()
                    &&& final(self).encoder() == old(self).encoder()
                    &&& final(self).produced() == old(self).produced()
                    &&& moved(frame, *old(self), *old(sink), *final(self), *final(sink), pumped)
                },
                None => {
                    &&& final(self).merge() == old(self).merge().demand().0
                    &&& match old(self).merge().demand().1 {
                        MergeAnswer::Entry(entry) => {
                            &&& final(self).encoder() == old(self).encoder().after(entry)
                            &&& match old(self).encoder().frame(entry) {
                                Some(frame) => {
                                    &&& final(self).produced() == old(self).produced().push(frame)
                                    &&& moved(
                                        frame,
                                        *old(self),
                                        *old(sink),
                                        *final(self),
                                        *final(sink),
                                        pumped,
                                    )
                                },
                                None => {
                                    &&& pumped == Pumped::Failed(
                                        ApplicationError::FailedToReadSource,
                                    )
                                    &&& unmoved(*old(self), *old(sink), *final(self), *final(sink))
                                },
                            }
                        },
                        MergeAnswer::Finished => {
                            &&& pumped == Pumped::Finished
                            &&& final(self).encoder() == old(self).encoder()
                            &&& unmoved(*old(self), *old(sink), *final(self), *final(sink))
                        },
                        MergeAnswer::Pending => {
                            &&& pumped == Pumped::Pending
                            &&& final(self).encoder() == old(self).encoder()
                            &&& unmoved(*old(self), *old(sink), *final(self), *final(sink))
                        },
                        MergeAnswer::NeedsFile { source, path } => {
                            &&& pumped matches Pumped::NeedsFile { source: wanted, path: file }
                            &&& wanted == source
                            &&& file@ == path
                            &&& final(self).encoder() == old(self).encoder()
                            &&& unmoved(*old(self), *old(sink), *final(self), *final(sink))
                        },
                    }
                },
            },
    {
        let frame = match self.held.take() {
            Some(frame) => frame,
            None => match self.body.next_frame() {
                FramePoll::Frame(frame) => {
                    self.written = Ghost(
                        Written { produced: self.written@.produced.push(frame@), ..self.written@ },
                    );
                    frame
                },
                FramePoll::Failed(error) => {
                    return Pumped::Failed(error);
                },
                FramePoll::Finished => {
                    return Pumped::Finished;
                },
                FramePoll::Pending => {
                    return Pumped::Pending;
                },
                FramePoll::NeedsFile { source, path } => {
                    return Pumped::NeedsFile { source, path };
                },
            },
        };
        let ghost bytes = frame@;
        match sink.offer(frame) {
            Ok(_) => {
                self.written = Ghost(
                    Written { queued: self.written@.queued.push(bytes), ..self.written@ },
                );
                Pumped::Queued
            },
            Err(back) => {
                self.held = Some(back);
                Pumped::Full
            },
        }
    }

    /// The number of sources.
    pub fn source_count(&self) -> (n: usize)
        ensures
            n == self.merge().sources.len(),
    {
        self.body.source_count()
    }

    /// Hands the source with index `source` the file that it asks for, as
    /// [`ContentStream::supply_file`] does.
    pub fn supply_file(&mut self, source: usize, content: FileRead, modified: Option<Modified>)
        requires
            old(self).wf(),
            source < old(self).merge().sources.len(),
        ensures
            final(self).wf(),
            final(self).encoder() == old(self).encoder(),
            final(self).held() == old(self).held(),
            final(self).produced() == old(self).produced(),
            final(self).queued() == old(self).queued(),
            final(self).merge() == old(self).merge().supplied(
                source as int,
                content@,
                modified,
            ),
    {
        self.body.supply_file(source, content, modified);
    }
}

/// What becomes of a frame that is ready to go into the queue: it goes in
/// where the sink takes it, and is held back where it does not.
pub open spec fn moved(
    frame: Seq<u8>,
    before: Delivery,
    sink_before: DeliverySink,
    after: Delivery,
    sink_after: DeliverySink,
    pumped: Pumped,
) -> bool {
    if sink_before@.accepts(frame.len()) {
        &&& pumped == Pumped::Queued
        &&& sink_after@.queue == sink_before@.queue.push(frame)
        &&& after.held() is None
        &&& after.queued() == before.queued().push(frame)
    } else {
        &&& pumped == Pumped::Full
        &&& sink_after@ == sink_before@
        &&& after.held() == Some(frame)
        &&& after.queued() == before.queued()
    }
}

/// Nothing has gone into the queue and nothing is held back.
pub open spec fn unmoved(
    before: Delivery,
    sink_before: DeliverySink,
    after: Delivery,
    sink_after: DeliverySink,
) -> bool {
    &&& sink_after@ == sink_before@
    &&& after.held() is None
    &&& after.queued() == before.queued()
    &&& after.produced() == before.produced()
}

} // verus!

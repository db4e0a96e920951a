//! The batch loader: the one writer of the file channel. It turns each
//! batch into one whole frame, and stops for good once the channel fails.

use vstd::prelude::*;
use crate::batch::{
    encode_refusal, headers_fit, law_typed_batch_round_trip, raws_of, reads_as, BatchJob, JobView,
};
use crate::bus::{CommandView, Commands};
use crate::frame::{batch_frame, parse_batch, BatchError, MAX_CHUNK};
use crate::protocol::{Response, ResponseCodes};
use crate::session::{log_line, notice, Log, Notify};
use crate::text::utf8_lossy;

verus! {

/// What the loader tells those who wait for a batch.
#[derive(Clone, Copy, Debug, PartialEq, Eq, Structural)]
pub enum BatchLoaderCallback {
    Done,
    Failed,
}

/// What the loader does with a batch.
pub enum LoaderStep {
    /// Write these bytes, all of them, then read one response.
    Write(Vec<u8>),
    /// The loader has stopped: the batch is dropped.
    Drop,
    /// The batch cannot be written: nothing goes on the wire.
    Refuse(BatchError),
}

/// The frames of `frames` one after the other.
pub open spec fn stream(frames: Seq<Seq<u8>>) -> Seq<u8>
    decreases frames.len(),
{
    if frames.len() == 0 {
        Seq::empty()
    } else {
        stream(frames.drop_last()) + frames.last()
    }
}

/// The frames of `batches`, each cut into chunks of `chunk` bytes.
pub open spec fn frames_of(batches: Seq<Seq<JobView>>, chunk: int) -> Seq<Seq<u8>> {
    Seq::new(batches.len(), |i: int| batch_frame(raws_of(batches[i]), chunk))
}

/// Whether each of `batches` has a frame.
pub open spec fn all_fit(batches: Seq<Seq<JobView>>) -> bool {
    forall|i: int|
        0 <= i < batches.len() ==> (#[trigger] batches[i]).len() <= u32::MAX && headers_fit(
            batches[i],
        )
}

/// Whether `wire` is `batches` and nothing else: it reads, batch by batch
/// and to its last byte, as these batches in this order.
pub open spec fn reads_back(wire: Seq<u8>, batches: Seq<Seq<JobView>>) -> bool
    decreases batches.len(),
{
    if batches.len() == 0 {
        wire.len() == 0
    } else {
        match parse_batch(wire) {
            Ok((raws, used)) => {
                &&& reads_as(raws, batches[0])
                &&& 0 <= used <= wire.len()
                &&& reads_back(wire.skip(used), batches.drop_first())
            },
            Err(_) => false,
        }
    }
}

/// The single writer of the file channel.
pub struct BatchLoader {
    chunk: usize,
    stopped: bool,
    written: Ghost<Seq<Seq<u8>>>,
    taken: Ghost<Seq<Seq<JobView>>>,
}

impl Log for BatchLoader {
    fn log_response(&self, response: &Response) -> (line: Commands) {
        log_line(response)
    }
}

impl Notify for BatchLoader {
    fn notify_app(&self, response: &Response) -> (message: Commands) {
        notice(response)
    }
}

impl BatchLoader {
    /// The frames handed out to be written, first first.
    pub closed spec fn frames(&self) -> Seq<Seq<u8>> {
        self.written@
    }

    /// The batches whose frames were handed out, first first.
    pub closed spec fn batches(&self) -> Seq<Seq<JobView>> {
        self.taken@
    }

    /// Validity: the frames handed out are the frames of the batches
    /// taken, one whole frame for each.
    pub closed spec fn wf(&self) -> bool {
        &&& self.written@ == frames_of(self.taken@, self.chunk as int)
        &&& all_fit(self.taken@)
        &&& self.taken@.len() > 0 ==> 1 <= self.chunk <= MAX_CHUNK
    }

    /// What the loader has put on the wire: its frames, one after the
    /// other.
    pub open spec fn wire(&self) -> Seq<u8> {
        stream(self.frames())
    }

    /// Whether the loader has stopped.
    pub closed spec fn has_stopped(&self) -> bool {
        self.stopped
    }

    /// The size of the chunks that payloads are cut into.
    pub closed spec fn chunk_size(&self) -> usize {
        self.chunk
    }

    /// A loader that cuts payloads into chunks of `chunk` bytes.
    pub fn new(chunk: usize) -> (loader: BatchLoader)
        ensures
            loader.wf(),
            loader.chunk_size() == chunk,
            !loader.has_stopped(),
            loader.frames() == Seq::<Seq<u8>>::empty(),
            loader.batches() == Seq::<Seq<JobView>>::empty(),
    {
        let loader = BatchLoader {
            chunk,
            stopped: false,
            written: Ghost(Seq::empty()),
            taken: Ghost(Seq::empty()),
        };
        assert(loader.written@ =~= frames_of(loader.taken@, chunk as int));
        loader
    }

    /// Whether the loader has stopped.
    pub fn is_stopped(&self) -> (stopped: bool)
        ensures
            stopped == self.has_stopped(),
    {
        self.stopped
    }

    /// Takes the next batch off the queue. A running loader hands out the
    /// whole frame of the batch, or refuses a batch that has no frame; a
    /// stopped loader drops the batch. The wire only ever grows by whole
    /// frames.
    pub fn next(&mut self, batch: &BatchJob) -> (step: LoaderStep)
        requires
            old(self).wf(),
        ensures
            final(self).wf(),
            final(self).chunk_size() == old(self).chunk_size(),
            final(self).has_stopped() == old(self).has_stopped(),
            match step {
                LoaderStep::Write(bytes) => {
                    &&& !old(self).has_stopped()
                    &&& 1 <= old(self).chunk_size() <= MAX_CHUNK
                    &&& batch@.len() <= u32::MAX
                    &&& headers_fit(batch@)
                    &&& bytes@ == batch_frame(raws_of(batch@), old(self).chunk_size() as int)
                    &&& final(self).frames() == old(self).frames().push(bytes@)
                    &&& final(self).batches() == old(self).batches().push(batch@)
                },
                LoaderStep::Drop => {
                    &&& old(self).has_stopped()
                    &&& final(self).frames() == old(self).frames()
                    &&& final(self).batches() == old(self).batches()
                },
                LoaderStep::Refuse(e) => {
                    &&& !old(self).has_stopped()
                    &&& e == encode_refusal(batch@, old(self).chunk_size() as int)
                    &&& old(self).chunk_size() < 1 || old(self).chunk_size() > MAX_CHUNK
                        || batch@.len() > u32::MAX || !headers_fit(batch@)
                    &&& final(self).frames() == old(self).frames()
                    &&& final(self).batches() == old(self).batches()
                },
            },
    {
        if self.stopped {
            return LoaderStep::Drop;
        }
        match batch.encode(self.chunk) {
            Ok(bytes) => {
                let ghost frames = self.written@;
                let ghost batches = self.taken@;
                self.written = Ghost(frames.push(bytes@));
                self.taken = Ghost(batches.push(batch@));
                proof {
                    assert(frames.push(bytes@) =~= frames_of(
                        batches.push(batch@),
                        self.chunk as int,
                    ));
                }
                LoaderStep::Write(bytes)
            },
            Err(e) => LoaderStep::Refuse(e),
        }
    }

    /// What the loader has put on the wire is the batches it took, whole
    /// and in the order in which it took them, and nothing else: the
    /// wire never holds a part of a frame, and ends where a frame ends.
    pub proof fn law_wire_is_whole_batches(&self)
        requires
            self.wf(),
        ensures
            reads_back(self.wire(), self.batches()),
    {
        if self.taken@.len() > 0 {
            law_frames_read_back(self.taken@, self.chunk as int);
        } else {
            assert(self.written@ =~= Seq::<Seq<u8>>::empty());
        }
    }

    /// Takes in the response to a batch: what the interface is told, and
    /// what those who wait for the batch are told.
    pub fn on_response(&self, response: &Response) -> (out: (Commands, BatchLoaderCallback))
        ensures
            out.0@ == CommandView::Notify(utf8_lossy(response@.body)),
            out.1 == if response.status_code == ResponseCodes::OK {
                BatchLoaderCallback::Done
            } else {
                BatchLoaderCallback::Failed
            },
    {
        let callback = if response.status_code == ResponseCodes::OK {
            BatchLoaderCallback::Done
        } else {
            BatchLoaderCallback::Failed
        };
        (notice(response), callback)
    }

    /// Notes that the file channel failed: the loader stops, and drops
    /// every batch from now on.
    pub fn on_channel_error(&mut self) -> (callback: BatchLoaderCallback)
        requires
            old(self).wf(),
        ensures
            final(self).wf(),
            callback == BatchLoaderCallback::Failed,
            final(self).has_stopped(),
            final(self).chunk_size() == old(self).chunk_size(),
            final(self).frames() == old(self).frames(),
            final(self).batches() == old(self).batches(),
    {
        self.stopped = true;
        BatchLoaderCallback::Failed
    }
}

/// What is on the wire is whole frames: after the frames written so far,
/// the next frame begins where the last one ended, and the wire ends
/// where it ends.
pub proof fn law_wire_grows_by_frames(frames: Seq<Seq<u8>>, frame: Seq<u8>)
    ensures
        stream(frames.push(frame)) == stream(frames) + frame,
        stream(frames.push(frame)).len() == stream(frames).len() + frame.len(),
{
    assert(frames.push(frame).drop_last() =~= frames);
}

/// The first frame on the wire reads back as the first batch that was
/// written, and what follows it is the wire of the batches written after
/// it.
pub proof fn law_wire_reads_in_order(first: Seq<JobView>, chunk: int, later: Seq<Seq<u8>>)
    requires
        1 <= chunk <= MAX_CHUNK,
        first.len() <= u32::MAX,
        headers_fit(first),
    ensures
        crate::frame::parse_batch(
            stream(seq![batch_frame(raws_of(first), chunk)] + later),
        ) matches Ok((raws, used)) && crate::batch::reads_as(raws, first) && stream(
            seq![batch_frame(raws_of(first), chunk)] + later,
        ).skip(used) == stream(later),
{
    let frame = batch_frame(raws_of(first), chunk);
    lemma_stream_front(frame, later);
    crate::batch::law_typed_batch_round_trip(first, chunk, stream(later));
    assert((frame + stream(later)).skip(frame.len() as int) =~= stream(later));
}

/// The frames of batches, one after the other, read back as these
/// batches, each whole, in this order, and to the last byte.
pub proof fn law_frames_read_back(batches: Seq<Seq<JobView>>, chunk: int)
    requires
        1 <= chunk <= MAX_CHUNK,
        all_fit(batches),
    ensures
        reads_back(stream(frames_of(batches, chunk)), batches),
    decreases batches.len(),
{
    let frames = frames_of(batches, chunk);
    if batches.len() == 0 {
        assert(frames =~= Seq::<Seq<u8>>::empty());
    } else {
        let first = batches[0];
        let rest = batches.drop_first();
        let frame = batch_frame(raws_of(first), chunk);
        let later = frames_of(rest, chunk);
        assert(frames =~= seq![frame] + later);
        assert(all_fit(rest)) by {
            assert forall|i: int| 0 <= i < rest.len() implies (#[trigger] rest[i]).len() <= u32::MAX
                && headers_fit(rest[i]) by {
                assert(rest[i] == batches[i + 1]);
            }
        }
        lemma_stream_front(frame, later);
        law_typed_batch_round_trip(first, chunk, stream(later));
        assert((frame + stream(later)).skip(frame.len() as int) =~= stream(later));
        law_frames_read_back(rest, chunk);
    }
}

proof fn lemma_stream_front(frame: Seq<u8>, later: Seq<Seq<u8>>)
    ensures
        stream(seq![frame] + later) == frame + stream(later),
    decreases later.len(),
{
    let all = seq![frame] + later;
    if later.len() == 0 {
        assert(all =~= seq![frame]);
        assert(all.drop_last() =~= Seq::<Seq<u8>>::empty());
        assert(all.last() == frame);
        assert(stream(all.drop_last()) =~= Seq::<u8>::empty());
        assert(stream(later) =~= Seq::<u8>::empty());
        assert(stream(all) =~= frame + stream(later));
    } else {
        lemma_stream_front(frame, later.drop_last());
        assert(all.drop_last() =~= seq![frame] + later.drop_last());
        assert(all.last() == later.last());
        assert(stream(all) =~= frame + stream(later));
    }
}

} // verus!

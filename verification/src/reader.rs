//! Reading a batch from a stream piece by piece: the reader says how many
//! bytes it needs next, takes exactly those, and hands out the batch once
//! its last chunk has closed.

use vstd::prelude::*;
use crate::codec::{announced_length, from_be32};
use crate::frame::{
    job_views, parse_batch, parse_chunks, parse_job, parse_jobs, BatchError, RawJob, RawJobView,
    MAX_CHUNK, MAX_HEADER,
};

verus! {

/// What the reader needs next.
#[derive(Clone, Copy, Debug, PartialEq, Eq, Structural)]
pub enum Awaiting {
    /// The number of jobs of the batch.
    Count,
    /// The size of the header of the next job.
    HeaderSize,
    /// A header of this many bytes.
    Header(usize),
    /// The size of the next chunk.
    ChunkSize,
    /// A chunk of this many bytes.
    Chunk(usize),
}

/// What a piece led to.
pub enum Progress {
    /// The batch goes on: ask the reader what it needs next.
    More,
    /// The batch is whole: these are its jobs, and the reader waits for
    /// the next batch.
    Batch(Vec<RawJob>),
    /// The bytes are no batch, whatever follows them.
    Failed(BatchError),
}

/// Reads one batch after the other from the pieces it is fed.
pub struct BatchReader {
    awaiting: Awaiting,
    left: u32,
    jobs: Vec<RawJob>,
    header: Vec<u8>,
    payload: Vec<u8>,
    before: Ghost<Seq<u8>>,
    current: Ghost<Seq<u8>>,
    pending: Ghost<Seq<u8>>,
}

/// What `parse_batch` makes of bytes that begin with finished jobs, given
/// what `parse_jobs` makes of the bytes after them.
pub open spec fn after_jobs(
    done: Seq<RawJobView>,
    before: int,
    rest: Result<(Seq<RawJobView>, int), BatchError>,
) -> Result<(Seq<RawJobView>, int), BatchError> {
    match rest {
        Ok((jobs, used)) => Ok((done + jobs, before + used)),
        Err(e) => Err(e),
    }
}

/// What `parse_job` makes of bytes that begin with a header and whole
/// chunks, given what `parse_chunks` makes of the bytes after them.
pub open spec fn after_chunks(
    header: Seq<u8>,
    payload: Seq<u8>,
    before: int,
    rest: Result<(Seq<u8>, int), BatchError>,
) -> Result<(RawJobView, int), BatchError> {
    match rest {
        Ok((more, used)) => Ok((RawJobView { header, payload: payload + more }, before + used)),
        Err(e) => Err(e),
    }
}

/// What feeding `piece` to the reader `before` leads to, where `after` is
/// the reader then. While the batch goes on, the bytes taken so far are a
/// batch cut short. Once its last chunk has closed, they are the batch
/// that is handed out, to the last byte. Where they are no batch, they
/// are none whatever follows. After a batch or a failure the reader waits
/// for a batch again.
pub open spec fn fed(before: BatchReader, after: BatchReader, piece: Seq<u8>, progress: Progress) -> bool {
    match progress {
        Progress::More => {
            &&& after.seen() == before.seen() + piece
            &&& parse_batch(after.seen()) == Err::<(Seq<RawJobView>, int), BatchError>(
                BatchError::Short,
            )
        },
        Progress::Batch(jobs) => {
            &&& after.awaits() == Awaiting::Count
            &&& after.seen() == Seq::<u8>::empty()
            &&& parse_batch(before.seen() + piece) == Ok::<(Seq<RawJobView>, int), BatchError>(
                (job_views(jobs@), (before.seen() + piece).len() as int),
            )
        },
        Progress::Failed(e) => {
            &&& after.awaits() == Awaiting::Count
            &&& after.seen() == Seq::<u8>::empty()
            &&& forall|rest: Seq<u8>| #[trigger]
                parse_batch(before.seen() + piece + rest) == Err::<
                    (Seq<RawJobView>, int),
                    BatchError,
                >(e)
        },
    }
}

impl BatchReader {
    /// The bytes of the batch in progress that the reader has taken.
    pub closed spec fn seen(&self) -> Seq<u8> {
        self.before@ + self.current@ + self.pending@
    }

    /// What the reader needs next.
    pub closed spec fn awaits(&self) -> Awaiting {
        self.awaiting
    }

    /// The number of bytes that the reader needs next.
    pub open spec fn wanted_bytes(&self) -> nat {
        match self.awaits() {
            Awaiting::Count => 4,
            Awaiting::HeaderSize => 4,
            Awaiting::Header(n) => n as nat,
            Awaiting::ChunkSize => 4,
            Awaiting::Chunk(n) => n as nat,
        }
    }

    spec fn jobs_hold(&self) -> bool {
        forall|rest: Seq<u8>| #[trigger]
            parse_batch(self.before@ + rest) == after_jobs(
                job_views(self.jobs@),
                self.before@.len() as int,
                parse_jobs(rest, self.left as nat),
            )
    }

    spec fn chunks_hold(&self) -> bool {
        forall|rest: Seq<u8>| #[trigger]
            parse_job(self.current@ + rest) == after_chunks(
                self.header@,
                self.payload@,
                self.current@.len() as int,
                parse_chunks(rest),
            )
    }

    /// Validity: what the reader holds is what the bytes it has taken
    /// read as, and it never waits for nothing.
    pub closed spec fn wf(&self) -> bool {
        match self.awaiting {
            Awaiting::Count => {
                &&& self.before@.len() == 0
                &&& self.current@.len() == 0
                &&& self.pending@.len() == 0
                &&& self.jobs@.len() == 0
                &&& self.header@.len() == 0
                &&& self.payload@.len() == 0
            },
            Awaiting::HeaderSize => {
                &&& self.left >= 1
                &&& self.jobs_hold()
                &&& self.current@.len() == 0
                &&& self.pending@.len() == 0
                &&& self.header@.len() == 0
                &&& self.payload@.len() == 0
            },
            Awaiting::Header(n) => {
                &&& self.left >= 1
                &&& self.jobs_hold()
                &&& self.current@.len() == 0
                &&& self.pending@.len() == 4
                &&& self.header@.len() == 0
                &&& self.payload@.len() == 0
                &&& from_be32(self.pending@) == n
                &&& 0 < n <= MAX_HEADER
            },
            Awaiting::ChunkSize => {
                &&& self.left >= 1
                &&& self.jobs_hold()
                &&& self.chunks_hold()
                &&& self.pending@.len() == 0
            },
            Awaiting::Chunk(n) => {
                &&& self.left >= 1
                &&& self.jobs_hold()
                &&& self.chunks_hold()
                &&& self.pending@.len() == 4
                &&& from_be32(self.pending@) == n
                &&& 0 < n <= MAX_CHUNK
            },
        }
    }

    /// A reader that waits for a batch.
    pub fn new() -> (reader: BatchReader)
        ensures
            reader.wf(),
            reader.awaits() == Awaiting::Count,
            reader.seen() == Seq::<u8>::empty(),
    {
        let reader = BatchReader {
            awaiting: Awaiting::Count,
            left: 0,
            jobs: Vec::new(),
            header: Vec::new(),
            payload: Vec::new(),
            before: Ghost(Seq::empty()),
            current: Ghost(Seq::empty()),
            pending: Ghost(Seq::empty()),
        };
        assert(reader.seen() =~= Seq::<u8>::empty());
        reader
    }

    /// The number of bytes to feed next: never none.
    pub fn wanted(&self) -> (n: usize)
        requires
            self.wf(),
        ensures
            n == self.wanted_bytes(),
            n > 0,
    {
        match self.awaiting {
            Awaiting::Count => 4,
            Awaiting::HeaderSize => 4,
            Awaiting::Header(n) => n,
            Awaiting::ChunkSize => 4,
            Awaiting::Chunk(n) => n,
        }
    }

    /// Whether the reader stands between two batches: it has taken no
    /// byte of the batch it waits for.
    pub fn between_batches(&self) -> (idle: bool)
        requires
            self.wf(),
        ensures
            idle == (self.awaits() == Awaiting::Count),
            idle ==> self.seen() == Seq::<u8>::empty(),
    {
        proof {
            if self.awaiting == Awaiting::Count {
                assert(self.seen() =~= Seq::<u8>::empty());
            }
        }
        self.awaiting == Awaiting::Count
    }

    fn reset(&mut self) -> (jobs: Vec<RawJob>)
        ensures
            final(self).wf(),
            final(self).awaits() == Awaiting::Count,
            final(self).seen() == Seq::<u8>::empty(),
            jobs == old(self).jobs,
    {
        let mut jobs: Vec<RawJob> = Vec::new();
        std::mem::swap(&mut jobs, &mut self.jobs);
        self.awaiting = Awaiting::Count;
        self.left = 0;
        self.header = Vec::new();
        self.payload = Vec::new();
        self.before = Ghost(Seq::empty());
        self.current = Ghost(Seq::empty());
        self.pending = Ghost(Seq::empty());
        assert(self.seen() =~= Seq::<u8>::empty());
        jobs
    }

    /// Takes the next piece, which is as long as the reader wanted, and
    /// says what it led to.
    pub fn feed(&mut self, bytes: &[u8]) -> (progress: Progress)
        requires
            old(self).wf(),
            bytes@.len() == old(self).wanted_bytes(),
        ensures
            final(self).wf(),
            fed(*old(self), *final(self), bytes@, progress),
    {
        match self.awaiting {
            Awaiting::Count => self.take_count(bytes),
            Awaiting::HeaderSize => self.take_header_size(bytes),
            Awaiting::Header(size) => self.take_header(bytes, size),
            Awaiting::ChunkSize => self.take_chunk_size(bytes),
            Awaiting::Chunk(size) => self.take_chunk(bytes, size),
        }
    }

    fn take_count(&mut self, bytes: &[u8]) -> (progress: Progress)
        requires
            old(self).wf(),
            old(self).awaiting == Awaiting::Count,
            bytes@.len() == old(self).wanted_bytes(),
        ensures
            final(self).wf(),
            fed(*old(self), *final(self), bytes@, progress),
    {
        let ghost start = self.seen();
        let ghost piece = bytes@;
        let count = length_of(bytes);
        proof {
            assert(start =~= Seq::<u8>::empty());
            assert(start + piece =~= piece);
        }
        if count == 0 {
            proof {
                assert(piece.skip(4) =~= Seq::<u8>::empty());
                assert(job_views(self.jobs@) =~= Seq::<RawJobView>::empty());
            }
            let jobs = self.reset();
            return Progress::Batch(jobs);
        }
        self.left = count;
        self.before = Ghost(piece);
        self.awaiting = Awaiting::HeaderSize;
        proof {
            assert(self.seen() =~= start + piece);
            assert(job_views(self.jobs@) =~= Seq::<RawJobView>::empty());
            assert forall|rest: Seq<u8>| #[trigger]
                parse_batch(piece + rest) == after_jobs(
                    job_views(self.jobs@),
                    piece.len() as int,
                    parse_jobs(rest, count as nat),
                ) by {
                lemma_same_length(piece, piece + rest);
                assert((piece + rest).skip(4) =~= rest);
                match parse_jobs(rest, count as nat) {
                    Ok((jobs, used)) => {
                        assert(Seq::<RawJobView>::empty() + jobs =~= jobs);
                    },
                    Err(_) => {},
                }
            }
            assert(parse_jobs(Seq::<u8>::empty(), count as nat) is Err);
            assert(piece + Seq::<u8>::empty() =~= piece);
        }
        Progress::More
    }

    fn take_header_size(&mut self, bytes: &[u8]) -> (progress: Progress)
        requires
            old(self).wf(),
            old(self).awaiting == Awaiting::HeaderSize,
            bytes@.len() == old(self).wanted_bytes(),
        ensures
            final(self).wf(),
            fed(*old(self), *final(self), bytes@, progress),
    {
        let ghost start = self.seen();
        let ghost piece = bytes@;
        let size = length_of(bytes) as usize;
        let ghost before = self.before@;
        proof {
            assert(start =~= before);
        }
        if size > MAX_HEADER {
            proof {
                assert forall|rest: Seq<u8>| #[trigger]
                    parse_batch(start + piece + rest) == Err::<
                        (Seq<RawJobView>, int),
                        BatchError,
                    >(BatchError::HeaderTooLarge) by {
                    let tail = piece + rest;
                    assert(start + piece + rest =~= before + tail);
                    lemma_same_length(piece, tail);
                    assert(parse_job(tail) is Err);
                    assert(parse_jobs(tail, self.left as nat) is Err);
                }
            }
            let _ = self.reset();
            return Progress::Failed(BatchError::HeaderTooLarge);
        }
        if size == 0 {
            self.current = Ghost(piece);
            self.awaiting = Awaiting::ChunkSize;
            proof {
                assert(self.seen() =~= start + piece);
                assert forall|rest: Seq<u8>| #[trigger]
                    parse_job(piece + rest) == after_chunks(
                        self.header@,
                        self.payload@,
                        piece.len() as int,
                        parse_chunks(rest),
                    ) by {
                    lemma_same_length(piece, piece + rest);
                    assert((piece + rest).skip(4) =~= rest);
                    assert((piece + rest).subrange(4, 4) =~= self.header@);
                    match parse_chunks(rest) {
                        Ok((more, used)) => {
                            assert(self.payload@ + more =~= more);
                        },
                        Err(_) => {},
                    }
                }
                self.lemma_cut_short();
            }
        } else {
            self.pending = Ghost(piece);
            self.awaiting = Awaiting::Header(size);
            proof {
                assert(self.seen() =~= start + piece);
                self.lemma_cut_short();
            }
        }
        Progress::More
    }

    fn take_header(&mut self, bytes: &[u8], size: usize) -> (progress: Progress)
        requires
            old(self).wf(),
            old(self).awaiting == Awaiting::Header(size),
            bytes@.len() == old(self).wanted_bytes(),
        ensures
            final(self).wf(),
            fed(*old(self), *final(self), bytes@, progress),
    {
        let ghost start = self.seen();
        let ghost piece = bytes@;
        let ghost sized = self.pending@;
        self.header.extend_from_slice(bytes);
        self.current = Ghost(sized + piece);
        self.pending = Ghost(Seq::empty());
        self.awaiting = Awaiting::ChunkSize;
        proof {
            assert(self.header@ =~= piece);
            assert(self.payload@ =~= Seq::<u8>::empty());
            assert(self.seen() =~= start + piece);
            let cur = sized + piece;
            assert forall|rest: Seq<u8>| #[trigger]
                parse_job(cur + rest) == after_chunks(
                    self.header@,
                    self.payload@,
                    cur.len() as int,
                    parse_chunks(rest),
                ) by {
                lemma_same_length(sized, cur + rest);
                assert((cur + rest).skip(4 + size) =~= rest);
                assert((cur + rest).subrange(4, 4 + size) =~= piece);
                match parse_chunks(rest) {
                    Ok((more, used)) => {
                        assert(self.payload@ + more =~= more);
                    },
                    Err(_) => {},
                }
            }
            self.lemma_cut_short();
        }
        Progress::More
    }

    fn take_chunk_size(&mut self, bytes: &[u8]) -> (progress: Progress)
        requires
            old(self).wf(),
            old(self).awaiting == Awaiting::ChunkSize,
            bytes@.len() == old(self).wanted_bytes(),
        ensures
            final(self).wf(),
            fed(*old(self), *final(self), bytes@, progress),
    {
        let size = length_of(bytes) as usize;
        if size > MAX_CHUNK {
            self.refuse_chunk(bytes)
        } else if size > 0 {
            self.begin_chunk(bytes, size)
        } else {
            self.close_job(bytes)
        }
    }

    fn refuse_chunk(&mut self, bytes: &[u8]) -> (progress: Progress)
        requires
            old(self).wf(),
            old(self).awaiting == Awaiting::ChunkSize,
            bytes@.len() == 4,
            from_be32(bytes@) > MAX_CHUNK,
        ensures
            final(self).wf(),
            fed(*old(self), *final(self), bytes@, progress),
    {
        let ghost start = self.seen();
        let ghost piece = bytes@;
        let ghost before = self.before@;
        let ghost cur = self.current@;
        proof {
            assert(start =~= before + cur);
            assert forall|rest: Seq<u8>| #[trigger]
                parse_batch(start + piece + rest) == Err::<(Seq<RawJobView>, int), BatchError>(
                    BatchError::ChunkTooLarge,
                ) by {
                let tail = piece + rest;
                assert(start + piece + rest =~= before + (cur + tail));
                lemma_same_length(piece, tail);
                assert(parse_chunks(tail) == Err::<(Seq<u8>, int), BatchError>(
                    BatchError::ChunkTooLarge,
                ));
                assert(parse_job(cur + tail) == Err::<(RawJobView, int), BatchError>(
                    BatchError::ChunkTooLarge,
                ));
                assert(parse_jobs(cur + tail, self.left as nat) == Err::<
                    (Seq<RawJobView>, int),
                    BatchError,
                >(BatchError::ChunkTooLarge));
                assert(parse_batch(before + (cur + tail)) == Err::<
                    (Seq<RawJobView>, int),
                    BatchError,
                >(BatchError::ChunkTooLarge));
            }
        }
        let _ = self.reset();
        Progress::Failed(BatchError::ChunkTooLarge)
    }

    fn begin_chunk(&mut self, bytes: &[u8], size: usize) -> (progress: Progress)
        requires
            old(self).wf(),
            old(self).awaiting == Awaiting::ChunkSize,
            bytes@.len() == 4,
            from_be32(bytes@) == size,
            0 < size <= MAX_CHUNK,
        ensures
            final(self).wf(),
            fed(*old(self), *final(self), bytes@, progress),
    {
        let ghost start = self.seen();
        let ghost piece = bytes@;
        self.pending = Ghost(piece);
        self.awaiting = Awaiting::Chunk(size);
        proof {
            assert(self.seen() =~= start + piece);
            self.lemma_cut_short();
        }
        Progress::More
    }

    fn close_job(&mut self, bytes: &[u8]) -> (progress: Progress)
        requires
            old(self).wf(),
            old(self).awaiting == Awaiting::ChunkSize,
            bytes@.len() == 4,
            from_be32(bytes@) == 0,
        ensures
            final(self).wf(),
            fed(*old(self), *final(self), bytes@, progress),
    {
        let ghost start = self.seen();
        let ghost piece = bytes@;
        let ghost before = self.before@;
        let ghost cur = self.current@;
        let ghost done = job_views(self.jobs@);
        let ghost left = self.left;
        let ghost job = RawJobView { header: self.header@, payload: self.payload@ };
        proof {
            assert(start =~= before + cur);
            lemma_job_closes(before, cur, piece, done, job, left as nat);
        }
        let mut header: Vec<u8> = Vec::new();
        let mut payload: Vec<u8> = Vec::new();
        std::mem::swap(&mut header, &mut self.header);
        std::mem::swap(&mut payload, &mut self.payload);
        self.jobs.push(RawJob { header, payload });
        self.left = self.left - 1;
        self.before = Ghost(before + cur + piece);
        self.current = Ghost(Seq::empty());
        self.awaiting = Awaiting::HeaderSize;
        proof {
            assert(self.seen() =~= start + piece);
            assert(job_views(self.jobs@) =~= done.push(job));
        }
        if self.left == 0 {
            proof {
                let whole = self.before@;
                assert(whole + Seq::<u8>::empty() =~= whole);
                assert(start + piece =~= whole);
                assert(parse_jobs(Seq::<u8>::empty(), 0) == Ok::<
                    (Seq<RawJobView>, int),
                    BatchError,
                >((Seq::<RawJobView>::empty(), 0)));
                assert(job_views(self.jobs@) + Seq::<RawJobView>::empty() =~= job_views(
                    self.jobs@,
                ));
                assert(parse_batch(whole + Seq::<u8>::empty()) == Ok::<
                    (Seq<RawJobView>, int),
                    BatchError,
                >((job_views(self.jobs@), whole.len() as int)));
            }
            let jobs = self.reset();
            return Progress::Batch(jobs);
        }
        proof {
            self.lemma_cut_short();
        }
        Progress::More
    }

    fn take_chunk(&mut self, bytes: &[u8], size: usize) -> (progress: Progress)
        requires
            old(self).wf(),
            old(self).awaiting == Awaiting::Chunk(size),
            bytes@.len() == old(self).wanted_bytes(),
        ensures
            final(self).wf(),
            fed(*old(self), *final(self), bytes@, progress),
    {
        let ghost start = self.seen();
        let ghost piece = bytes@;
        let ghost cur = self.current@;
        let ghost sized = self.pending@;
        let ghost so_far = self.payload@;
        self.payload.extend_from_slice(bytes);
        self.current = Ghost(cur + sized + piece);
        self.pending = Ghost(Seq::empty());
        self.awaiting = Awaiting::ChunkSize;
        proof {
            let now = cur + sized + piece;
            assert(self.seen() =~= start + piece);
            assert(self.payload@ =~= so_far + piece);
            assert forall|rest: Seq<u8>| #[trigger]
                parse_job(now + rest) == after_chunks(
                    self.header@,
                    self.payload@,
                    now.len() as int,
                    parse_chunks(rest),
                ) by {
                let tail = sized + piece + rest;
                assert(now + rest =~= cur + tail);
                lemma_same_length(sized, tail);
                assert(tail.skip(4 + size) =~= rest);
                assert(tail.subrange(4, 4 + size) =~= piece);
                assert(parse_chunks(tail) == match parse_chunks(rest) {
                    Ok((more, used)) => Ok::<(Seq<u8>, int), BatchError>(
                        (piece + more, 4 + size + used),
                    ),
                    Err(e) => Err(e),
                });
                match parse_chunks(rest) {
                    Ok((more, used)) => {
                        assert(so_far + (piece + more) =~= (so_far + piece) + more);
                    },
                    Err(_) => {},
                }
            }
            self.lemma_cut_short();
        }
        Progress::More
    }

    /// While the reader waits within a batch, what it has taken is a
    /// batch cut short.
    proof fn lemma_cut_short(&self)
        requires
            self.wf(),
            self.awaiting != Awaiting::Count,
        ensures
            parse_batch(self.seen()) == Err::<(Seq<RawJobView>, int), BatchError>(BatchError::Short),
    {
        let tail = self.current@ + self.pending@;
        assert(self.seen() =~= self.before@ + tail);
        let empty = Seq::<u8>::empty();
        match self.awaiting {
            Awaiting::Count => {},
            Awaiting::HeaderSize => {
                assert(tail =~= empty);
            },
            Awaiting::Header(n) => {
                assert(tail =~= self.pending@);
            },
            Awaiting::ChunkSize => {
                assert(tail =~= self.current@ + empty);
                assert(parse_chunks(empty) is Err);
            },
            Awaiting::Chunk(n) => {
                assert(parse_chunks(self.pending@) is Err);
            },
        }
        assert(parse_job(tail) == Err::<(RawJobView, int), BatchError>(BatchError::Short));
        assert(parse_jobs(tail, self.left as nat) == Err::<(Seq<RawJobView>, int), BatchError>(
            BatchError::Short,
        ));
    }
}

/// Once the chunk of length nought has arrived, the job in progress is
/// one more finished job.
proof fn lemma_job_closes(
    before: Seq<u8>,
    cur: Seq<u8>,
    size: Seq<u8>,
    done: Seq<RawJobView>,
    job: RawJobView,
    left: nat,
)
    requires
        left >= 1,
        size.len() == 4,
        from_be32(size) == 0,
        forall|rest: Seq<u8>| #[trigger]
            parse_batch(before + rest) == after_jobs(
                done,
                before.len() as int,
                parse_jobs(rest, left),
            ),
        forall|rest: Seq<u8>| #[trigger]
            parse_job(cur + rest) == after_chunks(
                job.header,
                job.payload,
                cur.len() as int,
                parse_chunks(rest),
            ),
    ensures
        forall|rest: Seq<u8>| #[trigger]
            parse_batch(before + cur + size + rest) == after_jobs(
                done.push(job),
                (before + cur + size).len() as int,
                parse_jobs(rest, (left - 1) as nat),
            ),
{
    assert forall|rest: Seq<u8>| #[trigger]
        parse_batch(before + cur + size + rest) == after_jobs(
            done.push(job),
            (before + cur + size).len() as int,
            parse_jobs(rest, (left - 1) as nat),
        ) by {
        let tail = size + rest;
        assert(before + cur + size + rest =~= before + (cur + tail));
        lemma_same_length(size, tail);
        assert(parse_chunks(tail) == Ok::<(Seq<u8>, int), BatchError>((Seq::<u8>::empty(), 4)));
        assert(job.payload + Seq::<u8>::empty() =~= job.payload);
        assert(parse_job(cur + tail) == Ok::<(RawJobView, int), BatchError>(
            (job, cur.len() as int + 4),
        ));
        assert((cur + tail).skip(cur.len() as int + 4) =~= rest);
        assert(parse_jobs(cur + tail, left) == after_jobs(
            seq![job],
            cur.len() as int + 4,
            parse_jobs(rest, (left - 1) as nat),
        ));
        assert(parse_batch(before + (cur + tail)) == after_jobs(
            done,
            before.len() as int,
            parse_jobs(cur + tail, left),
        ));
        match parse_jobs(rest, (left - 1) as nat) {
            Ok((jobs, used)) => {
                assert(done + (seq![job] + jobs) =~= done.push(job) + jobs);
            },
            Err(_) => {},
        }
    }
}

/// The length that the first four bytes of a longer text announce is the
/// one that the four bytes alone announce.
proof fn lemma_same_length(size: Seq<u8>, bytes: Seq<u8>)
    requires
        size.len() == 4,
        bytes.len() >= 4,
        bytes.take(4) =~= size,
    ensures
        from_be32(bytes) == from_be32(size),
{
    assert(forall|i: int| 0 <= i < 4 ==> bytes[i] == bytes.take(4)[i]);
}

/// The length that a piece of four bytes announces.
fn length_of(bytes: &[u8]) -> (len: u32)
    requires
        bytes@.len() == 4,
    ensures
        len == from_be32(bytes@),
{
    let prefix = [bytes[0], bytes[1], bytes[2], bytes[3]];
    announced_length(&prefix)
}

} // verus!

//! The wire form of a batch of files: a count of jobs, then for each job
//! its header behind a length, and its payload cut into chunks, each chunk
//! behind its length, with a chunk of length zero at the end.

use vstd::prelude::*;
use crate::codec::{be32, from_be32};

verus! {

/// The longest header that a job may carry, in bytes.
pub const MAX_HEADER: usize = 1024;

/// The longest chunk of payload, in bytes.
pub const MAX_CHUNK: usize = 1048576;

/// One job as bytes: an encoded header and a payload.
pub struct RawJob {
    pub header: Vec<u8>,
    pub payload: Vec<u8>,
}

/// A job as a value.
pub struct RawJobView {
    pub header: Seq<u8>,
    pub payload: Seq<u8>,
}

impl View for RawJob {
    type V = RawJobView;

    open spec fn view(&self) -> RawJobView {
        RawJobView { header: self.header@, payload: self.payload@ }
    }
}

/// The jobs of `jobs` as values.
pub open spec fn job_views(jobs: Seq<RawJob>) -> Seq<RawJobView> {
    Seq::new(jobs.len(), |i: int| jobs[i]@)
}

/// Why a batch could not be written or read.
#[derive(Clone, Copy, Debug, PartialEq, Eq, Structural)]
pub enum BatchError {
    /// The bytes end before the batch does.
    Short,
    /// A header is longer than `MAX_HEADER`.
    HeaderTooLarge,
    /// A chunk is longer than `MAX_CHUNK`.
    ChunkTooLarge,
    /// The chunk size asked for is zero or longer than `MAX_CHUNK`.
    BadChunkSize,
    /// There are more jobs than the count of four bytes can say.
    TooManyJobs,
    /// The bytes of a header are no header.
    MalformedHeader,
}

/// A payload cut into chunks of `chunk` bytes, the last one shorter where
/// the payload runs out, and closed by a chunk of length zero.
pub open spec fn chunked(payload: Seq<u8>, chunk: int) -> Seq<u8>
    recommends
        1 <= chunk <= MAX_CHUNK,
    decreases payload.len(),
{
    if payload.len() == 0 || chunk < 1 {
        be32(0)
    } else {
        let n = if payload.len() < chunk {
            payload.len() as int
        } else {
            chunk
        };
        be32(n as u32) + payload.take(n) + chunked(payload.skip(n), chunk)
    }
}

/// One job on the wire.
pub open spec fn job_frame(job: RawJobView, chunk: int) -> Seq<u8> {
    be32(job.header.len() as u32) + job.header + chunked(job.payload, chunk)
}

/// Jobs on the wire, one after the other.
pub open spec fn jobs_frame(jobs: Seq<RawJobView>, chunk: int) -> Seq<u8>
    decreases jobs.len(),
{
    if jobs.len() == 0 {
        Seq::empty()
    } else {
        jobs_frame(jobs.drop_last(), chunk) + job_frame(jobs.last(), chunk)
    }
}

/// A batch on the wire.
pub open spec fn batch_frame(jobs: Seq<RawJobView>, chunk: int) -> Seq<u8> {
    be32(jobs.len() as u32) + jobs_frame(jobs, chunk)
}

/// Whether `jobs` can be written: no more than a count can say, and no
/// header longer than allowed.
pub open spec fn writable(jobs: Seq<RawJobView>) -> bool {
    &&& jobs.len() <= u32::MAX
    &&& forall|i: int| 0 <= i < jobs.len() ==> (#[trigger] jobs[i]).header.len() <= MAX_HEADER
}

/// The payload whose chunks start `bytes`, and the number of bytes they
/// take up.
pub open spec fn parse_chunks(bytes: Seq<u8>) -> Result<(Seq<u8>, int), BatchError>
    decreases bytes.len(),
{
    if bytes.len() < 4 {
        Err(BatchError::Short)
    } else {
        let n = from_be32(bytes) as int;
        if n == 0 {
            Ok((Seq::empty(), 4))
        } else if n > MAX_CHUNK {
            Err(BatchError::ChunkTooLarge)
        } else if bytes.len() < 4 + n {
            Err(BatchError::Short)
        } else {
            match parse_chunks(bytes.skip(4 + n)) {
                Ok((rest, used)) => Ok((bytes.subrange(4, 4 + n) + rest, 4 + n + used)),
                Err(e) => Err(e),
            }
        }
    }
}

/// The job that starts `bytes`, and the number of bytes it takes up.
pub open spec fn parse_job(bytes: Seq<u8>) -> Result<(RawJobView, int), BatchError> {
    if bytes.len() < 4 {
        Err(BatchError::Short)
    } else {
        let n = from_be32(bytes) as int;
        if n > MAX_HEADER {
            Err(BatchError::HeaderTooLarge)
        } else if bytes.len() < 4 + n {
            Err(BatchError::Short)
        } else {
            match parse_chunks(bytes.skip(4 + n)) {
                Ok((payload, used)) => Ok(
                    (RawJobView { header: bytes.subrange(4, 4 + n), payload }, 4 + n + used),
                ),
                Err(e) => Err(e),
            }
        }
    }
}

/// The `count` jobs that start `bytes`, and the number of bytes they take
/// up.
pub open spec fn parse_jobs(bytes: Seq<u8>, count: nat) -> Result<(Seq<RawJobView>, int), BatchError>
    decreases count,
{
    if count == 0 {
        Ok((Seq::empty(), 0))
    } else {
        match parse_job(bytes) {
            Ok((job, used)) => match parse_jobs(bytes.skip(used), (count - 1) as nat) {
                Ok((rest, more)) => Ok((seq![job] + rest, used + more)),
                Err(e) => Err(e),
            },
            Err(e) => Err(e),
        }
    }
}

/// The batch that starts `bytes`, and the number of bytes it takes up.
pub open spec fn parse_batch(bytes: Seq<u8>) -> Result<(Seq<RawJobView>, int), BatchError> {
    if bytes.len() < 4 {
        Err(BatchError::Short)
    } else {
        match parse_jobs(bytes.skip(4), from_be32(bytes) as nat) {
            Ok((jobs, used)) => Ok((jobs, 4 + used)),
            Err(e) => Err(e),
        }
    }
}

proof fn lemma_chunks_round_trip(payload: Seq<u8>, chunk: int, rest: Seq<u8>)
    requires
        1 <= chunk <= MAX_CHUNK,
    ensures
        parse_chunks(chunked(payload, chunk) + rest) == Ok::<(Seq<u8>, int), BatchError>(
            (payload, chunked(payload, chunk).len() as int),
        ),
    decreases payload.len(),
{
    let bytes = chunked(payload, chunk) + rest;
    if payload.len() == 0 {
        crate::codec::law_length_round_trip(0);
        assert(from_be32(bytes) == from_be32(be32(0)));
        assert(payload =~= Seq::<u8>::empty());
    } else {
        let n = if payload.len() < chunk {
            payload.len() as int
        } else {
            chunk
        };
        let tail = chunked(payload.skip(n), chunk);
        crate::codec::law_length_round_trip(n as u32);
        assert(from_be32(bytes) == from_be32(be32(n as u32)));
        assert(bytes.subrange(4, 4 + n) =~= payload.take(n));
        assert(bytes.skip(4 + n) =~= tail + rest);
        lemma_chunks_round_trip(payload.skip(n), chunk, rest);
        assert(payload.take(n) + payload.skip(n) =~= payload);
    }
}

proof fn lemma_job_round_trip(job: RawJobView, chunk: int, rest: Seq<u8>)
    requires
        1 <= chunk <= MAX_CHUNK,
        job.header.len() <= MAX_HEADER,
    ensures
        parse_job(job_frame(job, chunk) + rest) == Ok::<(RawJobView, int), BatchError>(
            (job, job_frame(job, chunk).len() as int),
        ),
{
    let bytes = job_frame(job, chunk) + rest;
    let n = job.header.len() as int;
    crate::codec::law_length_round_trip(n as u32);
    assert(from_be32(bytes) == from_be32(be32(n as u32)));
    assert(bytes.subrange(4, 4 + n) =~= job.header);
    assert(bytes.skip(4 + n) =~= chunked(job.payload, chunk) + rest);
    lemma_chunks_round_trip(job.payload, chunk, rest);
}

proof fn lemma_jobs_frame_front(jobs: Seq<RawJobView>, chunk: int)
    requires
        jobs.len() > 0,
    ensures
        jobs_frame(jobs, chunk) == job_frame(jobs[0], chunk) + jobs_frame(jobs.drop_first(), chunk),
    decreases jobs.len(),
{
    if jobs.len() == 1 {
        assert(jobs.drop_last() =~= Seq::<RawJobView>::empty());
        assert(jobs.drop_first() =~= Seq::<RawJobView>::empty());
        assert(jobs_frame(jobs, chunk) =~= job_frame(jobs[0], chunk) + jobs_frame(
            jobs.drop_first(),
            chunk,
        ));
    } else {
        lemma_jobs_frame_front(jobs.drop_last(), chunk);
        assert(jobs.drop_last().drop_first() =~= jobs.drop_first().drop_last());
        assert(jobs.drop_last()[0] == jobs[0]);
        assert(jobs.drop_first().last() == jobs.last());
        assert(jobs_frame(jobs, chunk) =~= job_frame(jobs[0], chunk) + jobs_frame(
            jobs.drop_first(),
            chunk,
        ));
    }
}

proof fn lemma_parse_jobs_step(
    bytes: Seq<u8>,
    count: nat,
    job: RawJobView,
    used: int,
    others: Seq<RawJobView>,
    more: int,
)
    requires
        count > 0,
        parse_job(bytes) == Ok::<(RawJobView, int), BatchError>((job, used)),
        parse_jobs(bytes.skip(used), (count - 1) as nat) == Ok::<(Seq<RawJobView>, int), BatchError>(
            (others, more),
        ),
    ensures
        parse_jobs(bytes, count) == Ok::<(Seq<RawJobView>, int), BatchError>(
            (seq![job] + others, used + more),
        ),
{
}

#[verifier::spinoff_prover]
#[verifier::rlimit(60)]
proof fn lemma_jobs_round_trip(jobs: Seq<RawJobView>, chunk: int, rest: Seq<u8>)
    requires
        1 <= chunk <= MAX_CHUNK,
        writable(jobs),
    ensures
        parse_jobs(jobs_frame(jobs, chunk) + rest, jobs.len()) == Ok::<
            (Seq<RawJobView>, int),
            BatchError,
        >((jobs, jobs_frame(jobs, chunk).len() as int)),
    decreases jobs.len(),
{
    if jobs.len() == 0 {
        assert(jobs =~= Seq::<RawJobView>::empty());
    } else {
        let first = job_frame(jobs[0], chunk);
        let others = jobs.drop_first();
        let tail = jobs_frame(others, chunk);
        let bytes = jobs_frame(jobs, chunk) + rest;
        assert(jobs_frame(jobs, chunk) == first + tail) by {
            lemma_jobs_frame_front(jobs, chunk);
        }
        assert(bytes == first + (tail + rest)) by {
            assert(first + tail + rest =~= first + (tail + rest));
        }
        assert(parse_job(bytes) == Ok::<(RawJobView, int), BatchError>(
            (jobs[0], first.len() as int),
        )) by {
            lemma_job_round_trip(jobs[0], chunk, tail + rest);
        }
        assert(bytes.skip(first.len() as int) == tail + rest) by {
            assert((first + (tail + rest)).skip(first.len() as int) =~= tail + rest);
        }
        assert(writable(others)) by {
            assert forall|i: int| 0 <= i < others.len() implies (#[trigger] others[i]).header.len()
                <= MAX_HEADER by {
                assert(others[i] == jobs[i + 1]);
            }
        }
        lemma_jobs_round_trip(others, chunk, rest);
        lemma_parse_jobs_step(
            bytes,
            jobs.len(),
            jobs[0],
            first.len() as int,
            others,
            tail.len() as int,
        );
        assert(seq![jobs[0]] + others =~= jobs);
    }
}

/// A batch written with any chunk size from one byte to `MAX_CHUNK` reads
/// back as the same headers and payloads, byte for byte, whatever follows
/// it on the wire.
pub proof fn law_batch_round_trip(jobs: Seq<RawJobView>, chunk: int, rest: Seq<u8>)
    requires
        1 <= chunk <= MAX_CHUNK,
        writable(jobs),
    ensures
        parse_batch(batch_frame(jobs, chunk) + rest) == Ok::<(Seq<RawJobView>, int), BatchError>(
            (jobs, batch_frame(jobs, chunk).len() as int),
        ),
{
    let bytes = batch_frame(jobs, chunk) + rest;
    crate::codec::law_length_round_trip(jobs.len() as u32);
    assert(from_be32(bytes) == from_be32(be32(jobs.len() as u32)));
    assert(bytes.skip(4) =~= jobs_frame(jobs, chunk) + rest);
    lemma_jobs_round_trip(jobs, chunk, rest);
}

/// Batches written one after the other read back one after the other: the
/// first batch on the wire is the first that was written, and what follows
/// it is the wire form of the others.
pub proof fn law_batches_in_order(first: Seq<RawJobView>, chunk: int, later: Seq<u8>)
    requires
        1 <= chunk <= MAX_CHUNK,
        writable(first),
    ensures
        parse_batch(batch_frame(first, chunk) + later) matches Ok((jobs, used)) && jobs == first
            && (batch_frame(first, chunk) + later).skip(used) == later,
{
    law_batch_round_trip(first, chunk, later);
    let frame = batch_frame(first, chunk);
    assert((frame + later).skip(frame.len() as int) =~= later);
}

} // verus!

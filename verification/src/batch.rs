//! Jobs and batches: a file with its header, and the files that travel
//! and are acknowledged together.

use vstd::prelude::*;
use crate::frame::{
    batch_frame, job_views, law_batch_round_trip, parse_batch, writable, BatchError, RawJob,
    RawJobView, MAX_CHUNK, MAX_HEADER,
};
use crate::header::{
    decoded, header_bytes, law_header_round_trip, FileHeader, FileHeaderView, HeaderError,
};
use crate::wire::{read_batch, write_batch};

verus! {

/// One file to transfer: its header and its bytes.
pub struct Job {
    pub file_header: FileHeader,
    pub data: Vec<u8>,
}

/// A job as a value.
pub struct JobView {
    pub file_header: FileHeaderView,
    pub data: Seq<u8>,
}

impl View for Job {
    type V = JobView;

    open spec fn view(&self) -> JobView {
        JobView { file_header: self.file_header@, data: self.data@ }
    }
}

/// Jobs that are sent and acknowledged as one.
pub struct BatchJob {
    pub jobs: Vec<Job>,
}

impl View for BatchJob {
    type V = Seq<JobView>;

    open spec fn view(&self) -> Seq<JobView> {
        Seq::new(self.jobs@.len(), |i: int| self.jobs@[i]@)
    }
}

/// A job with its header in binary form.
pub open spec fn raw_of(job: JobView) -> RawJobView {
    RawJobView { header: header_bytes(job.file_header), payload: job.data }
}

/// Jobs with their headers in binary form.
pub open spec fn raws_of(jobs: Seq<JobView>) -> Seq<RawJobView> {
    Seq::new(jobs.len(), |i: int| raw_of(jobs[i]))
}

/// Whether `jobs` are the jobs that `raws` hold: the same payloads, and
/// headers that the raw headers read as.
pub open spec fn reads_as(raws: Seq<RawJobView>, jobs: Seq<JobView>) -> bool {
    &&& raws.len() == jobs.len()
    &&& forall|i: int|
        0 <= i < raws.len() ==> decoded((#[trigger] raws[i]).header) == Ok::<
            FileHeaderView,
            HeaderError,
        >(jobs[i].file_header) && raws[i].payload == jobs[i].data
}

/// Whether every header of `raws` can be read.
pub open spec fn readable(raws: Seq<RawJobView>) -> bool {
    forall|i: int| 0 <= i < raws.len() ==> decoded((#[trigger] raws[i]).header) is Ok
}

/// Whether every header of `jobs` fits within `MAX_HEADER` in binary form.
pub open spec fn headers_fit(jobs: Seq<JobView>) -> bool {
    forall|i: int|
        0 <= i < jobs.len() ==> header_bytes((#[trigger] jobs[i]).file_header).len() <= MAX_HEADER
}

/// A batch written with any chunk size from one byte to `MAX_CHUNK` reads
/// back as the same headers and the same payloads.
pub proof fn law_typed_batch_round_trip(jobs: Seq<JobView>, chunk: int, rest: Seq<u8>)
    requires
        1 <= chunk <= MAX_CHUNK,
        jobs.len() <= u32::MAX,
        headers_fit(jobs),
    ensures
        parse_batch(batch_frame(raws_of(jobs), chunk) + rest) matches Ok((raws, used))
            && reads_as(raws, jobs) && used == batch_frame(raws_of(jobs), chunk).len(),
{
    let raws = raws_of(jobs);
    assert(writable(raws));
    law_batch_round_trip(raws, chunk, rest);
    assert forall|i: int| 0 <= i < raws.len() implies decoded((#[trigger] raws[i]).header) == Ok::<
        FileHeaderView,
        HeaderError,
    >(jobs[i].file_header) && raws[i].payload == jobs[i].data by {
        law_header_round_trip(jobs[i].file_header);
    }
}

impl BatchJob {
    /// The batch of `jobs`.
    pub fn new(jobs: Vec<Job>) -> (batch: BatchJob)
        ensures
            batch.jobs == jobs,
    {
        BatchJob { jobs }
    }

    /// The batch of one job.
    pub fn single(file_header: FileHeader, data: Vec<u8>) -> (batch: BatchJob)
        ensures
            batch@ == seq![(JobView { file_header: file_header@, data: data@ })],
    {
        let mut jobs: Vec<Job> = Vec::new();
        jobs.push(Job { file_header, data });
        let batch = BatchJob { jobs };
        assert(batch@ =~= seq![(JobView { file_header: file_header@, data: data@ })]);
        batch
    }

    /// The number of jobs.
    pub fn len(&self) -> (n: usize)
        ensures
            n == self@.len(),
    {
        self.jobs.len()
    }

    /// Whether the batch holds no job.
    pub fn is_empty(&self) -> (b: bool)
        ensures
            b == (self@.len() == 0),
    {
        self.jobs.len() == 0
    }

    /// The batch on the wire, its payloads cut into chunks of `chunk`
    /// bytes. Fails on a chunk size of zero or above `MAX_CHUNK`, on more
    /// jobs than can be counted, and on a header too large.
    pub fn encode(&self, chunk: usize) -> (out: Result<Vec<u8>, BatchError>)
        ensures
            match out {
                Ok(bytes) => {
                    &&& 1 <= chunk <= MAX_CHUNK
                    &&& self@.len() <= u32::MAX
                    &&& headers_fit(self@)
                    &&& bytes@ == batch_frame(raws_of(self@), chunk as int)
                },
                Err(e) => e == encode_refusal(self@, chunk as int) && (chunk < 1 || chunk
                    > MAX_CHUNK || self@.len() > u32::MAX || !headers_fit(self@)),
            },
    {
        if chunk < 1 || chunk > MAX_CHUNK {
            return Err(BatchError::BadChunkSize);
        }
        if self.jobs.len() > u32::MAX as usize {
            return Err(BatchError::TooManyJobs);
        }
        let mut raws: Vec<RawJob> = Vec::new();
        let mut i: usize = 0;
        while i < self.jobs.len()
            invariant
                i <= self.jobs.len(),
                1 <= chunk <= MAX_CHUNK,
                self.jobs.len() <= u32::MAX,
                raws.len() == i,
                forall|k: int|
                    0 <= k < i ==> (#[trigger] raws[k])@ == raw_of(self@[k]) && raws[k].header@.len()
                        <= MAX_HEADER,
            decreases self.jobs.len() - i,
        {
            let job = &self.jobs[i];
            match job.file_header.encode() {
                Ok(header) => {
                    assert(self@[i as int] == job@);
                    let mut payload: Vec<u8> = Vec::new();
                    payload.extend_from_slice(job.data.as_slice());
                    assert(payload@ =~= job.data@);
                    raws.push(RawJob { header, payload });
                },
                Err(_) => {
                    proof {
                        assert(self@[i as int] == job@);
                        assert(header_bytes(self@[i as int].file_header).len() > MAX_HEADER);
                        assert(!headers_fit(self@));
                    }
                    return Err(BatchError::HeaderTooLarge);
                },
            }
            i += 1;
        }
        proof {
            assert(job_views(raws@) =~= raws_of(self@));
            assert forall|k: int| 0 <= k < self@.len() implies header_bytes(
                (#[trigger] self@[k]).file_header,
            ).len() <= MAX_HEADER by {
                assert(raws[k]@ == raw_of(self@[k]));
            }
        }
        match write_batch(&raws, chunk) {
            Ok(bytes) => Ok(bytes),
            Err(e) => {
                proof {
                    assert(writable(job_views(raws@)));
                }
                Err(e)
            },
        }
    }

    /// The batch whose jobs, with their headers in binary form, are `raws`.
    /// Fails where a header cannot be read.
    pub fn from_raw(raws: Vec<RawJob>) -> (out: Result<BatchJob, BatchError>)
        ensures
            match out {
                Ok(batch) => reads_as(job_views(raws@), batch@),
                Err(e) => !readable(job_views(raws@)) && e == BatchError::MalformedHeader,
            },
    {
        let ghost all = job_views(raws@);
        let mut left = raws;
        let mut jobs: Vec<Job> = Vec::new();
        let n = left.len();
        let mut i: usize = 0;
        while i < n
            invariant
                i <= n,
                n == all.len(),
                all == job_views(raws@),
                left.len() == n - i,
                jobs.len() == i,
                forall|k: int| 0 <= k < n - i ==> (#[trigger] left[k])@ == all[i + k],
                forall|k: int|
                    0 <= k < i ==> decoded((#[trigger] all[k]).header) == Ok::<
                        FileHeaderView,
                        HeaderError,
                    >(jobs[k]@.file_header) && all[k].payload == jobs[k]@.data,
            decreases n - i,
        {
            let raw = left.remove(0);
            assert(raw@ == all[i as int]);
            match FileHeader::decode(raw.header.as_slice()) {
                Ok(file_header) => {
                    jobs.push(Job { file_header, data: raw.payload });
                },
                Err(_) => {
                    proof {
                        assert(!(decoded(all[i as int].header) is Ok));
                        assert(!readable(all));
                    }
                    return Err(BatchError::MalformedHeader);
                },
            }
            i += 1;
        }
        let batch = BatchJob { jobs };
        proof {
            assert(reads_as(all, batch@));
        }
        Ok(batch)
    }

    /// Reads the batch that starts `bytes`: the batch and the number of
    /// bytes read. Fails where the frame cannot be read, with the frame's
    /// error, and where a header cannot.
    pub fn decode(bytes: &[u8]) -> (out: Result<(BatchJob, usize), BatchError>)
        ensures
            match out {
                Ok((batch, used)) => used <= bytes.len() && (parse_batch(bytes@) matches Ok(
                    (raws, n),
                ) && n == used && reads_as(raws, batch@)),
                Err(e) => match parse_batch(bytes@) {
                    Ok((raws, _)) => !readable(raws) && e == BatchError::MalformedHeader,
                    Err(cause) => e == cause,
                },
            },
    {
        let (raws, used) = match read_batch(bytes) {
            Ok(r) => r,
            Err(e) => {
                return Err(e);
            },
        };
        match BatchJob::from_raw(raws) {
            Ok(batch) => Ok((batch, used)),
            Err(e) => Err(e),
        }
    }
}

/// Why `jobs` cannot be written with chunks of `chunk` bytes: the first
/// reason that applies, a bad chunk size before too many jobs, and those
/// before a header that is too large.
pub open spec fn encode_refusal(jobs: Seq<JobView>, chunk: int) -> BatchError {
    if chunk < 1 || chunk > MAX_CHUNK {
        BatchError::BadChunkSize
    } else if jobs.len() > u32::MAX {
        BatchError::TooManyJobs
    } else {
        BatchError::HeaderTooLarge
    }
}

} // verus!

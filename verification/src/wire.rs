//! Writing and reading batches of raw jobs.

use vstd::prelude::*;
use crate::codec::{announced_length, be32, from_be32, length_prefix};
use crate::frame::{
    batch_frame, chunked, job_frame, job_views, jobs_frame, parse_batch, parse_chunks, parse_job,
    parse_jobs, writable, BatchError, RawJob, RawJobView, MAX_CHUNK, MAX_HEADER,
};

verus! {

fn push_length(out: &mut Vec<u8>, len: u32)
    ensures
        final(out)@ == old(out)@ + be32(len),
{
    let prefix = length_prefix(len);
    out.push(prefix[0]);
    out.push(prefix[1]);
    out.push(prefix[2]);
    out.push(prefix[3]);
    assert(out@ =~= old(out)@ + be32(len));
}

fn push_range(out: &mut Vec<u8>, bytes: &Vec<u8>, from: usize, to: usize)
    requires
        from <= to <= bytes.len(),
    ensures
        final(out)@ == old(out)@ + bytes@.subrange(from as int, to as int),
{
    let mut i: usize = from;
    while i < to
        invariant
            from <= i <= to <= bytes.len(),
            out@ == old(out)@ + bytes@.subrange(from as int, i as int),
        decreases to - i,
    {
        out.push(bytes[i]);
        proof {
            assert(bytes@.subrange(from as int, i + 1) =~= bytes@.subrange(from as int, i as int).push(
                bytes@[i as int],
            ));
        }
        i += 1;
    }
}

fn push_chunks(out: &mut Vec<u8>, payload: &Vec<u8>, chunk: usize)
    requires
        1 <= chunk <= MAX_CHUNK,
    ensures
        final(out)@ == old(out)@ + chunked(payload@, chunk as int),
{
    let n = payload.len();
    let mut at: usize = 0;
    proof {
        assert(payload@.skip(0) =~= payload@);
    }
    while at < n
        invariant
            at <= n,
            n == payload.len(),
            1 <= chunk <= MAX_CHUNK,
            out@ + chunked(payload@.skip(at as int), chunk as int) == old(out)@ + chunked(
                payload@,
                chunk as int,
            ),
        decreases n - at,
    {
        let len = if n - at < chunk {
            n - at
        } else {
            chunk
        };
        let ghost before = out@;
        let ghost left = payload@.skip(at as int);
        push_length(out, len as u32);
        push_range(out, payload, at, at + len);
        proof {
            assert(left.take(len as int) =~= payload@.subrange(at as int, at + len));
            assert(left.skip(len as int) =~= payload@.skip(at + len));
            assert(out@ + chunked(payload@.skip(at + len), chunk as int) =~= before + chunked(
                left,
                chunk as int,
            ));
        }
        at += len;
    }
    proof {
        assert(payload@.skip(n as int).len() == 0);
    }
    let ghost before = out@;
    push_length(out, 0);
    proof {
        assert(out@ =~= before + chunked(payload@.skip(n as int), chunk as int));
    }
}

/// Writes `jobs` as one batch, the payloads cut into chunks of `chunk`
/// bytes.
pub fn write_batch(jobs: &Vec<RawJob>, chunk: usize) -> (out: Result<Vec<u8>, BatchError>)
    ensures
        match out {
            Ok(bytes) => 1 <= chunk <= MAX_CHUNK && writable(job_views(jobs@)) && bytes@
                == batch_frame(job_views(jobs@), chunk as int),
            Err(e) => e == write_refusal(job_views(jobs@), chunk as int) && (chunk < 1 || chunk
                > MAX_CHUNK || !writable(job_views(jobs@))),
        },
{
    if chunk < 1 || chunk > MAX_CHUNK {
        return Err(BatchError::BadChunkSize);
    }
    if jobs.len() > u32::MAX as usize {
        return Err(BatchError::TooManyJobs);
    }
    let ghost all = job_views(jobs@);
    let mut out: Vec<u8> = Vec::new();
    push_length(&mut out, jobs.len() as u32);
    let mut i: usize = 0;
    proof {
        assert(all.take(0) =~= Seq::<RawJobView>::empty());
        assert(out@ =~= be32(jobs.len() as u32) + jobs_frame(all.take(0), chunk as int));
    }
    while i < jobs.len()
        invariant
            i <= jobs.len(),
            jobs.len() <= u32::MAX,
            1 <= chunk <= MAX_CHUNK,
            all == job_views(jobs@),
            forall|k: int| 0 <= k < i ==> (#[trigger] all[k]).header.len() <= MAX_HEADER,
            out@ == be32(jobs.len() as u32) + jobs_frame(all.take(i as int), chunk as int),
        decreases jobs.len() - i,
    {
        let job = &jobs[i];
        if job.header.len() > MAX_HEADER {
            proof {
                assert(all[i as int].header.len() > MAX_HEADER);
            }
            return Err(BatchError::HeaderTooLarge);
        }
        let ghost before = out@;
        push_length(&mut out, job.header.len() as u32);
        push_range(&mut out, &job.header, 0, job.header.len());
        push_chunks(&mut out, &job.payload, chunk);
        proof {
            let now = all.take(i + 1);
            assert(now.drop_last() =~= all.take(i as int));
            assert(now.last() == all[i as int]);
            assert(job.header@.subrange(0, job.header.len() as int) =~= job.header@);
            assert(out@ =~= before + job_frame(all[i as int], chunk as int));
            assert(out@ =~= be32(jobs.len() as u32) + jobs_frame(now, chunk as int));
        }
        i += 1;
    }
    proof {
        assert(all.take(jobs.len() as int) =~= all);
    }
    Ok(out)
}

/// Why `jobs` cannot be written with chunks of `chunk` bytes: the first
/// reason that applies, a bad chunk size before too many jobs, and those
/// before a header that is too large.
pub open spec fn write_refusal(jobs: Seq<RawJobView>, chunk: int) -> BatchError {
    if chunk < 1 || chunk > MAX_CHUNK {
        BatchError::BadChunkSize
    } else if jobs.len() > u32::MAX {
        BatchError::TooManyJobs
    } else {
        BatchError::HeaderTooLarge
    }
}

fn read_length(bytes: &[u8], at: usize) -> (len: Option<u32>)
    requires
        at <= bytes.len(),
    ensures
        match len {
            Some(n) => at + 4 <= bytes.len() && n == from_be32(bytes@.skip(at as int)),
            None => bytes.len() - at < 4,
        },
{
    if bytes.len() - at < 4 {
        return None;
    }
    let prefix = [bytes[at], bytes[at + 1], bytes[at + 2], bytes[at + 3]];
    Some(announced_length(&prefix))
}

fn read_range(out: &mut Vec<u8>, bytes: &[u8], from: usize, to: usize)
    requires
        from <= to <= bytes.len(),
    ensures
        final(out)@ == old(out)@ + bytes@.subrange(from as int, to as int),
{
    let mut i: usize = from;
    while i < to
        invariant
            from <= i <= to <= bytes.len(),
            out@ == old(out)@ + bytes@.subrange(from as int, i as int),
        decreases to - i,
    {
        out.push(bytes[i]);
        proof {
            assert(bytes@.subrange(from as int, i + 1) =~= bytes@.subrange(from as int, i as int).push(
                bytes@[i as int],
            ));
        }
        i += 1;
    }
}

/// What is left of parsing chunks once `done` is read and `rest` is still
/// to be parsed.
spec fn chunks_after(done: Seq<u8>, used: int, rest: Seq<u8>) -> Result<(Seq<u8>, int), BatchError> {
    match parse_chunks(rest) {
        Ok((more, n)) => Ok((done + more, used + n)),
        Err(e) => Err(e),
    }
}

fn read_chunks(bytes: &[u8], at: usize) -> (out: Result<(Vec<u8>, usize), BatchError>)
    requires
        at <= bytes.len(),
    ensures
        match out {
            Ok((payload, end)) => at <= end <= bytes.len() && parse_chunks(bytes@.skip(at as int))
                == Ok::<(Seq<u8>, int), BatchError>((payload@, end - at)),
            Err(e) => parse_chunks(bytes@.skip(at as int)) == Err::<(Seq<u8>, int), BatchError>(e),
        },
{
    let mut payload: Vec<u8> = Vec::new();
    let mut pos: usize = at;
    proof {
        let whole = parse_chunks(bytes@.skip(at as int));
        match whole {
            Ok((p, n)) => {
                assert(Seq::<u8>::empty() + p =~= p);
            },
            Err(e) => {},
        }
    }
    loop
        invariant
            at <= pos <= bytes.len(),
            chunks_after(payload@, pos - at, bytes@.skip(pos as int)) == parse_chunks(
                bytes@.skip(at as int),
            ),
        decreases bytes.len() - pos,
    {
        let ghost here = bytes@.skip(pos as int);
        let n = match read_length(bytes, pos) {
            Some(n) => n as usize,
            None => {
                return Err(BatchError::Short);
            },
        };
        if n == 0 {
            proof {
                assert(payload@ + Seq::<u8>::empty() =~= payload@);
            }
            return Ok((payload, pos + 4));
        }
        if n > MAX_CHUNK {
            return Err(BatchError::ChunkTooLarge);
        }
        if bytes.len() - pos - 4 < n {
            return Err(BatchError::Short);
        }
        let ghost before = payload@;
        read_range(&mut payload, bytes, pos + 4, pos + 4 + n);
        proof {
            assert(here.subrange(4, 4 + n) =~= bytes@.subrange(pos + 4, pos + 4 + n));
            assert(here.skip(4 + n) =~= bytes@.skip(pos + 4 + n));
            let tail = parse_chunks(bytes@.skip(pos + 4 + n));
            match tail {
                Ok((more, used)) => {
                    assert(before + (here.subrange(4, 4 + n) + more) =~= payload@ + more);
                },
                Err(e) => {},
            }
        }
        pos = pos + 4 + n;
    }
}

fn read_job(bytes: &[u8], at: usize) -> (out: Result<(RawJob, usize), BatchError>)
    requires
        at <= bytes.len(),
    ensures
        match out {
            Ok((job, end)) => at <= end <= bytes.len() && parse_job(bytes@.skip(at as int)) == Ok::<
                (RawJobView, int),
                BatchError,
            >((job@, end - at)),
            Err(e) => parse_job(bytes@.skip(at as int)) == Err::<(RawJobView, int), BatchError>(e),
        },
{
    let ghost here = bytes@.skip(at as int);
    let n = match read_length(bytes, at) {
        Some(n) => n as usize,
        None => {
            return Err(BatchError::Short);
        },
    };
    if n > MAX_HEADER {
        return Err(BatchError::HeaderTooLarge);
    }
    if bytes.len() - at - 4 < n {
        return Err(BatchError::Short);
    }
    let mut header: Vec<u8> = Vec::new();
    read_range(&mut header, bytes, at + 4, at + 4 + n);
    proof {
        assert(here.subrange(4, 4 + n) =~= bytes@.subrange(at + 4, at + 4 + n));
        assert(here.skip(4 + n) =~= bytes@.skip(at + 4 + n));
        assert(header@ =~= here.subrange(4, 4 + n));
    }
    match read_chunks(bytes, at + 4 + n) {
        Ok((payload, end)) => Ok((RawJob { header, payload }, end)),
        Err(e) => Err(e),
    }
}

/// What is left of parsing jobs once `done` is read and `count` more are to
/// be parsed from `rest`.
spec fn jobs_after(done: Seq<RawJobView>, used: int, rest: Seq<u8>, count: nat) -> Result<
    (Seq<RawJobView>, int),
    BatchError,
> {
    match parse_jobs(rest, count) {
        Ok((more, n)) => Ok((done + more, used + n)),
        Err(e) => Err(e),
    }
}

/// Reads the batch that starts `bytes`: its jobs and the number of bytes
/// read.
pub fn read_batch(bytes: &[u8]) -> (out: Result<(Vec<RawJob>, usize), BatchError>)
    ensures
        match out {
            Ok((jobs, used)) => used <= bytes.len() && parse_batch(bytes@) == Ok::<
                (Seq<RawJobView>, int),
                BatchError,
            >((job_views(jobs@), used as int)),
            Err(e) => parse_batch(bytes@) == Err::<(Seq<RawJobView>, int), BatchError>(e),
        },
{
    let count = match read_length(bytes, 0) {
        Some(n) => n as usize,
        None => {
            return Err(BatchError::Short);
        },
    };
    proof {
        assert(bytes@.skip(0) =~= bytes@);
    }
    let mut jobs: Vec<RawJob> = Vec::new();
    let mut pos: usize = 4;
    let mut left: usize = count;
    proof {
        match parse_jobs(bytes@.skip(4), count as nat) {
            Ok((more, n)) => {
                assert(job_views(jobs@) + more =~= more);
            },
            Err(e) => {},
        }
    }
    while left > 0
        invariant
            4 <= pos <= bytes.len(),
            count == from_be32(bytes@),
            jobs_after(job_views(jobs@), pos - 4, bytes@.skip(pos as int), left as nat)
                == parse_jobs(bytes@.skip(4), count as nat),
        decreases left,
    {
        let ghost here = bytes@.skip(pos as int);
        let ghost before = job_views(jobs@);
        match read_job(bytes, pos) {
            Ok((job, end)) => {
                proof {
                    assert(here.skip(end - pos) =~= bytes@.skip(end as int));
                    match parse_jobs(bytes@.skip(end as int), (left - 1) as nat) {
                        Ok((more, n)) => {
                            assert(before + (seq![job@] + more) =~= before.push(job@) + more);
                        },
                        Err(e) => {},
                    }
                }
                jobs.push(job);
                proof {
                    assert(job_views(jobs@) =~= before.push(job@));
                }
                pos = end;
            },
            Err(e) => {
                proof {
                    assert(parse_jobs(here, left as nat) == Err::<(Seq<RawJobView>, int), BatchError>(
                        e,
                    ));
                }
                return Err(e);
            },
        }
        left -= 1;
    }
    proof {
        assert(job_views(jobs@) + Seq::<RawJobView>::empty() =~= job_views(jobs@));
    }
    Ok((jobs, pos))
}

} // verus!

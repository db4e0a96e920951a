use photo_backup::batch::BatchJob;
use photo_backup::frame::{BatchError, RawJob, MAX_CHUNK, MAX_HEADER};
use photo_backup::header::{FileHeader, Timestamp};
use photo_backup::reader::{BatchReader, Progress};
use photo_backup::wire::{read_batch, write_batch};

// Feeds `wire` to the reader in the pieces it asks for, and returns what
// the first batch or failure was and how many bytes it took.
fn read_in_pieces(reader: &mut BatchReader, wire: &[u8]) -> (Result<Vec<RawJob>, BatchError>, usize) {
    let mut at = 0;
    loop {
        let n = reader.wanted();
        assert!(n > 0);
        assert!(at + n <= wire.len(), "the reader asks for more than there is");
        let progress = reader.feed(&wire[at..at + n]);
        at += n;
        match progress {
            Progress::More => {
                assert!(!reader.between_batches());
            }
            Progress::Batch(jobs) => return (Ok(jobs), at),
            Progress::Failed(e) => return (Err(e), at),
        }
    }
}

fn raw(header: &[u8], payload: &[u8]) -> RawJob {
    RawJob { header: header.to_vec(), payload: payload.to_vec() }
}

#[test]
fn a_new_reader_asks_for_the_count() {
    let reader = BatchReader::new();
    assert!(reader.between_batches());
    assert_eq!(reader.wanted(), 4);
}

#[test]
fn the_reader_asks_for_each_part_in_turn() {
    let mut reader = BatchReader::new();
    assert!(matches!(reader.feed(&[0, 0, 0, 1]), Progress::More));
    assert_eq!(reader.wanted(), 4);
    assert!(matches!(reader.feed(&[0, 0, 0, 2]), Progress::More));
    assert_eq!(reader.wanted(), 2);
    assert!(matches!(reader.feed(&[7, 8]), Progress::More));
    assert_eq!(reader.wanted(), 4);
    assert!(matches!(reader.feed(&[0, 0, 0, 3]), Progress::More));
    assert_eq!(reader.wanted(), 3);
    assert!(matches!(reader.feed(&[1, 2, 3]), Progress::More));
    assert_eq!(reader.wanted(), 4);
    match reader.feed(&[0, 0, 0, 0]) {
        Progress::Batch(jobs) => {
            assert_eq!(jobs.len(), 1);
            assert_eq!(jobs[0].header, vec![7, 8]);
            assert_eq!(jobs[0].payload, vec![1, 2, 3]);
        }
        _ => panic!("the batch is whole"),
    }
    assert!(reader.between_batches());
    assert_eq!(reader.wanted(), 4);
}

#[test]
fn reading_in_pieces_gives_what_reading_at_once_gives() {
    let jobs = vec![
        raw(&[1, 2, 3], &[9; 10]),
        raw(&[], &[]),
        raw(&[4; MAX_HEADER], &[5; 1000]),
        raw(&[6], &[7]),
    ];
    for chunk in [1usize, 3, 10, 999, 1000, 4096] {
        let wire = write_batch(&jobs, chunk).expect("writable");
        let (at_once, used) = read_batch(&wire).expect("readable");
        let mut reader = BatchReader::new();
        let (in_pieces, taken) = read_in_pieces(&mut reader, &wire);
        let in_pieces = in_pieces.expect("readable");
        assert_eq!(taken, used);
        assert_eq!(taken, wire.len());
        assert_eq!(in_pieces.len(), at_once.len());
        for (a, b) in in_pieces.iter().zip(at_once.iter()) {
            assert_eq!(a.header, b.header);
            assert_eq!(a.payload, b.payload);
        }
        for (a, b) in in_pieces.iter().zip(jobs.iter()) {
            assert_eq!(a.header, b.header);
            assert_eq!(a.payload, b.payload);
        }
    }
}

#[test]
fn an_empty_batch_is_whole_after_its_count() {
    let mut reader = BatchReader::new();
    match reader.feed(&[0, 0, 0, 0]) {
        Progress::Batch(jobs) => assert!(jobs.is_empty()),
        _ => panic!("the batch is whole"),
    }
    assert!(reader.between_batches());
}

#[test]
fn batches_are_read_one_after_the_other() {
    let first = write_batch(&vec![raw(&[1], &[1, 1])], 1).expect("writable");
    let second = write_batch(&vec![raw(&[2], &[2, 2, 2]), raw(&[3], &[])], 2).expect("writable");
    let mut stream = first.clone();
    stream.extend_from_slice(&second);
    let mut reader = BatchReader::new();
    let (one, used) = read_in_pieces(&mut reader, &stream);
    assert_eq!(used, first.len());
    assert_eq!(one.expect("readable")[0].payload, vec![1, 1]);
    let (two, rest) = read_in_pieces(&mut reader, &stream[used..]);
    assert_eq!(rest, second.len());
    let two = two.expect("readable");
    assert_eq!(two.len(), 2);
    assert_eq!(two[0].payload, vec![2, 2, 2]);
    assert_eq!(two[1].header, vec![3]);
}

#[test]
fn a_header_that_is_too_large_fails_at_its_size() {
    let mut reader = BatchReader::new();
    assert!(matches!(reader.feed(&[0, 0, 0, 2]), Progress::More));
    assert!(matches!(reader.feed(&[0, 0, 4, 1]), Progress::Failed(BatchError::HeaderTooLarge)));
    assert!(reader.between_batches());
    assert_eq!(read_batch(&[0, 0, 0, 2, 0, 0, 4, 1]).err(), Some(BatchError::HeaderTooLarge));
    let mut reader = BatchReader::new();
    assert!(matches!(reader.feed(&[0, 0, 0, 2]), Progress::More));
    assert!(matches!(reader.feed(&[0, 0, 4, 0]), Progress::More));
    assert_eq!(reader.wanted(), MAX_HEADER);
}

#[test]
fn a_chunk_that_is_too_large_fails_at_its_size() {
    let mut reader = BatchReader::new();
    assert!(matches!(reader.feed(&[0, 0, 0, 1]), Progress::More));
    assert!(matches!(reader.feed(&[0, 0, 0, 0]), Progress::More));
    assert!(matches!(reader.feed(&[0, 16, 0, 1]), Progress::Failed(BatchError::ChunkTooLarge)));
    assert!(reader.between_batches());
    let mut reader = BatchReader::new();
    assert!(matches!(reader.feed(&[0, 0, 0, 1]), Progress::More));
    assert!(matches!(reader.feed(&[0, 0, 0, 0]), Progress::More));
    assert!(matches!(reader.feed(&[0, 16, 0, 0]), Progress::More));
    assert_eq!(reader.wanted(), MAX_CHUNK);
}

#[test]
fn a_large_file_arrives_chunk_by_chunk() {
    let size = 3 * 1024 * 1024;
    let payload: Vec<u8> = (0..size).map(|i| (i % 251) as u8).collect();
    let header = FileHeader {
        repo_name: "alpha".to_string(),
        file_name: "big.bin".to_string(),
        file_ext: "bin".to_string(),
        file_size: size as u64,
        file_datetime: Timestamp { secs: 1, nanos: 2 },
        file_location: "/tmp/cli/alpha/big.bin".to_string(),
    };
    let wire = BatchJob::single(header, payload.clone()).encode(MAX_CHUNK).expect("writable");
    let mut reader = BatchReader::new();
    let mut at = 0;
    let mut chunks = 0;
    let raws = loop {
        let n = reader.wanted();
        if n == MAX_CHUNK {
            chunks += 1;
        }
        let progress = reader.feed(&wire[at..at + n]);
        at += n;
        if let Progress::Batch(raws) = progress {
            break raws;
        }
    };
    assert_eq!(chunks, 3);
    assert_eq!(at, wire.len());
    let batch = BatchJob::from_raw(raws).expect("readable headers");
    assert_eq!(batch.len(), 1);
    assert_eq!(batch.jobs[0].file_header.file_name, "big.bin");
    assert_eq!(batch.jobs[0].data, payload);
}

#[test]
fn raw_jobs_with_unreadable_headers_are_refused() {
    let raws = vec![raw(&[9], &[1])];
    assert_eq!(BatchJob::from_raw(raws).err(), Some(BatchError::MalformedHeader));
    assert!(BatchJob::from_raw(Vec::new()).expect("no header to read").is_empty());
}

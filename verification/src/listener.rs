//! What the listener of a watched directory decides: which events it
//! follows up, when a file has stopped growing, and what header the file
//! is sent under.

use vstd::prelude::*;
use crate::header::{FileHeader, FileHeaderView, Timestamp};
use crate::path::{extension, extension_of, leaf, leaf_of, relative, relative_to};
use crate::text::same_text;

verus! {

/// How many reads of a file's size have to agree, unless told otherwise.
pub const DEFAULT_STABILITY_CHECKS: u32 = 10;

/// How long to wait between two reads of a file's size, in milliseconds,
/// unless told otherwise.
pub const DEFAULT_CHECK_INTERVAL_MS: u64 = 100;

/// What happened to a path in a watched directory.
#[derive(Clone, Copy, Debug, PartialEq, Eq, Structural)]
pub enum FileEvent {
    Created,
    Modified,
    Other,
}

/// Whether a file named `name` is a download in flight: its extension is
/// `part`.
pub open spec fn is_partial(name: Seq<char>) -> bool {
    extension(name) == Some("part"@)
}

/// Whether an event of `kind` on `path` is followed up: creations always,
/// modifications where they are tracked, and never a path without a name
/// or a download in flight.
pub open spec fn followed(kind: FileEvent, path: Seq<char>, track_modifications: bool) -> bool {
    &&& kind == FileEvent::Created || (track_modifications && kind == FileEvent::Modified)
    &&& leaf(path) matches Some(name) && !is_partial(name)
}

/// Whether an event is followed up.
pub fn wants_upload(kind: FileEvent, path: &str, track_modifications: bool) -> (wanted: bool)
    ensures
        wanted == followed(kind, path@, track_modifications),
{
    let of_interest = match kind {
        FileEvent::Created => true,
        FileEvent::Modified => track_modifications,
        FileEvent::Other => false,
    };
    if !of_interest {
        return false;
    }
    match leaf_of(path) {
        None => false,
        Some(name) => match extension_of(name.as_str()) {
            None => true,
            Some(ext) => !same_text(ext.as_str(), "part"),
        },
    }
}

/// The number of reads at the end of `reads` that all gave the same size.
pub open spec fn agreeing(reads: Seq<u64>) -> nat
    decreases reads.len(),
{
    if reads.len() == 0 {
        0
    } else if reads.len() == 1 {
        1
    } else if reads[reads.len() - 1] == reads[reads.len() - 2] {
        agreeing(reads.drop_last()) + 1
    } else {
        1
    }
}

/// What a read of a file's size leads to.
#[derive(Clone, Copy, Debug, PartialEq, Eq, Structural)]
pub enum Verdict {
    /// Read again after the interval.
    Pending,
    /// The size has stopped changing: send the file.
    Stable,
    /// The file is gone: forget the event.
    Dropped,
}

/// Watches the size of one file until it has stopped changing.
pub struct StabilityDetector {
    required: u32,
    last: u64,
    streak: u32,
    seen: Ghost<Seq<u64>>,
}

impl StabilityDetector {
    /// The sizes read so far, first read first.
    pub closed spec fn reads(&self) -> Seq<u64> {
        self.seen@
    }

    /// The number of reads that have to agree.
    pub closed spec fn checks(&self) -> nat {
        self.required as nat
    }

    /// Validity: the detector remembers the last size read and how many
    /// reads in a row gave it, counted up to the number required.
    pub closed spec fn wf(&self) -> bool {
        &&& self.streak <= self.required || self.streak <= 1
        &&& self.seen@.len() > 0 ==> self.last == self.seen@.last()
        &&& self.streak as nat == if agreeing(self.seen@) < self.cap() {
            agreeing(self.seen@)
        } else {
            self.cap()
        }
    }

    spec fn cap(&self) -> nat {
        if self.required == 0 {
            1
        } else {
            self.required as nat
        }
    }

    /// A detector that asks for `checks` reads in a row to agree.
    pub fn new(checks: u32) -> (detector: StabilityDetector)
        ensures
            detector.wf(),
            detector.checks() == checks,
            detector.reads() == Seq::<u64>::empty(),
    {
        StabilityDetector { required: checks, last: 0, streak: 0, seen: Ghost(Seq::empty()) }
    }

    /// Takes in one read of the file's size, or none where the file is
    /// gone. The file is stable once the last reads, as many as are
    /// required, all gave the same size; a file that is gone is dropped,
    /// and the detector starts over.
    pub fn observe(&mut self, size: Option<u64>) -> (verdict: Verdict)
        requires
            old(self).wf(),
        ensures
            final(self).wf(),
            final(self).checks() == old(self).checks(),
            match size {
                None => verdict == Verdict::Dropped && final(self).reads() == Seq::<u64>::empty(),
                Some(n) => {
                    &&& final(self).reads() == old(self).reads().push(n)
                    &&& verdict == if agreeing(final(self).reads()) >= final(self).checks() {
                        Verdict::Stable
                    } else {
                        Verdict::Pending
                    }
                },
            },
    {
        match size {
            None => {
                self.streak = 0;
                self.seen = Ghost(Seq::empty());
                Verdict::Dropped
            },
            Some(n) => {
                let ghost before = self.seen@;
                let limit: u32 = if self.required == 0 {
                    1
                } else {
                    self.required
                };
                if self.streak > 0 && self.last == n {
                    if self.streak < limit {
                        self.streak = self.streak + 1;
                    }
                } else {
                    self.streak = 1;
                }
                self.last = n;
                self.seen = Ghost(before.push(n));
                proof {
                    let now = before.push(n);
                    assert(now.drop_last() =~= before);
                    if before.len() > 0 {
                        assert(now[now.len() - 2] == before.last());
                    }
                    lemma_agreeing_positive(now);
                }
                if self.streak >= self.required {
                    Verdict::Stable
                } else {
                    Verdict::Pending
                }
            },
        }
    }
}

proof fn lemma_agreeing_positive(reads: Seq<u64>)
    ensures
        reads.len() > 0 ==> 1 <= agreeing(reads) <= reads.len(),
        reads.len() == 0 ==> agreeing(reads) == 0,
    decreases reads.len(),
{
    if reads.len() > 1 {
        lemma_agreeing_positive(reads.drop_last());
    }
}

/// A file is never found stable while its size changed within the window
/// of reads that have to agree: where the last reads, as many as `agreeing`
/// counts, are looked at, they all gave the same size.
pub proof fn law_stable_reads_agree(reads: Seq<u64>, k: int)
    requires
        0 <= k < agreeing(reads),
    ensures
        reads.len() >= agreeing(reads),
        reads[reads.len() - 1 - k] == reads.last(),
    decreases reads.len(),
{
    lemma_agreeing_positive(reads);
    if reads.len() > 1 && k > 0 {
        lemma_agreeing_positive(reads.drop_last());
        law_stable_reads_agree(reads.drop_last(), k - 1);
    }
}

/// Once a size differs from the one read before it, the count of agreeing
/// reads starts over: a file whose size has just changed is stable only
/// where a single read is all that is asked.
pub proof fn law_change_restarts(reads: Seq<u64>, size: u64)
    requires
        reads.len() > 0,
        reads.last() != size,
    ensures
        agreeing(reads.push(size)) == 1,
{
    let now = reads.push(size);
    assert(now[now.len() - 2] == reads.last());
}

/// The header under which the file at `path`, of `size` bytes and created
/// at `created`, is sent to the repository `repo` watched at `root`: its
/// name is its path as seen from `root`, its extension that of its last
/// component, or `unknown` where it has none.
pub open spec fn header_view(
    repo: Seq<char>,
    root: Seq<char>,
    path: Seq<char>,
    size: u64,
    created: Timestamp,
) -> Option<FileHeaderView> {
    match (relative(path, root), leaf(path)) {
        (Some(name), Some(last)) => Some(
            FileHeaderView {
                repo_name: repo,
                file_name: name,
                file_ext: match extension(last) {
                    Some(ext) => ext,
                    None => "unknown"@,
                },
                file_size: size,
                file_datetime: created,
                file_location: path,
            },
        ),
        _ => None,
    }
}

/// Builds the header under which a file is sent. None where the file does
/// not lie under the watched directory.
pub fn header_for(repo: &str, root: &str, path: &str, size: u64, created: Timestamp) -> (out: Option<
    FileHeader,
>)
    ensures
        match out {
            Some(h) => header_view(repo@, root@, path@, size, created) == Some(h@),
            None => header_view(repo@, root@, path@, size, created) is None,
        },
{
    let name = match relative_to(path, root) {
        Some(name) => name,
        None => {
            return None;
        },
    };
    let last = match leaf_of(path) {
        Some(last) => last,
        None => {
            return None;
        },
    };
    let file_ext = match extension_of(last.as_str()) {
        Some(ext) => ext,
        None => "unknown".to_owned(),
    };
    Some(
        FileHeader {
            repo_name: repo.to_owned(),
            file_name: name,
            file_ext,
            file_size: size,
            file_datetime: created,
            file_location: path.to_owned(),
        },
    )
}

} // verus!

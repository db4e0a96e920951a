//! The scan for files that the tree of a repository does not know: what
//! one visited directory adds to the scratch copy of the tree, and which
//! of its files are untracked.

use vstd::prelude::*;
use crate::batch::{BatchJob, Job};
use crate::path::views;
use crate::tree::{has_pair, Content, Tree};

verus! {

/// One entry of a directory on disk.
pub struct DirEntry {
    pub name: String,
    pub is_dir: bool,
}

/// An entry as a value.
pub struct DirEntryView {
    pub name: Seq<char>,
    pub is_dir: bool,
}

impl View for DirEntry {
    type V = DirEntryView;

    open spec fn view(&self) -> DirEntryView {
        DirEntryView { name: self.name@, is_dir: self.is_dir }
    }
}

/// The entries of `list` as values.
pub open spec fn entry_list(list: Seq<DirEntry>) -> Seq<DirEntryView> {
    Seq::new(list.len(), |i: int| list[i]@)
}

/// `content` with `dir` as a directory, without children unless it had
/// some.
pub open spec fn with_directory(content: Content, dir: Seq<char>) -> Content {
    if content.contains_key(dir) {
        content
    } else {
        content.insert(dir, Seq::empty())
    }
}

/// `content` once every directory among `entries` is tracked.
pub open spec fn with_directories(content: Content, entries: Seq<DirEntryView>) -> Content
    decreases entries.len(),
{
    if entries.len() == 0 {
        content
    } else {
        let before = with_directories(content, entries.drop_last());
        if entries.last().is_dir {
            with_directory(before, entries.last().name)
        } else {
            before
        }
    }
}

/// The directories among `entries`, in order.
pub open spec fn directories_among(entries: Seq<DirEntryView>) -> Seq<Seq<char>>
    decreases entries.len(),
{
    if entries.len() == 0 {
        Seq::empty()
    } else if entries.last().is_dir {
        directories_among(entries.drop_last()).push(entries.last().name)
    } else {
        directories_among(entries.drop_last())
    }
}

/// The files among `entries` that `content` does not list under `parent`,
/// in order.
pub open spec fn untracked_among(content: Content, parent: Seq<char>, entries: Seq<DirEntryView>) -> Seq<
    Seq<char>,
>
    decreases entries.len(),
{
    if entries.len() == 0 {
        Seq::empty()
    } else {
        let before = untracked_among(content, parent, entries.drop_last());
        let entry = entries.last();
        if !entry.is_dir && !has_pair(content, parent, entry.name) {
            before.push(entry.name)
        } else {
            before
        }
    }
}

/// What one visited directory yields.
pub struct Visit {
    /// The files of the directory that the tree does not list under it.
    pub untracked: Vec<String>,
    /// The directories in it, which are to be visited in turn.
    pub subdirs: Vec<String>,
}

proof fn lemma_tracking_keeps_children(content: Content, entries: Seq<DirEntryView>)
    ensures
        forall|parent: Seq<char>, child: Seq<char>|
            has_pair(with_directories(content, entries), parent, child) == #[trigger] has_pair(
                content,
                parent,
                child,
            ),
    decreases entries.len(),
{
    if entries.len() > 0 {
        lemma_tracking_keeps_children(content, entries.drop_last());
        let before = with_directories(content, entries.drop_last());
        let after = with_directories(content, entries);
        assert forall|parent: Seq<char>, child: Seq<char>|
            has_pair(after, parent, child) == #[trigger] has_pair(content, parent, child) by {
            assert(has_pair(before, parent, child) == has_pair(content, parent, child));
            if entries.last().is_dir && !before.contains_key(entries.last().name) {
                assert(!Seq::<Seq<char>>::empty().contains(child));
            }
        }
    }
}

/// Visits the directory called `parent`, which holds `entries`: tracks
/// each directory in the scratch tree, and finds the files that the tree
/// does not list under `parent`.
pub fn visit(tree: &mut Tree, parent: &str, entries: &Vec<DirEntry>) -> (found: Visit)
    requires
        old(tree).wf(),
    ensures
        final(tree).wf(),
        final(tree).history() == old(tree).history(),
        final(tree).name_text() == old(tree).name_text(),
        final(tree).path_text() == old(tree).path_text(),
        final(tree).content() == with_directories(old(tree).content(), entry_list(entries@)),
        views(found.subdirs@) == directories_among(entry_list(entries@)),
        views(found.untracked@) == untracked_among(
            old(tree).content(),
            parent@,
            entry_list(entries@),
        ),
{
    let ghost all = entry_list(entries@);
    let ghost start = tree.content();
    let mut untracked: Vec<String> = Vec::new();
    let mut subdirs: Vec<String> = Vec::new();
    let mut i: usize = 0;
    proof {
        assert(all.take(0) =~= Seq::<DirEntryView>::empty());
        assert(views(subdirs@) =~= directories_among(all.take(0)));
        assert(views(untracked@) =~= untracked_among(start, parent@, all.take(0)));
    }
    while i < entries.len()
        invariant
            i <= entries.len(),
            all == entry_list(entries@),
            start == old(tree).content(),
            tree.wf(),
            tree.history() == old(tree).history(),
            tree.name_text() == old(tree).name_text(),
            tree.path_text() == old(tree).path_text(),
            tree.content() == with_directories(start, all.take(i as int)),
            views(subdirs@) == directories_among(all.take(i as int)),
            views(untracked@) == untracked_among(start, parent@, all.take(i as int)),
        decreases entries.len() - i,
    {
        let entry = &entries[i];
        proof {
            let now = all.take(i + 1);
            assert(now.drop_last() =~= all.take(i as int));
            assert(now.last() == entry@);
            lemma_tracking_keeps_children(start, all.take(i as int));
        }
        if entry.is_dir {
            tree.track_directory(entry.name.as_str());
            let ghost before = views(subdirs@);
            subdirs.push(entry.name.clone());
            proof {
                assert(views(subdirs@) =~= before.push(entry.name@));
            }
        } else if !tree.has_child(parent, entry.name.as_str()) {
            let ghost before = views(untracked@);
            untracked.push(entry.name.clone());
            proof {
                assert(views(untracked@) =~= before.push(entry.name@));
            }
        }
        i += 1;
    }
    proof {
        assert(all.take(entries.len() as int) =~= all);
    }
    Visit { untracked, subdirs }
}

/// What a scan hands to the loader: the one batch that holds every job it
/// found, in the order found, or nothing where it found none.
pub fn scan_batch(jobs: Vec<Job>) -> (batch: Option<BatchJob>)
    ensures
        match batch {
            Some(b) => jobs@.len() > 0 && b.jobs == jobs,
            None => jobs@.len() == 0,
        },
{
    if jobs.len() == 0 {
        None
    } else {
        Some(BatchJob::new(jobs))
    }
}

/// Why a scan cannot start.
#[derive(Clone, Copy, Debug, PartialEq, Eq, Structural)]
pub enum ScanRefusal {
    /// The session holds no tree for the repository.
    NoTree,
    /// No batch loader takes jobs.
    NoLoader,
    /// The repository has no watch directory.
    NoWatchDirectory,
}

/// What a request for a scan leads to.
#[derive(Clone, Copy, Debug, PartialEq, Eq, Structural)]
pub enum ScanPlan {
    /// The repository is not configured: nothing is done.
    Skip,
    /// The watch directory is walked.
    Walk,
    /// The scan is refused.
    Refuse(ScanRefusal),
}

/// What a request for a scan leads to: nothing for a repository without
/// configuration; a refusal without a tree, without a loader or with an
/// empty watch directory, in this order; else a walk.
pub open spec fn planned(configured: bool, watch_len: nat, has_tree: bool, has_loader: bool) -> ScanPlan {
    if !configured {
        ScanPlan::Skip
    } else if !has_tree {
        ScanPlan::Refuse(ScanRefusal::NoTree)
    } else if !has_loader {
        ScanPlan::Refuse(ScanRefusal::NoLoader)
    } else if watch_len == 0 {
        ScanPlan::Refuse(ScanRefusal::NoWatchDirectory)
    } else {
        ScanPlan::Walk
    }
}

/// Decides what a request for a scan leads to, given the watch directory
/// of the repository, if it is configured.
pub fn plan_scan(watch_directory: Option<&str>, has_tree: bool, has_loader: bool) -> (plan: ScanPlan)
    ensures
        plan == planned(
            watch_directory is Some,
            match watch_directory {
                Some(dir) => dir@.len(),
                None => 0,
            },
            has_tree,
            has_loader,
        ),
{
    match watch_directory {
        None => ScanPlan::Skip,
        Some(dir) => {
            if !has_tree {
                ScanPlan::Refuse(ScanRefusal::NoTree)
            } else if !has_loader {
                ScanPlan::Refuse(ScanRefusal::NoLoader)
            } else if dir.is_empty() {
                ScanPlan::Refuse(ScanRefusal::NoWatchDirectory)
            } else {
                ScanPlan::Walk
            }
        },
    }
}

} // verus!

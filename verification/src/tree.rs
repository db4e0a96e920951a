//! The history log of one repository and the directory contents replayed
//! from it.

use vstd::prelude::*;
use crate::path::{components, components_from, views};
use crate::replay_laws::law_in_step_after_appending;
use crate::text::{chars_of, same_text};

verus! {

/// Directory contents: each directory name with its children in the order
/// in which they were first seen.
pub type Content = Map<Seq<char>, Seq<Seq<char>>>;

/// `content` once `child` is known under `parent`.
pub open spec fn with_child(content: Content, parent: Seq<char>, child: Seq<char>) -> Content {
    if !content.contains_key(parent) {
        content.insert(parent, seq![child])
    } else if content[parent].contains(child) {
        content
    } else {
        content.insert(parent, content[parent].push(child))
    }
}

/// `content` once every pair of neighbours in `names` is known, first pair
/// first.
pub open spec fn with_path(content: Content, names: Seq<Seq<char>>) -> Content
    decreases names.len(),
{
    if names.len() < 2 {
        content
    } else {
        with_child(with_path(content, names.drop_last()), names[names.len() - 2], names.last())
    }
}

/// Whether `op` records the creation of a path.
pub open spec fn is_create(op: Seq<char>) -> bool {
    op.len() > 0 && op[0] == '+'
}

/// `content` after one history entry. An entry that is no creation changes
/// nothing.
pub open spec fn with_entry(content: Content, op: Seq<char>) -> Content {
    if is_create(op) {
        with_path(content, components(op.skip(1)))
    } else {
        content
    }
}

/// `content` after the entries `from .. to` of `history`, lowest index
/// first.
pub open spec fn replayed(content: Content, history: Seq<Seq<char>>, from: int, to: int) -> Content
    decreases to - from,
{
    if from >= to {
        content
    } else {
        with_entry(replayed(content, history, from, to - 1), history[to - 1])
    }
}

/// Whether `parent` already lists `child`.
pub open spec fn has_pair(content: Content, parent: Seq<char>, child: Seq<char>) -> bool {
    content.contains_key(parent) && content[parent].contains(child)
}

/// Whether every pair of neighbours in `names` is known to `content`.
pub open spec fn has_path(content: Content, names: Seq<Seq<char>>) -> bool {
    forall|k: int| 0 <= k < names.len() - 1 ==> has_pair(content, #[trigger] names[k], names[k + 1])
}

/// Whether `content` already holds what `op` would add.
pub open spec fn has_entry(content: Content, op: Seq<char>) -> bool {
    is_create(op) ==> has_path(content, components(op.skip(1)))
}

/// Whether `small` is part of `large`: every directory of `small` is one of
/// `large`, with at least the same children.
pub open spec fn within(small: Content, large: Content) -> bool {
    forall|parent: Seq<char>, child: Seq<char>| #[trigger]
        has_pair(small, parent, child) ==> has_pair(large, parent, child)
}

/// The first index that a request for updates after `version` is answered
/// from: the entries sent are those with an index above `version`, and
/// all of them where `version` is nought.
pub open spec fn first_update(version: int) -> int {
    if version > 0 {
        version + 1
    } else {
        0
    }
}

/// The entries of `history` from index `from` on, each with its index.
pub open spec fn entries_from(history: Seq<Seq<char>>, from: int) -> Seq<(int, Seq<char>)>
    recommends
        0 <= from,
{
    if from >= history.len() {
        Seq::empty()
    } else {
        Seq::new((history.len() - from) as nat, |k: int| (from + k, history[from + k]))
    }
}

/// One directory and its children.
pub struct Directory {
    name: String,
    children: Vec<String>,
}

spec fn names_differ(dirs: Seq<Directory>) -> bool {
    forall|i: int, j: int| 0 <= i < j < dirs.len() ==> dirs[i].name@ != dirs[j].name@
}

spec fn position(dirs: Seq<Directory>, name: Seq<char>) -> int {
    choose|i: int| 0 <= i < dirs.len() && dirs[i].name@ == name
}

spec fn content_of(dirs: Seq<Directory>) -> Content {
    Map::new(
        |name: Seq<char>| exists|i: int| 0 <= i < dirs.len() && dirs[i].name@ == name,
        |name: Seq<char>| views(dirs[position(dirs, name)].children@),
    )
}

proof fn lemma_content_at(dirs: Seq<Directory>, i: int)
    requires
        names_differ(dirs),
        0 <= i < dirs.len(),
    ensures
        content_of(dirs).contains_key(dirs[i].name@),
        content_of(dirs)[dirs[i].name@] == views(dirs[i].children@),
{
    let name = dirs[i].name@;
    let p = position(dirs, name);
    assert(0 <= p < dirs.len() && dirs[p].name@ == name);
    assert(p == i);
}

proof fn lemma_content_absent(dirs: Seq<Directory>, name: Seq<char>)
    requires
        forall|i: int| 0 <= i < dirs.len() ==> dirs[i].name@ != name,
    ensures
        !content_of(dirs).contains_key(name),
{
}

/// The versioned description of one repository: its history, and the
/// directory contents replayed from it.
pub struct Tree {
    name: String,
    path: String,
    history: Vec<String>,
    content: Vec<Directory>,
}

/// A tree as a value.
pub struct TreeView {
    pub name: Seq<char>,
    pub path: Seq<char>,
    pub history: Seq<Seq<char>>,
    pub content: Content,
}

impl View for Tree {
    type V = TreeView;

    open spec fn view(&self) -> TreeView {
        TreeView {
            name: self.name_text(),
            path: self.path_text(),
            history: self.history(),
            content: self.content(),
        }
    }
}

fn find_directory(dirs: &Vec<Directory>, name: &str) -> (found: Option<usize>)
    ensures
        match found {
            Some(i) => i < dirs.len() && dirs[i as int].name@ == name@,
            None => forall|i: int| 0 <= i < dirs.len() ==> dirs[i].name@ != name@,
        },
{
    let mut i: usize = 0;
    while i < dirs.len()
        invariant
            i <= dirs.len(),
            forall|k: int| 0 <= k < i ==> dirs[k].name@ != name@,
        decreases dirs.len() - i,
    {
        if same_text(dirs[i].name.as_str(), name) {
            return Some(i);
        }
        i += 1;
    }
    None
}

/// Whether one of `names` is `name`.
pub fn lists(names: &Vec<String>, name: &str) -> (found: bool)
    ensures
        found == views(names@).contains(name@),
{
    let mut i: usize = 0;
    while i < names.len()
        invariant
            i <= names.len(),
            forall|k: int| 0 <= k < i ==> views(names@)[k] != name@,
        decreases names.len() - i,
    {
        if same_text(names[i].as_str(), name) {
            assert(views(names@)[i as int] == name@);
            return true;
        }
        i += 1;
    }
    false
}

fn add_child(dirs: &mut Vec<Directory>, parent: &String, child: &String)
    requires
        names_differ(old(dirs)@),
    ensures
        names_differ(final(dirs)@),
        content_of(final(dirs)@) == with_child(content_of(old(dirs)@), parent@, child@),
{
    let ghost before = dirs@;
    match find_directory(dirs, parent.as_str()) {
        Some(i) => {
            proof {
                lemma_content_at(before, i as int);
            }
            if !lists(&dirs[i].children, child.as_str()) {
                let mut entry = dirs.remove(i);
                let ghost old_children = entry.children@;
                entry.children.push(child.clone());
                dirs.insert(i, entry);
                proof {
                    let after = dirs@;
                    assert(after.len() == before.len());
                    assert forall|k: int| 0 <= k < after.len() implies #[trigger] after[k].name
                        == before[k].name by {}
                    assert(names_differ(after));
                    assert(views(after[i as int].children@) =~= views(old_children).push(child@));
                    assert forall|k: int| 0 <= k < after.len() && k != i implies #[trigger] after[k]
                        == before[k] by {}
                    let expected = with_child(content_of(before), parent@, child@);
                    assert forall|name: Seq<char>| content_of(after).contains_key(name)
                        == expected.contains_key(name) by {
                        if content_of(after).contains_key(name) {
                            let k = position(after, name);
                            assert(before[k].name@ == name);
                        }
                        if content_of(before).contains_key(name) {
                            let k = position(before, name);
                            assert(after[k].name@ == name);
                        }
                    }
                    assert forall|name: Seq<char>| content_of(after).contains_key(name) implies (
                    #[trigger] content_of(after)[name]) == expected[name] by {
                        let k = position(after, name);
                        lemma_content_at(after, k);
                        lemma_content_at(before, k);
                    }
                    assert(content_of(after) =~= expected);
                }
            }
        },
        None => {
            let mut children: Vec<String> = Vec::new();
            children.push(child.clone());
            dirs.push(Directory { name: parent.clone(), children });
            proof {
                let after = dirs@;
                let last = before.len() as int;
                lemma_content_absent(before, parent@);
                assert(names_differ(after));
                assert(views(after[last].children@) =~= seq![child@]);
                lemma_content_at(after, last);
                let expected = with_child(content_of(before), parent@, child@);
                assert forall|name: Seq<char>| content_of(after).contains_key(name)
                    == expected.contains_key(name) by {
                    if content_of(after).contains_key(name) {
                        let k = position(after, name);
                        if k < last {
                            assert(before[k].name@ == name);
                        }
                    }
                    if content_of(before).contains_key(name) {
                        let k = position(before, name);
                        assert(after[k].name@ == name);
                    }
                }
                assert forall|name: Seq<char>| content_of(after).contains_key(name) implies (
                #[trigger] content_of(after)[name]) == expected[name] by {
                    let k = position(after, name);
                    lemma_content_at(after, k);
                    if k < last {
                        lemma_content_at(before, k);
                    }
                }
                assert(content_of(after) =~= expected);
            }
        },
    }
}

fn add_path(dirs: &mut Vec<Directory>, names: &Vec<String>)
    requires
        names_differ(old(dirs)@),
    ensures
        names_differ(final(dirs)@),
        content_of(final(dirs)@) == with_path(content_of(old(dirs)@), views(names@)),
{
    let ghost all = views(names@);
    if names.len() < 2 {
        return ;
    }
    let mut i: usize = 1;
    while i < names.len()
        invariant
            1 <= i <= names.len(),
            all == views(names@),
            names_differ(dirs@),
            content_of(dirs@) == with_path(content_of(old(dirs)@), all.take(i as int)),
        decreases names.len() - i,
    {
        proof {
            let now = all.take(i + 1);
            assert(now.drop_last() =~= all.take(i as int));
            assert(now[now.len() - 2] == names[i - 1]@);
            assert(now.last() == names[i as int]@);
        }
        add_child(dirs, &names[i - 1], &names[i]);
        i += 1;
    }
    proof {
        assert(all.take(names.len() as int) =~= all);
    }
}

fn add_entry(dirs: &mut Vec<Directory>, op: &String)
    requires
        names_differ(old(dirs)@),
    ensures
        names_differ(final(dirs)@),
        content_of(final(dirs)@) == with_entry(content_of(old(dirs)@), op@),
{
    let chars = chars_of(op.as_str());
    if chars.len() > 0 && chars[0] == '+' {
        let names = components_from(&chars, 1);
        add_path(dirs, &names);
    }
}

/// A copy of `names`.
pub fn copy_names(names: &Vec<String>) -> (out: Vec<String>)
    ensures
        views(out@) == views(names@),
{
    let mut out: Vec<String> = Vec::new();
    let mut i: usize = 0;
    while i < names.len()
        invariant
            i <= names.len(),
            views(out@) == views(names@).take(i as int),
        decreases names.len() - i,
    {
        let ghost before = out@;
        out.push(names[i].clone());
        proof {
            assert(views(out@) =~= views(before).push(names[i as int]@));
            assert(views(names@).take(i + 1) =~= views(names@).take(i as int).push(
                names[i as int]@,
            ));
        }
        i += 1;
    }
    proof {
        assert(views(names@).take(names.len() as int) =~= views(names@));
    }
    out
}

/// Updates as they travel: each entry with its index.
pub open spec fn updates_view(updates: Seq<(i32, String)>) -> Seq<(int, Seq<char>)> {
    Seq::new(updates.len(), |k: int| (updates[k].0 as int, updates[k].1@))
}

/// The texts of `updates`, in order.
pub open spec fn update_texts(updates: Seq<(i32, String)>) -> Seq<Seq<char>> {
    Seq::new(updates.len(), |k: int| updates[k].1@)
}

/// Whether one of `entries` has the index `k`.
pub open spec fn holds_index(entries: Seq<(i32, String)>, k: int) -> bool {
    exists|i: int| 0 <= i < entries.len() && #[trigger] entries[i].0 == k
}

/// Whether `entries` holds each index below `version` exactly once and
/// nothing else.
pub open spec fn is_complete(entries: Seq<(i32, String)>, version: int) -> bool {
    &&& entries.len() == version
    &&& forall|i: int| 0 <= i < entries.len() ==> 0 <= (#[trigger] entries[i]).0 < version
    &&& forall|i: int, j: int|
        0 <= i < j < entries.len() ==> (#[trigger] entries[i]).0 != (#[trigger] entries[j]).0
    &&& forall|k: int| 0 <= k < version ==> #[trigger] holds_index(entries, k)
}

impl Tree {
    /// The history entries, lowest index first.
    pub closed spec fn history(&self) -> Seq<Seq<char>> {
        views(self.history@)
    }

    /// The directory contents.
    pub closed spec fn content(&self) -> Content {
        content_of(self.content@)
    }

    /// The name of the repository.
    pub closed spec fn name_text(&self) -> Seq<char> {
        self.name@
    }

    /// Where the tree is kept on disk.
    pub closed spec fn path_text(&self) -> Seq<char> {
        self.path@
    }

    /// The next unused sequence number.
    pub open spec fn next_index(&self) -> int {
        self.history().len() as int
    }

    /// Validity: no directory is held twice, and every index fits the
    /// version counter.
    pub closed spec fn wf(&self) -> bool {
        &&& names_differ(self.content@)
        &&& self.history@.len() <= i32::MAX
    }

    /// Whether the contents are exactly what the whole history replays to.
    pub open spec fn in_step(&self) -> bool {
        self.content() == replayed(Map::empty(), self.history(), 0, self.next_index())
    }

    /// A tree without history.
    pub fn new(name: String, path: String) -> (tree: Tree)
        ensures
            tree.wf(),
            tree.name_text() == name@,
            tree.path_text() == path@,
            tree.history() == Seq::<Seq<char>>::empty(),
            tree.content() == Map::<Seq<char>, Seq<Seq<char>>>::empty(),
            tree.in_step(),
    {
        let tree = Tree { name, path, history: Vec::new(), content: Vec::new() };
        proof {
            assert(tree.history() =~= Seq::<Seq<char>>::empty());
            assert(tree.content() =~= Map::<Seq<char>, Seq<Seq<char>>>::empty());
        }
        tree
    }

    /// The name of the repository.
    pub fn name(&self) -> (name: &String)
        ensures
            name@ == self.name_text(),
    {
        &self.name
    }

    /// Where the tree is kept on disk.
    pub fn path(&self) -> (path: &String)
        ensures
            path@ == self.path_text(),
    {
        &self.path
    }

    /// The next unused sequence number: the number of history entries.
    pub fn version(&self) -> (version: i32)
        requires
            self.wf(),
        ensures
            version == self.next_index(),
    {
        self.history.len() as i32
    }

    /// Appends `new_entry` to the history and returns its index.
    pub fn add_history(&mut self, new_entry: String) -> (index: i32)
        requires
            old(self).wf(),
            old(self).next_index() < i32::MAX,
        ensures
            final(self).wf(),
            index == old(self).next_index(),
            final(self).next_index() == old(self).next_index() + 1,
            final(self).history() == old(self).history().push(new_entry@),
            final(self).content() == old(self).content(),
            final(self).name_text() == old(self).name_text(),
            final(self).path_text() == old(self).path_text(),
    {
        let index = self.history.len() as i32;
        self.history.push(new_entry);
        proof {
            assert(final(self).history() =~= old(self).history().push(new_entry@));
        }
        index
    }

    /// Replays the entries from `history_index` on into the contents. An
    /// index below zero stands for zero; one at or past the version replays
    /// nothing.
    pub fn apply_history(&mut self, history_index: i32)
        requires
            old(self).wf(),
        ensures
            final(self).wf(),
            final(self).history() == old(self).history(),
            final(self).name_text() == old(self).name_text(),
            final(self).path_text() == old(self).path_text(),
            final(self).content() == replayed(
                old(self).content(),
                old(self).history(),
                if history_index < 0 {
                    0
                } else {
                    history_index as int
                },
                old(self).next_index(),
            ),
    {
        let n = self.history.len();
        if history_index >= 0 && history_index as usize >= n {
            return ;
        }
        let start: usize = if history_index < 0 {
            0
        } else {
            history_index as usize
        };
        let mut i: usize = start;
        while i < n
            invariant
                n == self.history.len(),
                start <= i <= n,
                self.history == old(self).history,
                self.name == old(self).name,
                self.path == old(self).path,
                names_differ(self.content@),
                content_of(self.content@) == replayed(
                    content_of(old(self).content@),
                    views(self.history@),
                    start as int,
                    i as int,
                ),
            decreases n - i,
        {
            add_entry(&mut self.content, &self.history[i]);
            i += 1;
        }
    }

    /// A copy of the tree.
    pub fn duplicate(&self) -> (copy: Tree)
        requires
            self.wf(),
        ensures
            copy.wf(),
            copy@ == self@,
    {
        let mut content: Vec<Directory> = Vec::new();
        let mut i: usize = 0;
        while i < self.content.len()
            invariant
                i <= self.content.len(),
                content.len() == i,
                forall|k: int|
                    0 <= k < i ==> (#[trigger] content[k]).name@ == self.content[k].name@ && views(
                        content[k].children@,
                    ) == views(self.content[k].children@),
            decreases self.content.len() - i,
        {
            let dir = &self.content[i];
            content.push(
                Directory { name: dir.name.clone(), children: copy_names(&dir.children) },
            );
            i += 1;
        }
        let copy = Tree {
            name: self.name.clone(),
            path: self.path.clone(),
            history: copy_names(&self.history),
            content,
        };
        proof {
            let a = self.content@;
            let b = copy.content@;
            assert(names_differ(b));
            assert(views(copy.history@).len() == views(self.history@).len());
            assert forall|name: Seq<char>| content_of(a).contains_key(name) == content_of(
                b,
            ).contains_key(name) by {
                if content_of(a).contains_key(name) {
                    let k = position(a, name);
                    assert(b[k].name@ == name);
                }
                if content_of(b).contains_key(name) {
                    let k = position(b, name);
                    assert(a[k].name@ == name);
                }
            }
            assert forall|name: Seq<char>| content_of(a).contains_key(name) implies (
            #[trigger] content_of(a)[name]) == content_of(b)[name] by {
                let k = position(a, name);
                lemma_content_at(a, k);
                lemma_content_at(b, k);
            }
            assert(content_of(a) =~= content_of(b));
        }
        copy
    }

    /// The history entry at `index`, if there is one.
    pub fn history_entry(&self, index: i32) -> (entry: Option<String>)
        requires
            self.wf(),
        ensures
            match entry {
                Some(text) => 0 <= index < self.next_index() && text@ == self.history()[index as int],
                None => !(0 <= index < self.next_index()),
            },
    {
        if index < 0 || index as usize >= self.history.len() {
            None
        } else {
            Some(self.history[index as usize].clone())
        }
    }

    /// A copy of the history, lowest index first.
    pub fn history_entries(&self) -> (entries: Vec<String>)
        ensures
            views(entries@) == self.history(),
    {
        copy_names(&self.history)
    }

    /// Whether `name` is a directory of the tree.
    pub fn is_directory(&self, name: &str) -> (found: bool)
        requires
            self.wf(),
        ensures
            found == self.content().contains_key(name@),
    {
        match find_directory(&self.content, name) {
            Some(i) => {
                proof {
                    lemma_content_at(self.content@, i as int);
                }
                true
            },
            None => false,
        }
    }

    /// The children of `dir` in the order in which they were added, if
    /// `dir` is a directory of the tree.
    pub fn children(&self, dir: &str) -> (found: Option<Vec<String>>)
        requires
            self.wf(),
        ensures
            match found {
                Some(list) => self.content().contains_key(dir@) && views(list@)
                    == self.content()[dir@],
                None => !self.content().contains_key(dir@),
            },
    {
        match find_directory(&self.content, dir) {
            Some(i) => {
                proof {
                    lemma_content_at(self.content@, i as int);
                }
                Some(copy_names(&self.content[i].children))
            },
            None => None,
        }
    }

    /// Whether `dir` is a directory of the tree that lists `child`.
    pub fn has_child(&self, dir: &str, child: &str) -> (found: bool)
        requires
            self.wf(),
        ensures
            found == has_pair(self.content(), dir@, child@),
    {
        match find_directory(&self.content, dir) {
            Some(i) => {
                proof {
                    lemma_content_at(self.content@, i as int);
                }
                lists(&self.content[i].children, child)
            },
            None => false,
        }
    }

    /// The directories of the tree, each once.
    pub fn directories(&self) -> (names: Vec<String>)
        requires
            self.wf(),
        ensures
            views(names@).no_duplicates(),
            forall|name: Seq<char>| views(names@).contains(name) <==> self.content().contains_key(name),
    {
        let mut names: Vec<String> = Vec::new();
        let mut i: usize = 0;
        while i < self.content.len()
            invariant
                i <= self.content.len(),
                names.len() == i,
                forall|k: int| 0 <= k < i ==> names[k]@ == self.content[k].name@,
            decreases self.content.len() - i,
        {
            names.push(self.content[i].name.clone());
            i += 1;
        }
        proof {
            let dirs = self.content@;
            let all = views(names@);
            assert forall|a: int, b: int| 0 <= a < all.len() && 0 <= b < all.len() && a != b implies all[a] != all[b] by {
                assert(all[a] == dirs[a].name@ && all[b] == dirs[b].name@);
            }
            assert forall|name: Seq<char>| all.contains(name) <==> self.content().contains_key(name) by {
                if all.contains(name) {
                    let k = choose|k: int| 0 <= k < all.len() && all[k] == name;
                    assert(dirs[k].name@ == name);
                }
                if self.content().contains_key(name) {
                    let k = position(dirs, name);
                    assert(all[k] == name);
                }
            }
        }
        names
    }

    /// Makes `dir` a directory of the tree, without children, unless it is
    /// one already.
    pub fn track_directory(&mut self, dir: &str)
        requires
            old(self).wf(),
        ensures
            final(self).wf(),
            final(self).history() == old(self).history(),
            final(self).name_text() == old(self).name_text(),
            final(self).path_text() == old(self).path_text(),
            final(self).content() == if old(self).content().contains_key(dir@) {
                old(self).content()
            } else {
                old(self).content().insert(dir@, Seq::empty())
            },
    {
        let ghost before = self.content@;
        match find_directory(&self.content, dir) {
            Some(i) => {
                proof {
                    lemma_content_at(before, i as int);
                }
            },
            None => {
                self.content.push(Directory { name: dir.to_owned(), children: Vec::new() });
                proof {
                    let after = self.content@;
                    let last = before.len() as int;
                    lemma_content_absent(before, dir@);
                    assert(names_differ(after));
                    assert(views(after[last].children@) =~= Seq::<Seq<char>>::empty());
                    lemma_content_at(after, last);
                    let expected = content_of(before).insert(dir@, Seq::empty());
                    assert forall|name: Seq<char>| content_of(after).contains_key(name)
                        == expected.contains_key(name) by {
                        if content_of(after).contains_key(name) {
                            let k = position(after, name);
                            if k < last {
                                assert(before[k].name@ == name);
                            }
                        }
                        if content_of(before).contains_key(name) {
                            let k = position(before, name);
                            assert(after[k].name@ == name);
                        }
                    }
                    assert forall|name: Seq<char>| content_of(after).contains_key(name) implies (
                    #[trigger] content_of(after)[name]) == expected[name] by {
                        let k = position(after, name);
                        lemma_content_at(after, k);
                        if k < last {
                            lemma_content_at(before, k);
                        }
                    }
                    assert(content_of(after) =~= expected);
                }
            },
        }
    }

    /// Appends `entry` to the history and replays it: the contents take in
    /// the one new entry. Returns the entry's index.
    pub fn record(&mut self, entry: String) -> (index: i32)
        requires
            old(self).wf(),
            old(self).next_index() < i32::MAX,
        ensures
            final(self).wf(),
            index == old(self).next_index(),
            final(self).name_text() == old(self).name_text(),
            final(self).path_text() == old(self).path_text(),
            final(self).history() == old(self).history().push(entry@),
            final(self).content() == with_entry(old(self).content(), entry@),
            old(self).in_step() ==> final(self).in_step(),
    {
        proof {
            law_in_step_after_appending(old(self).history(), seq![entry@]);
            assert(old(self).history() + seq![entry@] =~= old(self).history().push(entry@));
        }
        let index = self.add_history(entry);
        self.apply_history(index);
        proof {
            let h = final(self).history();
            let n = h.len() as int;
            assert(replayed(old(self).content(), h, n - 1, n - 1) == old(self).content());
            assert(h[n - 1] == entry@);
        }
        index
    }

    /// What a holder of `version` entries is sent to catch up: the entries
    /// from `first_update(version)` on, each with its index, lowest first.
    pub fn updates_after(&self, version: i32) -> (updates: Vec<(i32, String)>)
        requires
            self.wf(),
        ensures
            updates_view(updates@) == entries_from(self.history(), first_update(version as int)),
    {
        let n = self.history.len();
        let mut updates: Vec<(i32, String)> = Vec::new();
        if version > 0 && version as usize >= n {
            proof {
                assert(updates_view(updates@) =~= entries_from(
                    self.history(),
                    first_update(version as int),
                ));
            }
            return updates;
        }
        let from: usize = if version > 0 {
            version as usize + 1
        } else {
            0
        };
        let mut i: usize = from;
        while i < n
            invariant
                n == self.history.len(),
                n <= i32::MAX,
                from <= i <= n,
                updates.len() == i - from,
                forall|k: int| 0 <= k < i - from ==> (#[trigger] updates[k]).0 == from + k
                    && updates[k].1@ == self.history[from + k]@,
            decreases n - i,
        {
            updates.push((i as i32, self.history[i].clone()));
            i += 1;
        }
        proof {
            assert(updates_view(updates@) =~= entries_from(self.history(), from as int));
        }
        updates
    }

    /// Takes in updates sent by the holder of a longer history: appends
    /// their texts in the order given, then replays the new entries.
    pub fn apply_updates(&mut self, updates: &Vec<(i32, String)>)
        requires
            old(self).wf(),
            old(self).next_index() + updates.len() <= i32::MAX,
        ensures
            final(self).wf(),
            final(self).name_text() == old(self).name_text(),
            final(self).path_text() == old(self).path_text(),
            final(self).history() == old(self).history() + update_texts(updates@),
            final(self).content() == replayed(
                old(self).content(),
                final(self).history(),
                old(self).next_index(),
                final(self).next_index(),
            ),
            old(self).in_step() ==> final(self).in_step(),
    {
        proof {
            law_in_step_after_appending(old(self).history(), update_texts(updates@));
        }
        let start = self.version();
        let mut i: usize = 0;
        while i < updates.len()
            invariant
                i <= updates.len(),
                self.wf(),
                old(self).next_index() + updates.len() <= i32::MAX,
                self.name_text() == old(self).name_text(),
                self.path_text() == old(self).path_text(),
                self.content() == old(self).content(),
                self.history() == old(self).history() + update_texts(updates@).take(i as int),
            decreases updates.len() - i,
        {
            let ghost before = self.history();
            self.add_history(updates[i].1.clone());
            proof {
                assert(update_texts(updates@).take(i + 1) =~= update_texts(updates@).take(
                    i as int,
                ).push(updates[i as int].1@));
                assert(self.history() =~= old(self).history() + update_texts(updates@).take(
                    i + 1,
                ));
            }
            i += 1;
        }
        proof {
            assert(update_texts(updates@).take(updates.len() as int) =~= update_texts(updates@));
        }
        self.apply_history(start);
    }

    /// The tree whose history is `entries`, with the contents that the
    /// history replays to. None where the entries are more than a version
    /// counter can number.
    pub fn from_history(name: String, path: String, entries: Vec<String>) -> (tree: Option<Tree>)
        ensures
            tree is Some <==> entries.len() <= i32::MAX,
            tree matches Some(t) ==> {
                &&& t.wf()
                &&& t.name_text() == name@
                &&& t.path_text() == path@
                &&& t.history() == views(entries@)
                &&& t.in_step()
            },
    {
        if entries.len() > i32::MAX as usize {
            return None;
        }
        let mut tree = Tree { name, path, history: entries, content: Vec::new() };
        proof {
            assert(tree.content() =~= Map::<Seq<char>, Seq<Seq<char>>>::empty());
        }
        tree.apply_history(0);
        Some(tree)
    }

    /// The tree read back from persisted parts: a version and the history
    /// entries, each with its index, in any order. None where the indices
    /// are not exactly those below `version`.
    pub fn restore(name: String, path: String, version: i32, entries: &Vec<(i32, String)>) -> (tree:
        Option<Tree>)
        ensures
            tree is Some <==> is_complete(entries@, version as int),
            tree matches Some(t) ==> {
                &&& t.wf()
                &&& t.name_text() == name@
                &&& t.path_text() == path@
                &&& t.next_index() == version
                &&& forall|i: int|
                    0 <= i < entries.len() ==> t.history()[(#[trigger] entries[i]).0 as int]
                        == entries[i].1@
                &&& t.in_step()
            },
    {
        if version < 0 || entries.len() != version as usize {
            return None;
        }
        let n = version as usize;
        let mut slots: Vec<Option<String>> = Vec::new();
        while slots.len() < n
            invariant
                slots.len() <= n,
                forall|k: int| 0 <= k < slots.len() ==> slots[k] is None,
            decreases n - slots.len(),
        {
            slots.push(None);
        }
        let mut i: usize = 0;
        while i < n
            invariant
                i <= n,
                n == entries.len(),
                n == version,
                slots.len() == n,
                forall|j: int| 0 <= j < i ==> 0 <= (#[trigger] entries[j]).0 < version,
                forall|a: int, b: int|
                    0 <= a < b < i ==> (#[trigger] entries[a]).0 != (#[trigger] entries[b]).0,
                forall|k: int|
                    0 <= k < n && #[trigger] slots[k] is Some ==> holds_index(
                        entries@.take(i as int),
                        k,
                    ),
                forall|j: int|
                    0 <= j < i ==> (slots[(#[trigger] entries[j]).0 as int] matches Some(text)
                        && text@ == entries[j].1@),
            decreases n - i,
        {
            let key = entries[i].0;
            if key < 0 || key >= version {
                return None;
            }
            if slots[key as usize].is_some() {
                proof {
                    let seen = entries@.take(i as int);
                    assert(holds_index(seen, key as int));
                    let j = choose|j: int| 0 <= j < seen.len() && #[trigger] seen[j].0 == key as int;
                    assert(entries[j].0 == entries[i as int].0);
                }
                return None;
            }
            proof {
                assert forall|a: int| 0 <= a < i implies (#[trigger] entries[a]).0 != key by {
                    assert(slots[entries[a].0 as int] is Some);
                }
            }
            let ghost marked = slots@;
            slots.set(key as usize, Some(entries[i].1.clone()));
            proof {
                let seen = entries@.take(i as int);
                let now = entries@.take(i + 1);
                assert forall|k: int| 0 <= k < n && #[trigger] slots[k] is Some implies holds_index(
                    now,
                    k,
                ) by {
                    if k == key {
                        assert(now[i as int].0 == k);
                    } else {
                        assert(marked[k] is Some);
                        assert(holds_index(seen, k));
                        let j = choose|j: int| 0 <= j < seen.len() && #[trigger] seen[j].0 == k;
                        assert(now[j].0 == k);
                    }
                }
            }
            i += 1;
        }
        let mut history: Vec<String> = Vec::new();
        let mut k: usize = 0;
        while k < n
            invariant
                k <= n,
                n == entries.len(),
                n == version,
                slots.len() == n,
                history.len() == k,
                forall|j: int| 0 <= j < n ==> 0 <= (#[trigger] entries[j]).0 < version,
                forall|j: int|
                    0 <= j < n ==> (slots[(#[trigger] entries[j]).0 as int] matches Some(text)
                        && text@ == entries[j].1@),
                forall|j: int|
                    0 <= j < k ==> (#[trigger] slots[j]) is Some && slots[j]->0@ == history[j]@,
            decreases n - k,
        {
            match &slots[k] {
                Some(text) => {
                    let copy = text.clone();
                    assert(copy@ == text@);
                    history.push(copy);
                },
                None => {
                    proof {
                        assert forall|j: int| 0 <= j < entries.len() implies (
                        #[trigger] entries[j]).0 != k by {
                            assert(slots[entries[j].0 as int] is Some);
                        }
                        assert(!holds_index(entries@, k as int));
                    }
                    return None;
                },
            }
            k += 1;
        }
        proof {
            assert(entries@.take(n as int) =~= entries@);
            assert forall|w: int| 0 <= w < version implies #[trigger] holds_index(entries@, w) by {
                assert(slots[w] is Some);
            }
            assert(is_complete(entries@, version as int));
        }
        let ghost texts = views(history@);
        let mut tree = Tree { name, path, history, content: Vec::new() };
        proof {
            assert(tree.content() =~= Map::<Seq<char>, Seq<Seq<char>>>::empty());
            assert forall|j: int| 0 <= j < entries.len() implies texts[(#[trigger] entries[j]).0 as int]
                == entries[j].1@ by {
                let w = entries[j].0 as int;
                assert(slots[w] is Some);
            }
        }
        tree.apply_history(0);
        Some(tree)
    }

    /// The tree of a repository as it is loaded: read back from what was
    /// persisted, where something was and its indices are exactly those
    /// below its version, and else a tree without history.
    pub fn load(name: String, path: String, stored: Option<(i32, Vec<(i32, String)>)>) -> (tree: Tree)
        ensures
            tree.wf(),
            tree.in_step(),
            tree.name_text() == name@,
            tree.path_text() == path@,
            match stored {
                Some((version, entries)) if is_complete(entries@, version as int) => {
                    &&& tree.next_index() == version
                    &&& forall|i: int|
                        0 <= i < entries.len() ==> tree.history()[(#[trigger] entries[i]).0 as int]
                            == entries[i].1@
                },
                _ => tree.history() == Seq::<Seq<char>>::empty(),
            },
    {
        match stored {
            Some((version, entries)) => {
                match Tree::restore(name.clone(), path.clone(), version, &entries) {
                    Some(tree) => tree,
                    None => Tree::new(name, path),
                }
            },
            None => Tree::new(name, path),
        }
    }
}

} // verus!

//! The messages between the user interface, the session and its workers,
//! and what the interface makes of those it receives.

use vstd::prelude::*;
use crate::path::views;
use crate::text::same_text;
use crate::tree::{Content, Tree, TreeView};

verus! {

/// Where a connection stands.
#[derive(Clone, Copy, Debug, PartialEq, Eq, Structural)]
pub enum ConnectionStatus {
    Connected,
    Connecting,
    Disconnected,
    Disconnecting,
}

impl ConnectionStatus {
    /// The status as a reader is shown it. A connection that is closing
    /// is shown as closed.
    pub open spec fn label_text(self) -> Seq<char> {
        match self {
            ConnectionStatus::Connected => "Connected"@,
            ConnectionStatus::Connecting => "Connecting"@,
            ConnectionStatus::Disconnected => "Disconnected"@,
            ConnectionStatus::Disconnecting => "Disconnected"@,
        }
    }

    /// The status as a reader is shown it.
    pub fn label(&self) -> (label: &'static str)
        ensures
            label@ == self.label_text(),
    {
        match self {
            ConnectionStatus::Connected => "Connected",
            ConnectionStatus::Connecting => "Connecting",
            ConnectionStatus::Disconnected => "Disconnected",
            ConnectionStatus::Disconnecting => "Disconnected",
        }
    }
}

/// A message on the bus. The first seven travel from the interface to the
/// session, the others from the session and its workers to the interface;
/// `RemoveRepository` travels both ways.
pub enum Commands {
    CreateRepo(String),
    GetRepoTree(String),
    SetStoragePath(String),
    StartEventListener(String, String),
    DisconnectStream(String),
    RemoveRepository(String),
    DiscoverUntracked(String),
    Log(String),
    Notify(String),
    UpdateConnectionStatus(ConnectionStatus),
    UpdateRepoStatus((String, ConnectionStatus)),
    PostRepos(Vec<String>),
    PostRepoTree(Tree, String),
    GetSubDir(String),
}

/// A message as a value.
pub enum CommandView {
    CreateRepo(Seq<char>),
    GetRepoTree(Seq<char>),
    SetStoragePath(Seq<char>),
    StartEventListener(Seq<char>, Seq<char>),
    DisconnectStream(Seq<char>),
    RemoveRepository(Seq<char>),
    DiscoverUntracked(Seq<char>),
    Log(Seq<char>),
    Notify(Seq<char>),
    UpdateConnectionStatus(ConnectionStatus),
    UpdateRepoStatus(Seq<char>, ConnectionStatus),
    PostRepos(Seq<Seq<char>>),
    PostRepoTree(TreeView, Seq<char>),
    GetSubDir(Seq<char>),
}

impl View for Commands {
    type V = CommandView;

    open spec fn view(&self) -> CommandView {
        match self {
            Commands::CreateRepo(name) => CommandView::CreateRepo(name@),
            Commands::GetRepoTree(name) => CommandView::GetRepoTree(name@),
            Commands::SetStoragePath(path) => CommandView::SetStoragePath(path@),
            Commands::StartEventListener(name, dir) => CommandView::StartEventListener(name@, dir@),
            Commands::DisconnectStream(name) => CommandView::DisconnectStream(name@),
            Commands::RemoveRepository(name) => CommandView::RemoveRepository(name@),
            Commands::DiscoverUntracked(name) => CommandView::DiscoverUntracked(name@),
            Commands::Log(text) => CommandView::Log(text@),
            Commands::Notify(text) => CommandView::Notify(text@),
            Commands::UpdateConnectionStatus(status) => CommandView::UpdateConnectionStatus(*status),
            Commands::UpdateRepoStatus(pair) => CommandView::UpdateRepoStatus(pair.0@, pair.1),
            Commands::PostRepos(names) => CommandView::PostRepos(views(names@)),
            Commands::PostRepoTree(tree, name) => CommandView::PostRepoTree(tree@, name@),
            Commands::GetSubDir(dir) => CommandView::GetSubDir(dir@),
        }
    }
}

impl Commands {
    /// Validity: a tree that travels is a valid tree.
    pub open spec fn wf(&self) -> bool {
        match self {
            Commands::PostRepoTree(tree, _) => tree.wf(),
            _ => true,
        }
    }
}

/// One line of the file explorer.
pub struct FileSystemEntry {
    pub name: String,
    pub is_directory: bool,
}

/// A line of the file explorer as a value.
pub struct EntryView {
    pub name: Seq<char>,
    pub is_directory: bool,
}

impl View for FileSystemEntry {
    type V = EntryView;

    open spec fn view(&self) -> EntryView {
        EntryView { name: self.name@, is_directory: self.is_directory }
    }
}

/// The status of each repository, by name.
pub type Statuses = Seq<(Seq<char>, ConnectionStatus)>;

/// `list` with `value` for `name`: in place of the first value of `name`,
/// or at the end where `name` has none.
pub open spec fn put<V>(list: Seq<(Seq<char>, V)>, name: Seq<char>, value: V) -> Seq<(Seq<char>, V)>
    decreases list.len(),
{
    if list.len() == 0 {
        seq![(name, value)]
    } else if list[0].0 == name {
        seq![(name, value)] + list.drop_first()
    } else {
        seq![list[0]] + put(list.drop_first(), name, value)
    }
}

/// `list` without the values of `name`.
pub open spec fn dropped<V>(list: Seq<(Seq<char>, V)>, name: Seq<char>) -> Seq<(Seq<char>, V)> {
    list.filter(|p: (Seq<char>, V)| p.0 != name)
}

/// The first value of `name` in `list`, if it has one.
pub open spec fn lookup<V>(list: Seq<(Seq<char>, V)>, name: Seq<char>) -> Option<V>
    decreases list.len(),
{
    if list.len() == 0 {
        None
    } else if list[0].0 == name {
        Some(list[0].1)
    } else {
        lookup(list.drop_first(), name)
    }
}

/// The statuses after a list of repositories was posted: each of them
/// disconnected, in the order of its first mention.
pub open spec fn posted(names: Seq<Seq<char>>) -> Statuses
    decreases names.len(),
{
    if names.len() == 0 {
        Seq::empty()
    } else {
        put(posted(names.drop_last()), names.last(), ConnectionStatus::Disconnected)
    }
}

/// The lines of the file explorer for `dir`: its children, each marked as
/// a directory where the tree knows it as one. None where `dir` is no
/// directory of the tree.
pub open spec fn listing(content: Content, dir: Seq<char>) -> Option<Seq<EntryView>> {
    if content.contains_key(dir) {
        Some(
            content[dir].map_values(
                |child: Seq<char>|
                    EntryView { name: child, is_directory: content.contains_key(child) },
            ),
        )
    } else {
        None
    }
}

/// What the user interface shows.
pub struct UiState {
    pub show_create_ui: bool,
    pub new_repo_name: String,
    pub selected_repo: Option<usize>,
    pub connection_status: ConnectionStatus,
    pub repo_status: Vec<(String, ConnectionStatus)>,
    pub file_explorer_path: Vec<String>,
    pub subdir_contents: Option<Vec<FileSystemEntry>>,
    pub tree: Option<Tree>,
    pub notification: Option<String>,
}

/// The state of the interface as a value.
pub struct UiStateView {
    pub show_create_ui: bool,
    pub new_repo_name: Seq<char>,
    pub selected_repo: Option<usize>,
    pub connection_status: ConnectionStatus,
    pub repo_status: Statuses,
    pub file_explorer_path: Seq<Seq<char>>,
    pub subdir_contents: Option<Seq<EntryView>>,
    pub tree: Option<TreeView>,
    pub notification: Option<Seq<char>>,
}

/// The statuses of `list` as values.
pub open spec fn status_views(list: Seq<(String, ConnectionStatus)>) -> Statuses {
    Seq::new(list.len(), |i: int| (list[i].0@, list[i].1))
}

/// The lines of `list` as values.
pub open spec fn entry_views(list: Seq<FileSystemEntry>) -> Seq<EntryView> {
    Seq::new(list.len(), |i: int| list[i]@)
}

impl View for UiState {
    type V = UiStateView;

    open spec fn view(&self) -> UiStateView {
        UiStateView {
            show_create_ui: self.show_create_ui,
            new_repo_name: self.new_repo_name@,
            selected_repo: self.selected_repo,
            connection_status: self.connection_status,
            repo_status: status_views(self.repo_status@),
            file_explorer_path: views(self.file_explorer_path@),
            subdir_contents: match self.subdir_contents {
                Some(list) => Some(entry_views(list@)),
                None => None,
            },
            tree: match self.tree {
                Some(tree) => Some(tree@),
                None => None,
            },
            notification: match self.notification {
                Some(text) => Some(text@),
                None => None,
            },
        }
    }
}

/// What the interface asks of its host after a message.
pub enum UiEffect {
    /// Nothing.
    Nothing,
    /// Write a line to the log.
    WriteLog(String),
    /// Put a message on the interface's own channel.
    Requeue(Commands),
    /// Forget a repository: take it out of the saved configuration, and
    /// delete the file of the tree that was shown, if one was.
    Forget { repo: String, tree_file: Option<String> },
}

/// What the interface asks of its host, as a value.
pub enum EffectView {
    Nothing,
    WriteLog(Seq<char>),
    Requeue(CommandView),
    Forget { repo: Seq<char>, tree_file: Option<Seq<char>> },
}

impl View for UiEffect {
    type V = EffectView;

    open spec fn view(&self) -> EffectView {
        match self {
            UiEffect::Nothing => EffectView::Nothing,
            UiEffect::WriteLog(line) => EffectView::WriteLog(line@),
            UiEffect::Requeue(command) => EffectView::Requeue(command@),
            UiEffect::Forget { repo, tree_file } => EffectView::Forget {
                repo: repo@,
                tree_file: match tree_file {
                    Some(path) => Some(path@),
                    None => None,
                },
            },
        }
    }
}

/// The state of the interface after a message.
pub open spec fn applied(s: UiStateView, c: CommandView) -> UiStateView {
    match c {
        CommandView::Notify(text) => UiStateView { notification: Some(text), ..s },
        CommandView::GetSubDir(dir) => UiStateView {
            subdir_contents: match s.tree {
                Some(tree) => listing(tree.content, dir),
                None => None,
            },
            ..s
        },
        CommandView::PostRepoTree(tree, _) => UiStateView { tree: Some(tree), ..s },
        CommandView::PostRepos(names) => UiStateView {
            selected_repo: None,
            repo_status: posted(names),
            ..s
        },
        CommandView::UpdateRepoStatus(name, status) => UiStateView {
            repo_status: put(s.repo_status, name, status),
            ..s
        },
        CommandView::UpdateConnectionStatus(status) => UiStateView { connection_status: status, ..s },
        CommandView::RemoveRepository(name) => UiStateView {
            selected_repo: None,
            repo_status: dropped(s.repo_status, name),
            tree: None,
            subdir_contents: if s.tree is Some {
                None
            } else {
                s.subdir_contents
            },
            file_explorer_path: if s.tree is Some {
                Seq::empty()
            } else {
                s.file_explorer_path
            },
            ..s
        },
        _ => s,
    }
}

/// What the interface asks of its host after a message.
pub open spec fn effect_of(s: UiStateView, c: CommandView) -> EffectView {
    match c {
        CommandView::Log(line) => EffectView::WriteLog(line),
        CommandView::PostRepoTree(_, name) => EffectView::Requeue(CommandView::GetSubDir(name)),
        CommandView::RemoveRepository(name) => EffectView::Forget {
            repo: name,
            tree_file: match s.tree {
                Some(tree) => Some(tree.path),
                None => None,
            },
        },
        _ => EffectView::Nothing,
    }
}

/// The state of the interface after the messages of `commands`, first
/// come, first served.
pub open spec fn drained(s: UiStateView, commands: Seq<CommandView>) -> UiStateView
    decreases commands.len(),
{
    if commands.len() == 0 {
        s
    } else {
        applied(drained(s, commands.drop_last()), commands.last())
    }
}

/// Messages may be left for a later frame: draining some now and the rest
/// later ends in the state that draining all at once ends in.
pub proof fn law_drain_in_two_frames(s: UiStateView, now: Seq<CommandView>, later: Seq<CommandView>)
    ensures
        drained(drained(s, now), later) == drained(s, now + later),
    decreases later.len(),
{
    if later.len() == 0 {
        assert(now + later =~= now);
    } else {
        law_drain_in_two_frames(s, now, later.drop_last());
        assert((now + later).drop_last() =~= now + later.drop_last());
        assert((now + later).last() == later.last());
    }
}

/// The first pair under `name` is the one that `lookup` finds.
pub proof fn lemma_lookup_found<V>(list: Seq<(Seq<char>, V)>, name: Seq<char>, i: int)
    requires
        0 <= i < list.len(),
        list[i].0 == name,
        forall|k: int| 0 <= k < i ==> list[k].0 != name,
    ensures
        lookup(list, name) == Some(list[i].1),
    decreases i,
{
    if i > 0 {
        let rest = list.drop_first();
        assert forall|k: int| 0 <= k < i - 1 implies rest[k].0 != name by {
            assert(rest[k] == list[k + 1]);
        }
        lemma_lookup_found(rest, name, i - 1);
    }
}

/// Where no pair stands under `name`, `lookup` finds nothing.
pub proof fn lemma_lookup_missing<V>(list: Seq<(Seq<char>, V)>, name: Seq<char>)
    requires
        forall|k: int| 0 <= k < list.len() ==> list[k].0 != name,
    ensures
        lookup(list, name) is None,
    decreases list.len(),
{
    if list.len() > 0 {
        let rest = list.drop_first();
        assert forall|k: int| 0 <= k < rest.len() implies rest[k].0 != name by {
            assert(rest[k] == list[k + 1]);
        }
        lemma_lookup_missing(rest, name);
    }
}

/// Where a pair stands under `name`, `put` replaces the first such pair.
pub proof fn lemma_put_found<V>(list: Seq<(Seq<char>, V)>, name: Seq<char>, status: V, i: int)
    requires
        0 <= i < list.len(),
        list[i].0 == name,
        forall|k: int| 0 <= k < i ==> list[k].0 != name,
    ensures
        put(list, name, status) == list.update(i, (name, status)),
    decreases i,
{
    if i == 0 {
        assert(seq![(name, status)] + list.drop_first() =~= list.update(0, (name, status)));
    } else {
        let rest = list.drop_first();
        assert forall|k: int| 0 <= k < i - 1 implies rest[k].0 != name by {
            assert(rest[k] == list[k + 1]);
        }
        lemma_put_found(rest, name, status, i - 1);
        assert(seq![list[0]] + rest.update(i - 1, (name, status)) =~= list.update(
            i,
            (name, status),
        ));
    }
}

/// Where no pair stands under `name`, `put` appends one.
pub proof fn lemma_put_missing<V>(list: Seq<(Seq<char>, V)>, name: Seq<char>, status: V)
    requires
        forall|k: int| 0 <= k < list.len() ==> list[k].0 != name,
    ensures
        put(list, name, status) == list.push((name, status)),
    decreases list.len(),
{
    if list.len() == 0 {
        assert(seq![(name, status)] =~= list.push((name, status)));
    } else {
        let rest = list.drop_first();
        assert forall|k: int| 0 <= k < rest.len() implies rest[k].0 != name by {
            assert(rest[k] == list[k + 1]);
        }
        lemma_put_missing(rest, name, status);
        assert(seq![list[0]] + rest.push((name, status)) =~= list.push((name, status)));
    }
}

/// Sets the status of `name` in `list`.
pub fn set_status(list: &mut Vec<(String, ConnectionStatus)>, name: String, status: ConnectionStatus)
    ensures
        status_views(final(list)@) == put(status_views(old(list)@), name@, status),
{
    let ghost before = status_views(list@);
    let mut i: usize = 0;
    while i < list.len()
        invariant
            i <= list.len(),
            list@ == old(list)@,
            forall|k: int| 0 <= k < i ==> before[k].0 != name@,
            before == status_views(list@),
        decreases list.len() - i,
    {
        if same_text(list[i].0.as_str(), name.as_str()) {
            proof {
                assert(before[i as int].0 == name@);
                lemma_put_found(before, name@, status, i as int);
            }
            list.set(i, (name, status));
            proof {
                assert(status_views(list@) =~= before.update(i as int, (name@, status)));
            }
            return ;
        }
        i += 1;
    }
    proof {
        lemma_put_missing(before, name@, status);
    }
    list.push((name, status));
    proof {
        assert(status_views(list@) =~= before.push((name@, status)));
    }
}

/// Takes the statuses of `name` out of `list`.
pub fn drop_status(list: &mut Vec<(String, ConnectionStatus)>, name: &str)
    ensures
        status_views(final(list)@) == dropped(status_views(old(list)@), name@),
{
    let ghost all = status_views(list@);
    let mut kept: Vec<(String, ConnectionStatus)> = Vec::new();
    let mut i: usize = 0;
    proof {
        assert(all.take(0) =~= Seq::<(Seq<char>, ConnectionStatus)>::empty());
        reveal(Seq::filter);
    }
    while i < list.len()
        invariant
            i <= list.len(),
            list@ == old(list)@,
            all == status_views(list@),
            status_views(kept@) == dropped(all.take(i as int), name@),
        decreases list.len() - i,
    {
        let ghost before = status_views(kept@);
        proof {
            let so_far = all.take(i as int);
            let now = all.take(i + 1);
            assert(now.drop_last() =~= so_far);
            assert(now.last() == all[i as int]);
            reveal(Seq::filter);
        }
        if !same_text(list[i].0.as_str(), name) {
            kept.push((list[i].0.clone(), list[i].1));
            proof {
                assert(status_views(kept@) =~= before.push(all[i as int]));
            }
        }
        i += 1;
    }
    proof {
        assert(all.take(list.len() as int) =~= all);
    }
    *list = kept;
}

/// The statuses after `names` were posted.
pub fn post_statuses(names: &Vec<String>) -> (list: Vec<(String, ConnectionStatus)>)
    ensures
        status_views(list@) == posted(views(names@)),
{
    let ghost all = views(names@);
    let mut list: Vec<(String, ConnectionStatus)> = Vec::new();
    let mut i: usize = 0;
    proof {
        assert(all.take(0) =~= Seq::<Seq<char>>::empty());
        assert(status_views(list@) =~= posted(all.take(0)));
    }
    while i < names.len()
        invariant
            i <= names.len(),
            all == views(names@),
            status_views(list@) == posted(all.take(i as int)),
        decreases names.len() - i,
    {
        proof {
            let now = all.take(i + 1);
            assert(now.drop_last() =~= all.take(i as int));
            assert(now.last() == names[i as int]@);
        }
        set_status(&mut list, names[i].clone(), ConnectionStatus::Disconnected);
        i += 1;
    }
    proof {
        assert(all.take(names.len() as int) =~= all);
    }
    list
}

/// The lines of the file explorer for the directory `dir` of `tree`.
pub fn list_directory(tree: &Tree, dir: &str) -> (lines: Option<Vec<FileSystemEntry>>)
    requires
        tree.wf(),
    ensures
        match lines {
            Some(list) => listing(tree.content(), dir@) == Some(entry_views(list@)),
            None => listing(tree.content(), dir@) is None,
        },
{
    let children = match tree.children(dir) {
        Some(children) => children,
        None => {
            return None;
        },
    };
    let ghost content = tree.content();
    let mut lines: Vec<FileSystemEntry> = Vec::new();
    let mut i: usize = 0;
    while i < children.len()
        invariant
            i <= children.len(),
            tree.wf(),
            content == tree.content(),
            lines.len() == i,
            forall|k: int|
                0 <= k < i ==> (#[trigger] lines[k])@ == (EntryView {
                    name: children[k]@,
                    is_directory: content.contains_key(children[k]@),
                }),
        decreases children.len() - i,
    {
        let is_directory = tree.is_directory(children[i].as_str());
        lines.push(FileSystemEntry { name: children[i].clone(), is_directory });
        i += 1;
    }
    proof {
        assert(entry_views(lines@) =~= content[dir@].map_values(
            |child: Seq<char>| EntryView { name: child, is_directory: content.contains_key(child) },
        ));
    }
    Some(lines)
}

impl Default for UiState {
    fn default() -> (state: UiState)
        ensures
            state.wf(),
            state@ == (UiStateView {
                show_create_ui: false,
                new_repo_name: Seq::empty(),
                selected_repo: None,
                connection_status: ConnectionStatus::Disconnected,
                repo_status: Seq::empty(),
                file_explorer_path: Seq::empty(),
                subdir_contents: None,
                tree: None,
                notification: None,
            }),
    {
        let state = UiState {
            show_create_ui: false,
            new_repo_name: String::new(),
            selected_repo: None,
            connection_status: ConnectionStatus::Disconnected,
            repo_status: Vec::new(),
            file_explorer_path: Vec::new(),
            subdir_contents: None,
            tree: None,
            notification: None,
        };
        proof {
            assert(status_views(state.repo_status@) =~= Seq::empty());
            assert(views(state.file_explorer_path@) =~= Seq::empty());
        }
        state
    }
}

impl UiState {
    /// Validity: a tree that is shown is a valid tree.
    pub open spec fn wf(&self) -> bool {
        match self.tree {
            Some(tree) => tree.wf(),
            None => true,
        }
    }

    /// Takes in one message from the bus and says what the host is to do
    /// about it.
    pub fn apply(&mut self, command: Commands) -> (effect: UiEffect)
        requires
            old(self).wf(),
            command.wf(),
        ensures
            final(self).wf(),
            final(self)@ == applied(old(self)@, command@),
            effect@ == effect_of(old(self)@, command@),
    {
        match command {
            Commands::Log(line) => UiEffect::WriteLog(line),
            Commands::Notify(text) => {
                self.notification = Some(text);
                UiEffect::Nothing
            },
            Commands::GetSubDir(dir) => {
                let lines = match &self.tree {
                    Some(tree) => list_directory(tree, dir.as_str()),
                    None => None,
                };
                self.subdir_contents = lines;
                UiEffect::Nothing
            },
            Commands::PostRepoTree(tree, name) => {
                self.tree = Some(tree);
                UiEffect::Requeue(Commands::GetSubDir(name))
            },
            Commands::PostRepos(names) => {
                self.selected_repo = None;
                self.repo_status = post_statuses(&names);
                UiEffect::Nothing
            },
            Commands::UpdateRepoStatus(pair) => {
                let (name, status) = pair;
                set_status(&mut self.repo_status, name, status);
                UiEffect::Nothing
            },
            Commands::UpdateConnectionStatus(status) => {
                self.connection_status = status;
                UiEffect::Nothing
            },
            Commands::RemoveRepository(name) => {
                let tree_file = match &self.tree {
                    Some(tree) => Some(tree.path().clone()),
                    None => None,
                };
                if self.tree.is_some() {
                    self.tree = None;
                    self.subdir_contents = None;
                    self.file_explorer_path = Vec::new();
                    proof {
                        assert(views(self.file_explorer_path@) =~= Seq::empty());
                    }
                }
                drop_status(&mut self.repo_status, name.as_str());
                self.selected_repo = None;
                UiEffect::Forget { repo: name, tree_file }
            },
            _ => UiEffect::Nothing,
        }
    }
}

} // verus!

//! The state of a client session, and how commands and answers change it.

use vstd::prelude::*;
use crate::bus::{
    dropped, lemma_lookup_found, lemma_lookup_missing, lemma_put_found, lemma_put_missing, lookup,
    put, CommandView, Commands, ConnectionStatus,
};
use crate::config::{default_repo, ClientConfig, RepoConfig};
use crate::discovery::{plan_scan, planned, ScanPlan, ScanRefusal};
use crate::loader::BatchLoaderCallback;
use crate::json::{
    json_of_tree_request, names_of_json, tree_request_to_json, updates_from_json, updates_of_json,
};
use crate::path::views;
use crate::protocol::{Request, RequestTypes, RequestView, Response, ResponseCodes, ResponseView};
use crate::server::{tree_file, tree_file_text};
use crate::session::{
    action_views, advance, after_repos, after_storage_path, ask_repos, bare_request, log_line,
    log_text, next_status, notice, on_repos, on_storage_path, reports, request_about, request_of,
    text_request, ActionView, Asked, AskedView, Log, Notify, SessionAction, SessionEvent,
};
use crate::text::{concat, lossy_text, same_text, utf8_lossy};
use crate::tree::{
    entries_from, first_update, lists, replayed, update_texts, updates_view, Tree, TreeView,
};

verus! {

/// The trees of `trees` by name.
pub open spec fn named(trees: Seq<Tree>) -> Seq<(Seq<char>, TreeView)> {
    Seq::new(trees.len(), |i: int| (trees[i]@.name, trees[i]@))
}

/// The tree of a repository that has no history yet.
pub open spec fn fresh(name: Seq<char>) -> TreeView {
    TreeView { name, path: tree_file_text(name), history: Seq::empty(), content: Map::empty() }
}

/// The texts of `updates`, in order.
pub open spec fn texts_of(updates: Seq<(int, Seq<char>)>) -> Seq<Seq<char>> {
    Seq::new(updates.len(), |k: int| updates[k].1)
}

/// `base` once it has taken in `updates`: their texts appended to its
/// history, and the new entries replayed into its contents.
pub open spec fn caught_up(base: TreeView, updates: Seq<(int, Seq<char>)>) -> TreeView {
    let history = base.history + texts_of(updates);
    TreeView {
        history,
        content: replayed(base.content, history, base.history.len() as int, history.len() as int),
        ..base
    }
}

/// What a holder of `version` entries is sent are the entries of the
/// server's history from `first_update(version)` on, in order.
pub proof fn law_updates_are_the_rest(server: Seq<Seq<char>>, version: int)
    requires
        0 <= first_update(version) <= server.len(),
    ensures
        texts_of(entries_from(server, first_update(version))) == server.skip(first_update(version)),
{
    let from = first_update(version);
    assert(texts_of(entries_from(server, from)) =~= server.skip(from));
}

/// A holder of nothing that takes in what it is sent holds the server's
/// history, and the contents that this history replays to.
pub proof fn law_catch_up_from_nothing(name: Seq<char>, server: Seq<Seq<char>>)
    ensures
        caught_up(fresh(name), entries_from(server, first_update(0))).history == server,
        caught_up(fresh(name), entries_from(server, first_update(0))).content == replayed(
            Map::empty(),
            server,
            0,
            server.len() as int,
        ),
{
    law_updates_are_the_rest(server, 0);
    assert(server.skip(0) =~= server);
    assert(Seq::<Seq<char>>::empty() + server =~= server);
}

/// The request for the tree of `name` by a holder of `held` entries: its
/// body is a JSON object with `name` under `repo_name` and `held` under
/// `version`.
pub open spec fn tree_request_view(name: Seq<char>, held: int) -> RequestView {
    RequestView {
        request_type: RequestTypes::GetRepoTree,
        body: json_of_tree_request("repo_name"@, name, "version"@, held),
    }
}

/// The request for a tree whose body is `body`, if a body could be
/// written.
pub fn tree_request_with(body: Option<Vec<u8>>) -> (request: Option<Request>)
    ensures
        match request {
            Some(r) => body matches Some(bytes) && r@ == (RequestView {
                request_type: RequestTypes::GetRepoTree,
                body: bytes@,
            }),
            None => body is None,
        },
{
    match body {
        Some(body) => Some(Request { request_type: RequestTypes::GetRepoTree, body }),
        None => None,
    }
}

/// A client session.
pub struct ClientSession {
    pub status: ConnectionStatus,
    pub config: ClientConfig,
    pub trees: Vec<Tree>,
    pub listeners: Vec<String>,
    pub loader_ready: bool,
}

impl Log for ClientSession {
    fn log_response(&self, response: &Response) -> (line: Commands) {
        log_line(response)
    }
}

impl Notify for ClientSession {
    fn notify_app(&self, response: &Response) -> (message: Commands) {
        notice(response)
    }
}

/// What follows from the greeting of the server: the reports, the news
/// that the client is connected, and a request for a batch processor.
pub open spec fn after_greeting(r: ResponseView) -> Seq<ActionView> {
    reports(r) + seq![
        ActionView::Tell(CommandView::UpdateConnectionStatus(ConnectionStatus::Connected)),
        ActionView::Ask(AskedView::BatchProcessor, bare_request(RequestTypes::StartBatchProcessor)),
    ]
}

/// What follows from the answer to a request for a batch processor: the
/// reports, and the file channel opened to the address in the body, or
/// the session given up where the server refused.
pub open spec fn after_batch_processor(r: ResponseView) -> Seq<ActionView> {
    reports(r) + seq![
        if r.status_code == ResponseCodes::OK {
            ActionView::OpenFileChannel(utf8_lossy(r.body))
        } else {
            ActionView::Abort
        },
    ]
}

/// What follows from the greeting of the batch processor: the reports,
/// and, where a storage directory is set, a request for the repositories.
pub open spec fn after_file_channel(r: ResponseView, storage_set: bool) -> Seq<ActionView> {
    reports(r) + if storage_set {
        seq![ask_repos()]
    } else {
        Seq::empty()
    }
}

/// What follows from the answer to a request to create the repository
/// `name`.
pub open spec fn after_created(r: ResponseView, name: Seq<char>) -> Seq<ActionView> {
    reports(r) + (if r.status_code == ResponseCodes::OK {
        seq![ask_repos(), ActionView::SaveTree(name)]
    } else {
        Seq::empty()
    }) + seq![ActionView::SaveConfig]
}

/// What follows from the answer to a request to remove the repository
/// `name`, where `held` says whether the session held its tree.
pub open spec fn after_removed(r: ResponseView, name: Seq<char>, held: bool) -> Seq<ActionView> {
    seq![ActionView::Tell(CommandView::Log(log_text(r)))] + (if r.status_code == ResponseCodes::OK {
        (if held {
            seq![ActionView::DeleteTreeFile(tree_file_text(name))]
        } else {
            Seq::empty()
        }) + seq![
            ActionView::SaveConfig,
            ActionView::Tell(CommandView::RemoveRepository(name)),
            ask_repos(),
        ]
    } else {
        Seq::empty()
    })
}

/// The tree of `name` after the answer `r` to a request for it, where
/// `base` is the tree before and `updates` what the body of `r` holds: an
/// `OK` with a body brings updates, which are taken in unless they are
/// none or too many to number.
pub open spec fn tree_after(base: TreeView, r: ResponseView, updates: Option<Seq<(int, Seq<char>)>>) -> TreeView {
    if r.status_code == ResponseCodes::OK && r.body.len() > 0 {
        match updates {
            Some(list) => if base.history.len() + list.len() <= i32::MAX {
                caught_up(base, list)
            } else {
                base
            },
            None => base,
        }
    } else {
        base
    }
}

/// What follows from the answer `r` to a request for the tree of `name`,
/// where `held` is the tree that the session holds for it, if it holds
/// one: without a tree the answer is only reported.
pub open spec fn after_tree(
    held: Option<TreeView>,
    r: ResponseView,
    updates: Option<Seq<(int, Seq<char>)>>,
    name: Seq<char>,
) -> Seq<ActionView> {
    reports(r) + match held {
        None => Seq::empty(),
        Some(base) => if r.status_code != ResponseCodes::OK {
            Seq::empty()
        } else if r.body.len() == 0 {
            seq![ActionView::Tell(CommandView::PostRepoTree(base, name))]
        } else {
            match updates {
                Some(list) => if base.history.len() + list.len() <= i32::MAX {
                    seq![
                        ActionView::SaveTree(name),
                        ActionView::Tell(CommandView::PostRepoTree(caught_up(base, list), name)),
                    ]
                } else {
                    seq![ActionView::Abort]
                },
                None => seq![ActionView::Abort],
            }
        },
    }
}

/// The line that says that no tree is held for `name`.
pub open spec fn missing_tree_text(name: Seq<char>) -> Seq<char> {
    "tree "@ + name + " not found"@
}

/// The actions that stop the listeners of `names`, first first.
pub open spec fn stops(names: Seq<Seq<char>>) -> Seq<ActionView> {
    Seq::new(names.len(), |i: int| ActionView::StopListener(names[i]))
}

/// What ends a session once it is asked to disconnect: every listener
/// stopped, then the channels closed.
pub open spec fn after_disconnect_request(listeners: Seq<Seq<char>>) -> Seq<ActionView> {
    stops(listeners).push(ActionView::CloseChannels)
}

/// What a session reports once its channels are closed.
pub open spec fn after_closed() -> Seq<ActionView> {
    seq![
        ActionView::Tell(CommandView::UpdateConnectionStatus(ConnectionStatus::Disconnected)),
        ActionView::Tell(CommandView::Notify("Client stopped."@)),
    ]
}

/// What stopping the listener of `name` takes, where `running` says
/// whether it has one.
pub open spec fn after_stop(name: Seq<char>, running: bool) -> Seq<ActionView> {
    if running {
        seq![
            ActionView::StopListener(name),
            ActionView::Tell(
                CommandView::UpdateRepoStatus(name, ConnectionStatus::Disconnected),
            ),
        ]
    } else {
        seq![ActionView::Tell(CommandView::Log("Not connected to "@ + name))]
    }
}

/// The line that says why a scan was refused.
pub open spec fn refusal_text(why: ScanRefusal, name: Seq<char>) -> Seq<char> {
    match why {
        ScanRefusal::NoTree => "unable to locate tree for "@ + name,
        ScanRefusal::NoLoader => "batch loader is not available"@,
        ScanRefusal::NoWatchDirectory => "watch directory is not saved in the config"@,
    }
}

fn then(actions: &mut Vec<SessionAction>, action: SessionAction)
    ensures
        action_views(final(actions)@) == action_views(old(actions)@).push(action@),
{
    actions.push(action);
    proof {
        assert(action_views(actions@) =~= action_views(old(actions)@).push(action@));
    }
}

fn report(actions: &mut Vec<SessionAction>, response: &Response)
    ensures
        action_views(final(actions)@) == action_views(old(actions)@) + reports(response@),
{
    actions.push(SessionAction::Tell(log_line(response)));
    actions.push(SessionAction::Tell(notice(response)));
    proof {
        assert(action_views(actions@) =~= action_views(old(actions)@) + reports(response@));
    }
}

fn started() -> (actions: Vec<SessionAction>)
    ensures
        action_views(actions@) == Seq::<ActionView>::empty(),
{
    let actions: Vec<SessionAction> = Vec::new();
    proof {
        assert(action_views(actions@) =~= Seq::<ActionView>::empty());
    }
    actions
}

impl ClientSession {
    /// Validity: every tree held is a valid tree.
    pub open spec fn wf(&self) -> bool {
        forall|i: int| 0 <= i < self.trees@.len() ==> (#[trigger] self.trees@[i]).wf()
    }

    /// The tree held for `name`, if one is.
    pub open spec fn tree_view(&self, name: Seq<char>) -> Option<TreeView> {
        lookup(named(self.trees@), name)
    }

    /// A session that is not connected.
    pub fn new(config: ClientConfig) -> (session: ClientSession)
        ensures
            session.wf(),
            session.status == ConnectionStatus::Disconnected,
            session.config == config,
            session.trees@.len() == 0,
            session.listeners@.len() == 0,
            !session.loader_ready,
    {
        ClientSession {
            status: ConnectionStatus::Disconnected,
            config,
            trees: Vec::new(),
            listeners: Vec::new(),
            loader_ready: false,
        }
    }

    /// Moves to the state after `event`, where `event` means something in
    /// the present state. Returns whether it did.
    pub fn step(&mut self, event: SessionEvent) -> (moved: bool)
        ensures
            moved == next_status(old(self).status, event) is Some,
            final(self).status == match next_status(old(self).status, event) {
                Some(next) => next,
                None => old(self).status,
            },
            final(self).config == old(self).config,
            final(self).trees == old(self).trees,
            final(self).listeners == old(self).listeners,
            final(self).loader_ready == old(self).loader_ready,
    {
        match advance(self.status, event) {
            Some(next) => {
                self.status = next;
                true
            },
            None => false,
        }
    }

    fn find_tree(&self, name: &str) -> (found: Option<usize>)
        ensures
            match found {
                Some(i) => i < self.trees.len() && self.trees[i as int]@.name == name@
                    && self.tree_view(name@) == Some(self.trees[i as int]@) && forall|k: int|
                    0 <= k < i ==> named(self.trees@)[k].0 != name@,
                None => self.tree_view(name@) is None && forall|k: int|
                    0 <= k < self.trees.len() ==> named(self.trees@)[k].0 != name@,
            },
    {
        let mut i: usize = 0;
        while i < self.trees.len()
            invariant
                i <= self.trees.len(),
                forall|k: int| 0 <= k < i ==> named(self.trees@)[k].0 != name@,
            decreases self.trees.len() - i,
        {
            if same_text(self.trees[i].name().as_str(), name) {
                proof {
                    assert(named(self.trees@)[i as int].0 == name@);
                    lemma_lookup_found(named(self.trees@), name@, i as int);
                }
                return Some(i);
            }
            i += 1;
        }
        proof {
            lemma_lookup_missing(named(self.trees@), name@);
        }
        None
    }

    /// Keeps `tree` as the tree of its repository, in place of the one
    /// held before, if one was.
    pub fn keep_tree(&mut self, tree: Tree)
        requires
            old(self).wf(),
            tree.wf(),
        ensures
            final(self).wf(),
            named(final(self).trees@) == put(named(old(self).trees@), tree@.name, tree@),
            final(self).status == old(self).status,
            final(self).config == old(self).config,
            final(self).listeners == old(self).listeners,
            final(self).loader_ready == old(self).loader_ready,
    {
        let ghost before = named(self.trees@);
        let ghost view = tree@;
        match self.find_tree(tree.name().as_str()) {
            Some(i) => {
                proof {
                    lemma_put_found(before, view.name, view, i as int);
                }
                self.trees.set(i, tree);
                proof {
                    assert(named(self.trees@) =~= before.update(i as int, (view.name, view)));
                }
            },
            None => {
                proof {
                    lemma_put_missing(before, view.name, view);
                }
                self.trees.push(tree);
                proof {
                    assert(named(self.trees@) =~= before.push((view.name, view)));
                }
            },
        }
    }

    /// A copy of the tree held for `name`, if one is.
    pub fn tree(&self, name: &str) -> (found: Option<Tree>)
        requires
            self.wf(),
        ensures
            match found {
                Some(tree) => tree.wf() && self.tree_view(name@) == Some(tree@),
                None => self.tree_view(name@) is None,
            },
    {
        match self.find_tree(name) {
            Some(i) => Some(self.trees[i].duplicate()),
            None => None,
        }
    }

    /// Takes in the greeting of the server.
    pub fn on_greeting(&mut self, response: &Response) -> (actions: Vec<SessionAction>)
        ensures
            action_views(actions@) == after_greeting(response@),
            final(self).status == match next_status(old(self).status, SessionEvent::Greeted) {
                Some(next) => next,
                None => old(self).status,
            },
            final(self).config == old(self).config,
            final(self).trees == old(self).trees,
            final(self).listeners == old(self).listeners,
            final(self).loader_ready == old(self).loader_ready,
    {
        let _ = self.step(SessionEvent::Greeted);
        let mut actions = started();
        report(&mut actions, response);
        then(
            &mut actions,
            SessionAction::Tell(Commands::UpdateConnectionStatus(ConnectionStatus::Connected)),
        );
        then(
            &mut actions,
            SessionAction::Ask(Asked::BatchProcessor, request_of(RequestTypes::StartBatchProcessor)),
        );
        proof {
            assert(action_views(actions@) =~= after_greeting(response@));
        }
        actions
    }

    /// Takes in the greeting of the batch processor: the loader is ready
    /// where the greeting says `OK`.
    pub fn on_file_channel(&mut self, response: &Response) -> (actions: Vec<SessionAction>)
        ensures
            action_views(actions@) == after_file_channel(
                response@,
                old(self).config.server_storage_directory@.len() > 0,
            ),
            final(self).loader_ready == (response.status_code == ResponseCodes::OK),
            final(self).status == old(self).status,
            final(self).config == old(self).config,
            final(self).trees == old(self).trees,
            final(self).listeners == old(self).listeners,
    {
        self.loader_ready = response.status_code == ResponseCodes::OK;
        let mut actions = started();
        report(&mut actions, response);
        if !self.config.server_storage_directory.as_str().is_empty() {
            then(&mut actions, SessionAction::Ask(Asked::Repos, request_of(RequestTypes::GetRepos)));
        }
        proof {
            assert(action_views(actions@) =~= after_file_channel(
                response@,
                old(self).config.server_storage_directory@.len() > 0,
            ));
        }
        actions
    }

    /// Takes in the answer to a request to create the repository `name`:
    /// where the server agreed, the session holds an empty tree for it;
    /// either way the repository gets the options of a new repository.
    pub fn on_created(&mut self, name: String, response: &Response) -> (actions: Vec<SessionAction>)
        requires
            old(self).wf(),
        ensures
            final(self).wf(),
            action_views(actions@) == after_created(response@, name@),
            named(final(self).trees@) == if response.status_code == ResponseCodes::OK {
                put(named(old(self).trees@), name@, fresh(name@))
            } else {
                named(old(self).trees@)
            },
            final(self).config.options() == put(old(self).config.options(), name@, default_repo()),
            final(self).status == old(self).status,
            final(self).listeners == old(self).listeners,
            final(self).loader_ready == old(self).loader_ready,
    {
        let mut actions = started();
        report(&mut actions, response);
        if response.status_code == ResponseCodes::OK {
            then(&mut actions, SessionAction::Ask(Asked::Repos, request_of(RequestTypes::GetRepos)));
            let tree = Tree::new(name.clone(), tree_file(name.as_str()));
            self.keep_tree(tree);
            then(&mut actions, SessionAction::SaveTree(name.clone()));
        }
        self.config.set_repo(name, RepoConfig::default());
        then(&mut actions, SessionAction::SaveConfig);
        proof {
            assert(action_views(actions@) =~= after_created(response@, name@));
        }
        actions
    }

    /// Takes in the answer to a request to remove the repository `name`:
    /// where the server agreed, its options and its tree are forgotten.
    pub fn on_removed(&mut self, name: String, response: &Response) -> (actions: Vec<SessionAction>)
        requires
            old(self).wf(),
        ensures
            final(self).wf(),
            action_views(actions@) == after_removed(
                response@,
                name@,
                old(self).tree_view(name@) is Some,
            ),
            response.status_code == ResponseCodes::OK ==> {
                &&& named(final(self).trees@) == dropped(named(old(self).trees@), name@)
                &&& final(self).config.options() == dropped(old(self).config.options(), name@)
            },
            response.status_code != ResponseCodes::OK ==> {
                &&& final(self).trees == old(self).trees
                &&& final(self).config == old(self).config
            },
            final(self).status == old(self).status,
            final(self).listeners == old(self).listeners,
            final(self).loader_ready == old(self).loader_ready,
    {
        let mut actions = started();
        then(&mut actions, SessionAction::Tell(log_line(response)));
        if response.status_code == ResponseCodes::OK {
            let held = self.find_tree(name.as_str()).is_some();
            if held {
                then(&mut actions, SessionAction::DeleteTreeFile(tree_file(name.as_str())));
            }
            self.drop_trees(name.as_str());
            self.config.remove_repo(name.as_str());
            then(&mut actions, SessionAction::SaveConfig);
            then(&mut actions, SessionAction::Tell(Commands::RemoveRepository(name)));
            then(&mut actions, SessionAction::Ask(Asked::Repos, request_of(RequestTypes::GetRepos)));
        }
        proof {
            assert(action_views(actions@) =~= after_removed(
                response@,
                name@,
                old(self).tree_view(name@) is Some,
            ));
        }
        actions
    }

    fn drop_trees(&mut self, name: &str)
        requires
            old(self).wf(),
        ensures
            final(self).wf(),
            named(final(self).trees@) == dropped(named(old(self).trees@), name@),
            final(self).status == old(self).status,
            final(self).config == old(self).config,
            final(self).listeners == old(self).listeners,
            final(self).loader_ready == old(self).loader_ready,
    {
        let ghost all = named(self.trees@);
        let mut kept: Vec<Tree> = Vec::new();
        proof {
            assert(all.take(0) =~= Seq::<(Seq<char>, TreeView)>::empty());
            reveal(Seq::filter);
        }
        let mut left: Vec<Tree> = Vec::new();
        std::mem::swap(&mut left, &mut self.trees);
        let n = left.len();
        let mut i: usize = 0;
        while i < n
            invariant
                i <= n,
                n == all.len(),
                left.len() == n - i,
                forall|k: int|
                    0 <= k < n - i ==> (#[trigger] left[k]).wf() && (left[k]@.name, left[k]@)
                        == all[i + k],
                forall|k: int| 0 <= k < kept.len() ==> (#[trigger] kept[k]).wf(),
                named(kept@) == dropped(all.take(i as int), name@),
                self.status == old(self).status,
                self.config == old(self).config,
                self.listeners == old(self).listeners,
                self.loader_ready == old(self).loader_ready,
            decreases n - i,
        {
            let ghost before = named(kept@);
            let tree = left.remove(0);
            proof {
                let so_far = all.take(i as int);
                let now = all.take(i + 1);
                assert(now.drop_last() =~= so_far);
                assert(now.last() == all[i as int]);
                assert((tree@.name, tree@) == all[i as int]);
                reveal(Seq::filter);
            }
            if !same_text(tree.name().as_str(), name) {
                kept.push(tree);
                proof {
                    assert(named(kept@) =~= before.push(all[i as int]));
                }
            }
            i += 1;
        }
        proof {
            assert(all.take(n as int) =~= all);
        }
        self.trees = kept;
    }

    /// The request for the tree of `name`, which says how many entries the
    /// session holds of it. None where the session holds no tree for
    /// `name`, and only there.
    pub fn tree_request(&self, name: &str) -> (request: Option<Request>)
        requires
            self.wf(),
        ensures
            match request {
                Some(r) => self.tree_view(name@) matches Some(tree) && r@ == tree_request_view(
                    name@,
                    tree.history.len() as int,
                ),
                None => self.tree_view(name@) is None,
            },
    {
        let version = match self.find_tree(name) {
            Some(i) => self.trees[i].version(),
            None => {
                return None;
            },
        };
        tree_request_with(tree_request_to_json("repo_name", name, "version", version))
    }

    /// Takes in the answer to a request for the tree of `name`, where
    /// `updates` is what its body holds, if it holds updates: updates
    /// that arrive are appended to the tree held for `name` and replayed,
    /// and the tree is posted to the interface.
    pub fn tree_answered(
        &mut self,
        name: String,
        response: &Response,
        updates: Option<Vec<(i32, String)>>,
    ) -> (actions: Vec<SessionAction>)
        requires
            old(self).wf(),
        ensures
            final(self).wf(),
            action_views(actions@) == after_tree(
                old(self).tree_view(name@),
                response@,
                match updates {
                    Some(list) => Some(updates_view(list@)),
                    None => None,
                },
                name@,
            ),
            final(self).tree_view(name@) == match old(self).tree_view(name@) {
                Some(base) => Some(
                    tree_after(
                        base,
                        response@,
                        match updates {
                            Some(list) => Some(updates_view(list@)),
                            None => None,
                        },
                    ),
                ),
                None => None,
            },
            final(self).status == old(self).status,
            final(self).config == old(self).config,
            final(self).listeners == old(self).listeners,
            final(self).loader_ready == old(self).loader_ready,
    {
        let mut actions = started();
        report(&mut actions, response);
        let ghost held = self.tree_view(name@);
        proof {
            assert(action_views(actions@) =~= reports(response@) + Seq::<ActionView>::empty());
        }
        let at = match self.find_tree(name.as_str()) {
            Some(i) => i,
            None => {
                return actions;
            },
        };
        let ghost base = held->0;
        if response.status_code != ResponseCodes::OK {
            return actions;
        }
        if response.body.len() == 0 {
            let copy = self.trees[at].duplicate();
            then(&mut actions, SessionAction::Tell(Commands::PostRepoTree(copy, name)));
            return actions;
        }
        let updates = match updates {
            Some(updates) => updates,
            None => {
                then(&mut actions, SessionAction::Abort);
                return actions;
            },
        };
        let held_entries = self.trees[at].version();
        if updates.len() > (i32::MAX - held_entries) as usize {
            then(&mut actions, SessionAction::Abort);
            return actions;
        }
        let ghost before = named(self.trees@);
        let mut tree = self.trees[at].duplicate();
        tree.apply_updates(&updates);
        proof {
            assert(update_texts(updates@) =~= texts_of(updates_view(updates@)));
            assert(tree@ == caught_up(base, updates_view(updates@)));
        }
        let copy = tree.duplicate();
        self.trees.set(at, tree);
        proof {
            let after = named(self.trees@);
            assert(after[at as int].0 == name@);
            assert forall|k: int| 0 <= k < at implies after[k].0 != name@ by {
                assert(after[k] == before[k]);
            }
            lemma_lookup_found(after, name@, at as int);
        }
        then(&mut actions, SessionAction::SaveTree(name.clone()));
        then(&mut actions, SessionAction::Tell(Commands::PostRepoTree(copy, name)));
        actions
    }

    /// Takes in the answer to a request for the tree of `name`, whose
    /// body is read as a JSON object of updates where the answer says
    /// `OK` and has a body.
    pub fn on_tree(&mut self, name: String, response: &Response) -> (actions: Vec<SessionAction>)
        requires
            old(self).wf(),
        ensures
            final(self).wf(),
            action_views(actions@) == after_tree(
                old(self).tree_view(name@),
                response@,
                updates_of_json(response@.body),
                name@,
            ),
            final(self).tree_view(name@) == match old(self).tree_view(name@) {
                Some(base) => Some(tree_after(base, response@, updates_of_json(response@.body))),
                None => None,
            },
            final(self).status == old(self).status,
            final(self).config == old(self).config,
            final(self).listeners == old(self).listeners,
            final(self).loader_ready == old(self).loader_ready,
    {
        let updates = if response.status_code == ResponseCodes::OK && response.body.len() > 0 {
            updates_from_json(response.body.as_slice())
        } else {
            None
        };
        self.tree_answered(name, response, updates)
    }

    /// Stops the listener of `name`, if it has one.
    pub fn stop_listener(&mut self, name: &str) -> (actions: Vec<SessionAction>)
        ensures
            action_views(actions@) == after_stop(name@, views(old(self).listeners@).contains(name@)),
            views(final(self).listeners@) == crate::server::without(
                views(old(self).listeners@),
                name@,
            ),
            final(self).status == old(self).status,
            final(self).config == old(self).config,
            final(self).trees == old(self).trees,
            final(self).loader_ready == old(self).loader_ready,
    {
        let mut actions = started();
        let running = lists(&self.listeners, name);
        if running {
            then(&mut actions, SessionAction::StopListener(name.to_owned()));
            then(
                &mut actions,
                SessionAction::Tell(
                    Commands::UpdateRepoStatus((name.to_owned(), ConnectionStatus::Disconnected)),
                ),
            );
        } else {
            let line = concat("Not connected to ", name);
            then(&mut actions, SessionAction::Tell(Commands::Log(line)));
        }
        let ghost all = views(self.listeners@);
        let mut kept: Vec<String> = Vec::new();
        let mut i: usize = 0;
        proof {
            assert(all.take(0) =~= Seq::<Seq<char>>::empty());
            reveal(Seq::filter);
        }
        while i < self.listeners.len()
            invariant
                i <= self.listeners.len(),
                *self == *old(self),
                all == views(self.listeners@),
                views(kept@) == crate::server::without(all.take(i as int), name@),
            decreases self.listeners.len() - i,
        {
            let ghost before = views(kept@);
            proof {
                let now = all.take(i + 1);
                assert(now.drop_last() =~= all.take(i as int));
                assert(now.last() == all[i as int]);
                reveal(Seq::filter);
            }
            if !same_text(self.listeners[i].as_str(), name) {
                kept.push(self.listeners[i].clone());
                proof {
                    assert(views(kept@) =~= before.push(all[i as int]));
                }
            }
            i += 1;
        }
        proof {
            assert(all.take(self.listeners.len() as int) =~= all);
            assert(action_views(actions@) =~= after_stop(name@, running));
        }
        self.listeners = kept;
        actions
    }

    /// Notes that the listener of `name` runs.
    pub fn listener_started(&mut self, name: String) -> (message: Commands)
        ensures
            message@ == CommandView::UpdateRepoStatus(name@, ConnectionStatus::Connected),
            views(final(self).listeners@) == if views(old(self).listeners@).contains(name@) {
                views(old(self).listeners@)
            } else {
                views(old(self).listeners@).push(name@)
            },
            final(self).status == old(self).status,
            final(self).config == old(self).config,
            final(self).trees == old(self).trees,
            final(self).loader_ready == old(self).loader_ready,
    {
        if !lists(&self.listeners, name.as_str()) {
            let ghost before = views(self.listeners@);
            self.listeners.push(name.clone());
            proof {
                assert(views(self.listeners@) =~= before.push(name@));
            }
        }
        Commands::UpdateRepoStatus((name, ConnectionStatus::Connected))
    }

    /// Starts to disconnect: every listener is stopped, then the channels
    /// are closed.
    pub fn begin_disconnect(&mut self) -> (actions: Vec<SessionAction>)
        ensures
            action_views(actions@) == after_disconnect_request(views(old(self).listeners@)),
            final(self).status == match next_status(
                old(self).status,
                SessionEvent::DisconnectRequested,
            ) {
                Some(next) => next,
                None => old(self).status,
            },
            final(self).listeners@.len() == 0,
            !final(self).loader_ready,
            final(self).config == old(self).config,
            final(self).trees == old(self).trees,
    {
        let _ = self.step(SessionEvent::DisconnectRequested);
        let mut actions = started();
        let ghost all = views(self.listeners@);
        let mut i: usize = 0;
        while i < self.listeners.len()
            invariant
                i <= self.listeners.len(),
                all == views(self.listeners@),
                action_views(actions@) == stops(all.take(i as int)),
            decreases self.listeners.len() - i,
        {
            then(&mut actions, SessionAction::StopListener(self.listeners[i].clone()));
            proof {
                assert(action_views(actions@) =~= stops(all.take(i + 1)));
            }
            i += 1;
        }
        proof {
            assert(all.take(self.listeners.len() as int) =~= all);
        }
        then(&mut actions, SessionAction::CloseChannels);
        self.listeners = Vec::new();
        self.loader_ready = false;
        actions
    }

    /// Ends the session once its channels are closed.
    pub fn finish_disconnect(&mut self) -> (actions: Vec<SessionAction>)
        ensures
            action_views(actions@) == after_closed(),
            final(self).status == match next_status(old(self).status, SessionEvent::Closed) {
                Some(next) => next,
                None => old(self).status,
            },
            final(self).config == old(self).config,
            final(self).trees == old(self).trees,
            final(self).listeners == old(self).listeners,
            final(self).loader_ready == old(self).loader_ready,
    {
        let _ = self.step(SessionEvent::Closed);
        let mut actions = started();
        then(
            &mut actions,
            SessionAction::Tell(Commands::UpdateConnectionStatus(ConnectionStatus::Disconnected)),
        );
        then(&mut actions, SessionAction::Tell(Commands::Notify("Client stopped.".to_owned())));
        proof {
            assert(action_views(actions@) =~= after_closed());
        }
        actions
    }
}

/// Takes in the answer to a request for a batch processor.
pub fn on_batch_processor(response: &Response) -> (actions: Vec<SessionAction>)
    ensures
        action_views(actions@) == after_batch_processor(response@),
{
    let mut actions = started();
    report(&mut actions, response);
    if response.status_code == ResponseCodes::OK {
        let address = lossy_text(response.body.as_slice());
        then(&mut actions, SessionAction::OpenFileChannel(address));
    } else {
        then(&mut actions, SessionAction::Abort);
    }
    proof {
        assert(action_views(actions@) =~= after_batch_processor(response@));
    }
    actions
}

/// What asking for the tree of `name` leads to, where `held` is the tree
/// that the session holds for it, if it holds one: the request, which says
/// how many entries are held, or a line that says that no tree is held.
pub open spec fn after_tree_command(held: Option<TreeView>, name: Seq<char>) -> Seq<ActionView> {
    match held {
        Some(tree) => seq![
            ActionView::Ask(
                AskedView::TreeOf(name),
                tree_request_view(name, tree.history.len() as int),
            ),
        ],
        None => seq![ActionView::Tell(CommandView::Log(missing_tree_text(name)))],
    }
}

/// What the end of a scan leads to, where `outcome` is what the loader
/// said of the batch of the scan, or nothing where the scan sent none:
/// the tree is asked for again once the loader is done with the batch,
/// and only then.
pub open spec fn after_scan(
    held: Option<TreeView>,
    name: Seq<char>,
    outcome: Option<BatchLoaderCallback>,
) -> Seq<ActionView> {
    match outcome {
        Some(BatchLoaderCallback::Done) => after_tree_command(held, name),
        _ => Seq::empty(),
    }
}

/// What a command of the interface leads to, before any answer: where
/// `tree_request` is the request for a tree, if one could be written,
/// `running` says whether the repository named has a listener, `options`
/// are the options of that repository, if it has some, and `plan` is what
/// a scan of it would lead to.
pub open spec fn after_command(
    c: CommandView,
    tree_request: Option<RequestView>,
    running: bool,
    options: Option<crate::config::RepoConfigView>,
    plan: ScanPlan,
) -> Seq<ActionView> {
    match c {
        CommandView::CreateRepo(name) => seq![
            ActionView::Ask(AskedView::Created(name), text_request(RequestTypes::CreateRepo, name)),
        ],
        CommandView::SetStoragePath(path) => seq![
            ActionView::Ask(
                AskedView::StoragePath,
                text_request(RequestTypes::SetStoragePath, path),
            ),
        ],
        CommandView::GetRepoTree(name) => match tree_request {
            Some(request) => seq![ActionView::Ask(AskedView::TreeOf(name), request)],
            None => Seq::empty(),
        },
        CommandView::RemoveRepository(name) => after_stop(name, running) + seq![
            ActionView::Ask(
                AskedView::Removed(name),
                text_request(RequestTypes::RemoveRepository, name),
            ),
        ],
        CommandView::DisconnectStream(name) => after_stop(name, running),
        CommandView::StartEventListener(name, dir) => seq![
            ActionView::StartListener {
                repo: name,
                watch_directory: dir,
                track_modifications: match options {
                    Some(o) => o.track_modifications,
                    None => false,
                },
            },
            ActionView::Tell(CommandView::UpdateRepoStatus(name, ConnectionStatus::Connected)),
        ],
        CommandView::DiscoverUntracked(name) => match plan {
            ScanPlan::Skip => Seq::empty(),
            ScanPlan::Walk => seq![
                ActionView::Scan {
                    repo: name,
                    watch_directory: match options {
                        Some(o) => o.watch_directory,
                        None => Seq::empty(),
                    },
                },
            ],
            ScanPlan::Refuse(why) => seq![
                ActionView::Tell(CommandView::Log(refusal_text(why, name))),
            ],
        },
        _ => Seq::empty(),
    }
}

impl ClientSession {
    /// Hands the answer to a request to the part of the session that
    /// asked: what follows is what follows from that answer to that
    /// request.
    pub fn on_answer(&mut self, asked: Asked, response: &Response) -> (actions: Vec<SessionAction>)
        requires
            old(self).wf(),
        ensures
            final(self).wf(),
            final(self).status == old(self).status,
            final(self).listeners == old(self).listeners,
            final(self).loader_ready == old(self).loader_ready,
            match asked@ {
                AskedView::Repos => {
                    &&& final(self).trees == old(self).trees
                    &&& final(self).config == old(self).config
                    &&& action_views(actions@) == after_repos(
                        response@,
                        names_of_json(response@.body),
                        old(self).config.options(),
                    )
                },
                AskedView::StoragePath => {
                    &&& final(self).trees == old(self).trees
                    &&& final(self).config == old(self).config
                    &&& action_views(actions@) == after_storage_path(response@)
                },
                AskedView::BatchProcessor => {
                    &&& final(self).trees == old(self).trees
                    &&& final(self).config == old(self).config
                    &&& action_views(actions@) == after_batch_processor(response@)
                },
                AskedView::Created(name) => {
                    &&& action_views(actions@) == after_created(response@, name)
                    &&& named(final(self).trees@) == if response.status_code == ResponseCodes::OK {
                        put(named(old(self).trees@), name, fresh(name))
                    } else {
                        named(old(self).trees@)
                    }
                    &&& final(self).config.options() == put(
                        old(self).config.options(),
                        name,
                        default_repo(),
                    )
                },
                AskedView::Removed(name) => {
                    &&& action_views(actions@) == after_removed(
                        response@,
                        name,
                        old(self).tree_view(name) is Some,
                    )
                    &&& response.status_code == ResponseCodes::OK ==> {
                        &&& named(final(self).trees@) == dropped(named(old(self).trees@), name)
                        &&& final(self).config.options() == dropped(
                            old(self).config.options(),
                            name,
                        )
                    }
                    &&& response.status_code != ResponseCodes::OK ==> {
                        &&& final(self).trees == old(self).trees
                        &&& final(self).config == old(self).config
                    }
                },
                AskedView::TreeOf(name) => {
                    &&& final(self).config == old(self).config
                    &&& action_views(actions@) == after_tree(
                        old(self).tree_view(name),
                        response@,
                        updates_of_json(response@.body),
                        name,
                    )
                    &&& final(self).tree_view(name) == match old(self).tree_view(name) {
                        Some(base) => Some(
                            tree_after(base, response@, updates_of_json(response@.body)),
                        ),
                        None => None,
                    }
                },
            },
    {
        match asked {
            Asked::Repos => on_repos(&self.config, response),
            Asked::StoragePath => on_storage_path(response),
            Asked::BatchProcessor => on_batch_processor(response),
            Asked::Created(name) => self.on_created(name, response),
            Asked::Removed(name) => self.on_removed(name, response),
            Asked::TreeOf(name) => self.on_tree(name, response),
        }
    }

    /// Takes in the end of a scan of the repository `name`: `outcome` is
    /// what the loader said of the batch that the scan sent, or nothing
    /// where it sent none. The scan changes nothing that the session
    /// holds.
    pub fn on_scanned(&mut self, name: String, outcome: Option<BatchLoaderCallback>) -> (actions: Vec<
        SessionAction,
    >)
        requires
            old(self).wf(),
        ensures
            final(self).wf(),
            action_views(actions@) == after_scan(old(self).tree_view(name@), name@, outcome),
            final(self).status == old(self).status,
            final(self).config == old(self).config,
            final(self).trees == old(self).trees,
            final(self).listeners == old(self).listeners,
            final(self).loader_ready == old(self).loader_ready,
    {
        match outcome {
            Some(BatchLoaderCallback::Done) => self.on_command(Commands::GetRepoTree(name)),
            _ => started(),
        }
    }

    /// Turns a command of the interface into what the host is to do: for
    /// most commands one request on the control channel, for the others
    /// the start of a listener, its stop, or a scan. A command that is
    /// none of the interface's leads to nothing.
    pub fn on_command(&mut self, command: Commands) -> (actions: Vec<SessionAction>)
        requires
            old(self).wf(),
        ensures
            final(self).wf(),
            final(self).status == old(self).status,
            final(self).config == old(self).config,
            final(self).loader_ready == old(self).loader_ready,
            match command@ {
                CommandView::CreateRepo(_) | CommandView::SetStoragePath(_) => {
                    &&& final(self).trees == old(self).trees
                    &&& final(self).listeners == old(self).listeners
                    &&& action_views(actions@) == after_command(
                        command@,
                        None,
                        false,
                        None,
                        ScanPlan::Skip,
                    )
                },
                CommandView::GetRepoTree(name) => {
                    &&& final(self).trees == old(self).trees
                    &&& final(self).listeners == old(self).listeners
                    &&& match old(self).tree_view(name) {
                        Some(tree) => action_views(actions@) == after_command(
                            command@,
                            Some(tree_request_view(name, tree.history.len() as int)),
                            false,
                            None,
                            ScanPlan::Skip,
                        ),
                        None => action_views(actions@) == seq![
                            ActionView::Tell(CommandView::Log(missing_tree_text(name))),
                        ],
                    }
                },
                CommandView::RemoveRepository(name) | CommandView::DisconnectStream(name) => {
                    &&& final(self).trees == old(self).trees
                    &&& views(final(self).listeners@) == crate::server::without(
                        views(old(self).listeners@),
                        name,
                    )
                    &&& action_views(actions@) == after_command(
                        command@,
                        None,
                        views(old(self).listeners@).contains(name),
                        None,
                        ScanPlan::Skip,
                    )
                },
                CommandView::StartEventListener(name, _) => {
                    &&& final(self).trees == old(self).trees
                    &&& views(final(self).listeners@) == if views(old(self).listeners@).contains(
                        name,
                    ) {
                        views(old(self).listeners@)
                    } else {
                        views(old(self).listeners@).push(name)
                    }
                    &&& action_views(actions@) == after_command(
                        command@,
                        None,
                        false,
                        lookup(old(self).config.options(), name),
                        ScanPlan::Skip,
                    )
                },
                CommandView::DiscoverUntracked(name) => {
                    &&& final(self).trees == old(self).trees
                    &&& final(self).listeners == old(self).listeners
                    &&& action_views(actions@) == after_command(
                        command@,
                        None,
                        false,
                        lookup(old(self).config.options(), name),
                        planned(
                            lookup(old(self).config.options(), name) is Some,
                            match lookup(old(self).config.options(), name) {
                                Some(o) => o.watch_directory.len(),
                                None => 0,
                            },
                            old(self).tree_view(name) is Some,
                            old(self).loader_ready,
                        ),
                    )
                },
                _ => {
                    &&& final(self).trees == old(self).trees
                    &&& final(self).listeners == old(self).listeners
                    &&& action_views(actions@) == Seq::<ActionView>::empty()
                },
            },
    {
        match command {
            Commands::CreateRepo(name) => {
                let mut actions = started();
                let request = request_about(RequestTypes::CreateRepo, name.as_str());
                then(&mut actions, SessionAction::Ask(Asked::Created(name), request));
                proof {
                    assert(action_views(actions@) =~= after_command(
                        command@,
                        None,
                        false,
                        None,
                        ScanPlan::Skip,
                    ));
                }
                actions
            },
            Commands::SetStoragePath(path) => {
                let mut actions = started();
                let request = request_about(RequestTypes::SetStoragePath, path.as_str());
                then(&mut actions, SessionAction::Ask(Asked::StoragePath, request));
                proof {
                    assert(action_views(actions@) =~= after_command(
                        command@,
                        None,
                        false,
                        None,
                        ScanPlan::Skip,
                    ));
                }
                actions
            },
            Commands::GetRepoTree(name) => {
                let mut actions = started();
                if self.find_tree(name.as_str()).is_none() {
                    let mut line = concat("tree ", name.as_str());
                    line.append(" not found");
                    then(&mut actions, SessionAction::Tell(Commands::Log(line)));
                    proof {
                        assert(action_views(actions@) =~= seq![
                            ActionView::Tell(CommandView::Log(missing_tree_text(name@))),
                        ]);
                    }
                    return actions;
                }
                match self.tree_request(name.as_str()) {
                    Some(request) => {
                        let ghost sent = request@;
                        then(&mut actions, SessionAction::Ask(Asked::TreeOf(name), request));
                        proof {
                            assert(action_views(actions@) =~= after_command(
                                command@,
                                Some(sent),
                                false,
                                None,
                                ScanPlan::Skip,
                            ));
                        }
                    },
                    None => {},
                }
                actions
            },
            Commands::RemoveRepository(name) => {
                let ghost running = views(self.listeners@).contains(name@);
                let mut actions = self.stop_listener(name.as_str());
                let request = request_about(RequestTypes::RemoveRepository, name.as_str());
                then(&mut actions, SessionAction::Ask(Asked::Removed(name), request));
                proof {
                    assert(action_views(actions@) =~= after_command(
                        command@,
                        None,
                        running,
                        None,
                        ScanPlan::Skip,
                    ));
                }
                actions
            },
            Commands::DisconnectStream(name) => self.stop_listener(name.as_str()),
            Commands::StartEventListener(name, dir) => {
                let mut actions = started();
                let options = self.config.repo(name.as_str());
                let track_modifications = match &options {
                    Some(o) => o.track_modifications,
                    None => false,
                };
                then(
                    &mut actions,
                    SessionAction::StartListener {
                        repo: name.clone(),
                        watch_directory: dir,
                        track_modifications,
                    },
                );
                let message = self.listener_started(name);
                then(&mut actions, SessionAction::Tell(message));
                proof {
                    assert(action_views(actions@) =~= after_command(
                        command@,
                        None,
                        false,
                        lookup(old(self).config.options(), name@),
                        ScanPlan::Skip,
                    ));
                }
                actions
            },
            Commands::DiscoverUntracked(name) => {
                let mut actions = started();
                let options = self.config.repo(name.as_str());
                let has_tree = self.find_tree(name.as_str()).is_some();
                let plan = match &options {
                    Some(o) => plan_scan(Some(o.watch_directory.as_str()), has_tree, self.loader_ready),
                    None => plan_scan(None, has_tree, self.loader_ready),
                };
                match plan {
                    ScanPlan::Skip => {},
                    ScanPlan::Walk => {
                        let watch_directory = match options {
                            Some(o) => o.watch_directory,
                            None => String::new(),
                        };
                        then(&mut actions, SessionAction::Scan { repo: name, watch_directory });
                    },
                    ScanPlan::Refuse(why) => {
                        let line = match why {
                            ScanRefusal::NoTree => concat("unable to locate tree for ", name.as_str()),
                            ScanRefusal::NoLoader => "batch loader is not available".to_owned(),
                            ScanRefusal::NoWatchDirectory => "watch directory is not saved in the config".to_owned(),
                        };
                        then(&mut actions, SessionAction::Tell(Commands::Log(line)));
                    },
                }
                proof {
                    assert(action_views(actions@) =~= after_command(
                        command@,
                        None,
                        false,
                        lookup(old(self).config.options(), name@),
                        plan,
                    ));
                }
                actions
            },
            _ => started(),
        }
    }
}

} // verus!

//! The client's session: the states it passes through, the request that
//! each command of the interface becomes, and what follows from each
//! answer of the server.

use vstd::prelude::*;
use crate::bus::{CommandView, Commands, ConnectionStatus};
use crate::config::{ClientConfig, RepoConfigView};
use crate::json::{names_from_json, names_of_json};
use crate::path::views;
use crate::protocol::{Request, RequestTypes, RequestView, Response, ResponseCodes, ResponseView};
use crate::text::{concat, lossy_text, utf8_lossy};

verus! {

/// What moves a session from one state to the next.
#[derive(Clone, Copy, Debug, PartialEq, Eq, Structural)]
pub enum SessionEvent {
    /// The interface asked to connect.
    ConnectRequested,
    /// The server greeted the control socket.
    Greeted,
    /// The control socket could not be opened.
    ConnectFailed,
    /// The interface asked to disconnect.
    DisconnectRequested,
    /// The sockets are closed.
    Closed,
}

/// The state after `event`, where `event` means something in `status`:
/// from disconnected over connecting to connected, and over disconnecting
/// back to disconnected; a connection that fails or closes is
/// disconnected.
pub open spec fn next_status(status: ConnectionStatus, event: SessionEvent) -> Option<
    ConnectionStatus,
> {
    match (status, event) {
        (ConnectionStatus::Disconnected, SessionEvent::ConnectRequested) => Some(
            ConnectionStatus::Connecting,
        ),
        (ConnectionStatus::Connecting, SessionEvent::Greeted) => Some(ConnectionStatus::Connected),
        (ConnectionStatus::Connecting, SessionEvent::ConnectFailed) => Some(
            ConnectionStatus::Disconnected,
        ),
        (ConnectionStatus::Connecting, SessionEvent::Closed) => Some(ConnectionStatus::Disconnected),
        (ConnectionStatus::Connected, SessionEvent::DisconnectRequested) => Some(
            ConnectionStatus::Disconnecting,
        ),
        (ConnectionStatus::Connected, SessionEvent::Closed) => Some(ConnectionStatus::Disconnected),
        (ConnectionStatus::Disconnecting, SessionEvent::Closed) => Some(
            ConnectionStatus::Disconnected,
        ),
        _ => None,
    }
}

/// The state after `event`.
pub fn advance(status: ConnectionStatus, event: SessionEvent) -> (next: Option<ConnectionStatus>)
    ensures
        next == next_status(status, event),
{
    match status {
        ConnectionStatus::Disconnected => match event {
            SessionEvent::ConnectRequested => Some(ConnectionStatus::Connecting),
            _ => None,
        },
        ConnectionStatus::Connecting => match event {
            SessionEvent::Greeted => Some(ConnectionStatus::Connected),
            SessionEvent::ConnectFailed => Some(ConnectionStatus::Disconnected),
            SessionEvent::Closed => Some(ConnectionStatus::Disconnected),
            _ => None,
        },
        ConnectionStatus::Connected => match event {
            SessionEvent::DisconnectRequested => Some(ConnectionStatus::Disconnecting),
            SessionEvent::Closed => Some(ConnectionStatus::Disconnected),
            _ => None,
        },
        ConnectionStatus::Disconnecting => match event {
            SessionEvent::Closed => Some(ConnectionStatus::Disconnected),
            _ => None,
        },
    }
}

/// The line that a response is logged as.
pub open spec fn log_text(r: ResponseView) -> Seq<char> {
    r.status_code.label_text() + " | [ "@ + utf8_lossy(r.body) + " ]"@
}

/// The message that logs `response`.
pub fn log_line(response: &Response) -> (line: Commands)
    ensures
        line@ == CommandView::Log(log_text(response@)),
{
    let body = lossy_text(response.body.as_slice());
    let mut text = concat(response.status_code.label(), " | [ ");
    text.append(body.as_str());
    text.append(" ]");
    Commands::Log(text)
}

/// The message that shows `response` to the user.
pub fn notice(response: &Response) -> (message: Commands)
    ensures
        message@ == CommandView::Notify(utf8_lossy(response@.body)),
{
    Commands::Notify(lossy_text(response.body.as_slice()))
}

/// Who logs the responses it gets.
pub trait Log {
    /// The message that logs `response`.
    fn log_response(&self, response: &Response) -> (line: Commands)
        ensures
            line@ == CommandView::Log(log_text(response@)),
    ;
}

/// Who shows the responses it gets to the user.
pub trait Notify {
    /// The message that shows `response` to the user.
    fn notify_app(&self, response: &Response) -> (message: Commands)
        ensures
            message@ == CommandView::Notify(utf8_lossy(response@.body)),
    ;
}

/// Which request an answer belongs to.
pub enum Asked {
    Repos,
    Created(String),
    StoragePath,
    Removed(String),
    TreeOf(String),
    BatchProcessor,
}

/// Which request an answer belongs to, as a value.
pub enum AskedView {
    Repos,
    Created(Seq<char>),
    StoragePath,
    Removed(Seq<char>),
    TreeOf(Seq<char>),
    BatchProcessor,
}

impl View for Asked {
    type V = AskedView;

    open spec fn view(&self) -> AskedView {
        match self {
            Asked::Repos => AskedView::Repos,
            Asked::Created(name) => AskedView::Created(name@),
            Asked::StoragePath => AskedView::StoragePath,
            Asked::Removed(name) => AskedView::Removed(name@),
            Asked::TreeOf(name) => AskedView::TreeOf(name@),
            Asked::BatchProcessor => AskedView::BatchProcessor,
        }
    }
}

/// What the session asks of its host.
pub enum SessionAction {
    /// Put a message on the status bus.
    Tell(Commands),
    /// Send a request on the control channel and hand back the answer.
    Ask(Asked, Request),
    /// Save the configuration.
    SaveConfig,
    /// Save the tree of a repository.
    SaveTree(String),
    /// Load the tree of a repository from the local cache.
    LoadTree(String),
    /// Delete the file of a tree.
    DeleteTreeFile(String),
    /// Connect the file channel to an address, and hand back its greeting.
    OpenFileChannel(String),
    /// Start a listener on a watch directory.
    StartListener { repo: String, watch_directory: String, track_modifications: bool },
    /// Stop the listener of a repository and wait for it.
    StopListener(String),
    /// Walk a watch directory for untracked files.
    Scan { repo: String, watch_directory: String },
    /// Close the file channel and the control channel.
    CloseChannels,
    /// Give up the session: the server broke the protocol.
    Abort,
}

/// What the session asks of its host, as a value.
pub enum ActionView {
    Tell(CommandView),
    Ask(AskedView, RequestView),
    SaveConfig,
    SaveTree(Seq<char>),
    LoadTree(Seq<char>),
    DeleteTreeFile(Seq<char>),
    OpenFileChannel(Seq<char>),
    StartListener { repo: Seq<char>, watch_directory: Seq<char>, track_modifications: bool },
    StopListener(Seq<char>),
    Scan { repo: Seq<char>, watch_directory: Seq<char> },
    CloseChannels,
    Abort,
}

impl View for SessionAction {
    type V = ActionView;

    open spec fn view(&self) -> ActionView {
        match self {
            SessionAction::Tell(command) => ActionView::Tell(command@),
            SessionAction::Ask(asked, request) => ActionView::Ask(asked@, request@),
            SessionAction::SaveConfig => ActionView::SaveConfig,
            SessionAction::SaveTree(name) => ActionView::SaveTree(name@),
            SessionAction::LoadTree(name) => ActionView::LoadTree(name@),
            SessionAction::DeleteTreeFile(path) => ActionView::DeleteTreeFile(path@),
            SessionAction::OpenFileChannel(address) => ActionView::OpenFileChannel(address@),
            SessionAction::StartListener {
                repo,
                watch_directory,
                track_modifications,
            } => ActionView::StartListener {
                repo: repo@,
                watch_directory: watch_directory@,
                track_modifications: *track_modifications,
            },
            SessionAction::StopListener(name) => ActionView::StopListener(name@),
            SessionAction::Scan { repo, watch_directory } => ActionView::Scan {
                repo: repo@,
                watch_directory: watch_directory@,
            },
            SessionAction::CloseChannels => ActionView::CloseChannels,
            SessionAction::Abort => ActionView::Abort,
        }
    }
}

/// The actions of `list` as values.
pub open spec fn action_views(list: Seq<SessionAction>) -> Seq<ActionView> {
    Seq::new(list.len(), |i: int| list[i]@)
}

/// A request whose body is a text.
pub open spec fn text_request(kind: RequestTypes, text: Seq<char>) -> RequestView {
    RequestView { request_type: kind, body: vstd::utf8::encode_utf8(text) }
}

/// A request without a body.
pub open spec fn bare_request(kind: RequestTypes) -> RequestView {
    RequestView { request_type: kind, body: Seq::empty() }
}

/// The request of `kind` about `text`.
pub fn request_about(kind: RequestTypes, text: &str) -> (request: Request)
    ensures
        request@ == text_request(kind, text@),
{
    Request { request_type: kind, body: text.as_bytes_vec() }
}

/// The request of `kind`, which needs no body.
pub fn request_of(kind: RequestTypes) -> (request: Request)
    ensures
        request@ == bare_request(kind),
{
    Request { request_type: kind, body: Vec::new() }
}

/// The two messages that report a response: one for the log, one for the
/// user.
pub open spec fn reports(r: ResponseView) -> Seq<ActionView> {
    seq![
        ActionView::Tell(CommandView::Log(log_text(r))),
        ActionView::Tell(CommandView::Notify(utf8_lossy(r.body))),
    ]
}

/// The action that asks for the list of repositories.
pub open spec fn ask_repos() -> ActionView {
    ActionView::Ask(AskedView::Repos, bare_request(RequestTypes::GetRepos))
}

fn report(actions: &mut Vec<SessionAction>, response: &Response)
    ensures
        action_views(final(actions)@) == action_views(old(actions)@) + reports(response@),
{
    actions.push(SessionAction::Tell(log_line(response)));
    actions.push(SessionAction::Tell(notice(response)));
    proof {
        assert(action_views(actions@) =~= action_views(old(actions)@) + reports(response@));
    }
}

fn then(actions: &mut Vec<SessionAction>, action: SessionAction)
    ensures
        action_views(final(actions)@) == action_views(old(actions)@).push(action@),
{
    actions.push(action);
    proof {
        assert(action_views(actions@) =~= action_views(old(actions)@).push(action@));
    }
}

/// What follows from the answer to a request for a storage path: the
/// reports, the configuration saved where the server agreed, and a
/// request for the repositories.
pub open spec fn after_storage_path(r: ResponseView) -> Seq<ActionView> {
    reports(r) + (if r.status_code == ResponseCodes::OK {
        seq![ActionView::SaveConfig]
    } else {
        Seq::empty()
    }) + seq![ask_repos()]
}

/// Takes in the answer to a request for a storage path.
pub fn on_storage_path(response: &Response) -> (actions: Vec<SessionAction>)
    ensures
        action_views(actions@) == after_storage_path(response@),
{
    let mut actions: Vec<SessionAction> = Vec::new();
    proof {
        assert(action_views(actions@) =~= Seq::empty());
    }
    report(&mut actions, response);
    if response.status_code == ResponseCodes::OK {
        then(&mut actions, SessionAction::SaveConfig);
    }
    then(&mut actions, SessionAction::Ask(Asked::Repos, request_of(RequestTypes::GetRepos)));
    proof {
        assert(action_views(actions@) =~= after_storage_path(response@));
    }
    actions
}

/// What the repositories of the configuration ask for once the server has
/// listed its own: a listener for each that connects by itself, and the
/// tree of each from the local cache.
pub open spec fn wake(options: Seq<(Seq<char>, RepoConfigView)>) -> Seq<ActionView>
    decreases options.len(),
{
    if options.len() == 0 {
        Seq::empty()
    } else {
        let (name, config) = options.last();
        wake(options.drop_last()) + (if config.auto_connect {
            seq![
                ActionView::StartListener {
                    repo: name,
                    watch_directory: config.watch_directory,
                    track_modifications: config.track_modifications,
                },
            ]
        } else {
            Seq::empty()
        }) + seq![ActionView::LoadTree(name)]
    }
}

/// What follows from the answer to a request for the repositories, where
/// `names` is the list that its body holds, if it holds one.
pub open spec fn after_repos(
    r: ResponseView,
    names: Option<Seq<Seq<char>>>,
    options: Seq<(Seq<char>, RepoConfigView)>,
) -> Seq<ActionView> {
    reports(r) + (if r.status_code == ResponseCodes::OK {
        match names {
            Some(list) => seq![ActionView::Tell(CommandView::PostRepos(list))] + wake(options),
            None => seq![ActionView::Abort],
        }
    } else {
        seq![ActionView::Tell(CommandView::PostRepos(Seq::empty()))]
    })
}

/// Takes in the answer to a request for the repositories, where `listed`
/// is the list that its body holds, if it holds one: a list that arrived
/// is posted to the interface and wakes the repositories of `config`; any
/// other answer posts an empty list; an answer that says `OK` without a
/// list breaks the protocol.
pub fn repos_listed(config: &ClientConfig, response: &Response, listed: Option<Vec<String>>) -> (actions:
    Vec<SessionAction>)
    ensures
        action_views(actions@) == after_repos(
            response@,
            match listed {
                Some(names) => Some(views(names@)),
                None => None,
            },
            config.options(),
        ),
{
    let mut actions: Vec<SessionAction> = Vec::new();
    proof {
        assert(action_views(actions@) =~= Seq::empty());
    }
    report(&mut actions, response);
    if response.status_code == ResponseCodes::OK {
        match listed {
            Some(names) => {
                then(&mut actions, SessionAction::Tell(Commands::PostRepos(names)));
                let ghost head = action_views(actions@);
                let ghost all = config.options();
                let mut i: usize = 0;
                proof {
                    assert(all.take(0) =~= Seq::empty());
                    assert(head + wake(all.take(0)) =~= head);
                }
                while i < config.repo_config.len()
                    invariant
                        i <= config.repo_config.len(),
                        all == config.options(),
                        action_views(actions@) == head + wake(all.take(i as int)),
                    decreases config.repo_config.len() - i,
                {
                    let entry = &config.repo_config[i];
                    let ghost before = action_views(actions@);
                    proof {
                        let now = all.take(i + 1);
                        assert(now.drop_last() =~= all.take(i as int));
                        assert(now.last() == (entry.0@, entry.1@));
                    }
                    if entry.1.auto_connect {
                        then(
                            &mut actions,
                            SessionAction::StartListener {
                                repo: entry.0.clone(),
                                watch_directory: entry.1.watch_directory.clone(),
                                track_modifications: entry.1.track_modifications,
                            },
                        );
                    }
                    then(&mut actions, SessionAction::LoadTree(entry.0.clone()));
                    proof {
                        assert(action_views(actions@) =~= head + wake(all.take(i + 1)));
                    }
                    i += 1;
                }
                proof {
                    assert(all.take(config.repo_config.len() as int) =~= all);
                }
            },
            None => {
                then(&mut actions, SessionAction::Abort);
            },
        }
    } else {
        let none: Vec<String> = Vec::new();
        proof {
            assert(views(none@) =~= Seq::<Seq<char>>::empty());
        }
        then(&mut actions, SessionAction::Tell(Commands::PostRepos(none)));
    }
    actions
}

/// Takes in the answer to a request for the repositories, whose body is
/// read as a JSON array of names where the answer says `OK`.
pub fn on_repos(config: &ClientConfig, response: &Response) -> (actions: Vec<SessionAction>)
    ensures
        action_views(actions@) == after_repos(
            response@,
            names_of_json(response@.body),
            config.options(),
        ),
{
    let listed = if response.status_code == ResponseCodes::OK {
        names_from_json(response.body.as_slice())
    } else {
        None
    };
    repos_listed(config, response, listed)
}

} // verus!

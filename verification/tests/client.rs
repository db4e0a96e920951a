use photo_backup::bus::{Commands, ConnectionStatus};
use photo_backup::client::{on_batch_processor, tree_request_with, ClientSession};
use photo_backup::config::{ClientConfig, RepoConfig};
use photo_backup::loader::BatchLoaderCallback;
use photo_backup::protocol::{Request, RequestTypes, Response, ResponseCodes};
use photo_backup::server::get_repo_tree;
use photo_backup::session::{
    advance, log_line, notice, on_repos, on_storage_path, repos_listed, request_about,
    request_of, Asked, Log, Notify, SessionAction, SessionEvent,
};
use photo_backup::tree::Tree;

fn ok(body: &str) -> Response {
    Response::with_text(ResponseCodes::OK, "OK", body)
}

fn configured(storage: &str) -> ClientConfig {
    ClientConfig {
        server_address: "127.0.0.1:8080".to_string(),
        server_storage_directory: storage.to_string(),
        repo_config: Vec::new(),
    }
}

// One line for each action, so that lists of actions can be compared.
fn shown(actions: &[SessionAction]) -> Vec<String> {
    actions.iter().map(show).collect()
}

fn show(action: &SessionAction) -> String {
    match action {
        SessionAction::Tell(command) => format!("tell {}", show_command(command)),
        SessionAction::Ask(asked, request) => format!(
            "ask {} {} {}",
            show_asked(asked),
            request.request_type.name(),
            String::from_utf8_lossy(&request.body)
        ),
        SessionAction::SaveConfig => "save config".to_string(),
        SessionAction::SaveTree(name) => format!("save tree {}", name),
        SessionAction::LoadTree(name) => format!("load tree {}", name),
        SessionAction::DeleteTreeFile(path) => format!("delete {}", path),
        SessionAction::OpenFileChannel(address) => format!("open {}", address),
        SessionAction::StartListener { repo, watch_directory, track_modifications } => {
            format!("listen {} {} {}", repo, watch_directory, track_modifications)
        }
        SessionAction::StopListener(name) => format!("stop {}", name),
        SessionAction::Scan { repo, watch_directory } => format!("scan {} {}", repo, watch_directory),
        SessionAction::CloseChannels => "close".to_string(),
        SessionAction::Abort => "abort".to_string(),
    }
}

fn show_asked(asked: &Asked) -> String {
    match asked {
        Asked::Repos => "repos".to_string(),
        Asked::Created(name) => format!("created({})", name),
        Asked::StoragePath => "storage".to_string(),
        Asked::Removed(name) => format!("removed({})", name),
        Asked::TreeOf(name) => format!("tree({})", name),
        Asked::BatchProcessor => "processor".to_string(),
    }
}

fn show_command(command: &Commands) -> String {
    match command {
        Commands::Log(text) => format!("log {}", text),
        Commands::Notify(text) => format!("notify {}", text),
        Commands::UpdateConnectionStatus(status) => format!("status {}", status.label()),
        Commands::UpdateRepoStatus((name, status)) => format!("repo {} {}", name, status.label()),
        Commands::PostRepos(names) => format!("repos {}", names.join(",")),
        Commands::PostRepoTree(tree, name) => {
            format!("tree {} v{} {}", name, tree.version(), tree.history_entries().join(","))
        }
        Commands::RemoveRepository(name) => format!("removed {}", name),
        _ => "other".to_string(),
    }
}

fn lines(list: &[&str]) -> Vec<String> {
    list.iter().map(|l| l.to_string()).collect()
}

#[test]
fn session_states_follow_one_another() {
    let steps = [
        (ConnectionStatus::Disconnected, SessionEvent::ConnectRequested, ConnectionStatus::Connecting),
        (ConnectionStatus::Connecting, SessionEvent::Greeted, ConnectionStatus::Connected),
        (ConnectionStatus::Connecting, SessionEvent::ConnectFailed, ConnectionStatus::Disconnected),
        (ConnectionStatus::Connecting, SessionEvent::Closed, ConnectionStatus::Disconnected),
        (ConnectionStatus::Connected, SessionEvent::DisconnectRequested, ConnectionStatus::Disconnecting),
        (ConnectionStatus::Connected, SessionEvent::Closed, ConnectionStatus::Disconnected),
        (ConnectionStatus::Disconnecting, SessionEvent::Closed, ConnectionStatus::Disconnected),
    ];
    for (from, event, to) in steps {
        assert_eq!(advance(from, event), Some(to));
    }
}

#[test]
fn session_states_ignore_what_means_nothing() {
    let nothing = [
        (ConnectionStatus::Disconnected, SessionEvent::Greeted),
        (ConnectionStatus::Disconnected, SessionEvent::ConnectFailed),
        (ConnectionStatus::Disconnected, SessionEvent::Closed),
        (ConnectionStatus::Disconnected, SessionEvent::DisconnectRequested),
        (ConnectionStatus::Connecting, SessionEvent::ConnectRequested),
        (ConnectionStatus::Connecting, SessionEvent::DisconnectRequested),
        (ConnectionStatus::Connected, SessionEvent::ConnectRequested),
        (ConnectionStatus::Connected, SessionEvent::Greeted),
        (ConnectionStatus::Connected, SessionEvent::ConnectFailed),
        (ConnectionStatus::Disconnecting, SessionEvent::ConnectRequested),
        (ConnectionStatus::Disconnecting, SessionEvent::Greeted),
        (ConnectionStatus::Disconnecting, SessionEvent::ConnectFailed),
        (ConnectionStatus::Disconnecting, SessionEvent::DisconnectRequested),
    ];
    for (from, event) in nothing {
        assert_eq!(advance(from, event), None);
    }
    let mut session = ClientSession::new(configured(""));
    assert!(!session.step(SessionEvent::Greeted));
    assert_eq!(session.status, ConnectionStatus::Disconnected);
    assert!(session.step(SessionEvent::ConnectRequested));
    assert_eq!(session.status, ConnectionStatus::Connecting);
}

#[test]
fn responses_are_logged_with_their_status() {
    let line = log_line(&ok("hello"));
    assert_eq!(show_command(&line), "log OK | [ hello ]");
    let r = Response::with_text(ResponseCodes::Duplicate, "Err", "twice");
    assert_eq!(show_command(&log_line(&r)), format!("log {} | [ twice ]", ResponseCodes::Duplicate.label()));
    assert_eq!(show_command(&notice(&r)), "notify twice");
    let broken = Response { status_code: ResponseCodes::OK, status_message: String::new(), body: vec![b'a', 0xFF] };
    assert_eq!(show_command(&notice(&broken)), "notify a\u{FFFD}");
    let session = ClientSession::new(configured(""));
    assert_eq!(show_command(&session.log_response(&ok("x"))), "log OK | [ x ]");
    assert_eq!(show_command(&session.notify_app(&ok("x"))), "notify x");
}

#[test]
fn requests_carry_their_text() {
    let r: Request = request_about(RequestTypes::CreateRepo, "alpha");
    assert_eq!(r.request_type, RequestTypes::CreateRepo);
    assert_eq!(r.body, b"alpha".to_vec());
    let r = request_of(RequestTypes::GetRepos);
    assert_eq!(r.request_type, RequestTypes::GetRepos);
    assert!(r.body.is_empty());
}

#[test]
fn connecting_asks_for_a_batch_processor() {
    let mut session = ClientSession::new(configured("/tmp/srv"));
    assert!(session.step(SessionEvent::ConnectRequested));
    let actions = session.on_greeting(&ok("connected to photo server @ host"));
    assert_eq!(session.status, ConnectionStatus::Connected);
    assert_eq!(
        shown(&actions),
        lines(&[
            "tell log OK | [ connected to photo server @ host ]",
            "tell notify connected to photo server @ host",
            "tell status Connected",
            "ask processor StartBatchProcessor ",
        ])
    );
    let answer = Response::with_text(ResponseCodes::OK, "Initiated file stream @ 0.0.0.0:4000", "0.0.0.0:4000");
    let actions = on_batch_processor(&answer);
    assert_eq!(
        shown(&actions),
        lines(&[
            "tell log OK | [ 0.0.0.0:4000 ]",
            "tell notify 0.0.0.0:4000",
            "open 0.0.0.0:4000",
        ])
    );
    let actions = session.on_file_channel(&ok("ready"));
    assert!(session.loader_ready);
    assert_eq!(
        shown(&actions),
        lines(&["tell log OK | [ ready ]", "tell notify ready", "ask repos GetRepos "])
    );
}

#[test]
fn a_refused_batch_processor_ends_the_session() {
    let answer = Response::with_text(ResponseCodes::InternalError, "Err", "no");
    let actions = on_batch_processor(&answer);
    assert_eq!(shown(&actions).last().map(String::as_str), Some("abort"));
}

#[test]
fn without_a_storage_directory_no_repositories_are_asked_for() {
    let mut session = ClientSession::new(configured(""));
    let actions = session.on_file_channel(&Response::with_text(ResponseCodes::InternalError, "Err", "no"));
    assert!(!session.loader_ready);
    assert_eq!(shown(&actions).len(), 2);
}

#[test]
fn storage_path_answers() {
    let actions = on_storage_path(&ok("set"));
    assert_eq!(
        shown(&actions),
        lines(&["tell log OK | [ set ]", "tell notify set", "save config", "ask repos GetRepos "])
    );
    let actions = on_storage_path(&Response::with_text(ResponseCodes::NotFound, "Invalid path", "bad"));
    let label = ResponseCodes::NotFound.label();
    assert_eq!(
        shown(&actions),
        vec![format!("tell log {} | [ bad ]", label), "tell notify bad".to_string(), "ask repos GetRepos ".to_string()]
    );
}

#[test]
fn listed_repositories_are_posted_and_woken() {
    let mut config = configured("/tmp/srv");
    config.set_repo(
        "alpha".to_string(),
        RepoConfig { watch_directory: "/tmp/cli/alpha".to_string(), auto_connect: true, track_modifications: true },
    );
    config.set_repo("beta".to_string(), RepoConfig::default());
    let answer = Response { status_code: ResponseCodes::OK, status_message: "OK".to_string(), body: b"[\"alpha\", \"beta\"]".to_vec() };
    let actions = on_repos(&config, &answer);
    assert_eq!(
        shown(&actions)[2..].to_vec(),
        lines(&[
            "tell repos alpha,beta",
            "listen alpha /tmp/cli/alpha true",
            "load tree alpha",
            "load tree beta",
        ])
    );
}

#[test]
fn an_empty_server_posts_no_repositories() {
    let answer = Response::with_text(ResponseCodes::Empty, "Empty config", "none");
    let actions = on_repos(&configured("/tmp/srv"), &answer);
    assert_eq!(shown(&actions)[2..].to_vec(), lines(&["tell repos "]));
}

#[test]
fn a_list_that_is_no_list_breaks_the_protocol() {
    let actions = on_repos(&configured("/tmp/srv"), &ok("not json"));
    assert_eq!(shown(&actions)[2..].to_vec(), lines(&["abort"]));
    let actions = on_repos(&configured("/tmp/srv"), &ok("{\"a\":1}"));
    assert_eq!(shown(&actions)[2..].to_vec(), lines(&["abort"]));
}

#[test]
fn commands_become_requests() {
    let mut session = ClientSession::new(configured("/tmp/srv"));
    let actions = session.on_command(Commands::CreateRepo("alpha".to_string()));
    assert_eq!(shown(&actions), lines(&["ask created(alpha) CreateRepo alpha"]));
    let actions = session.on_command(Commands::SetStoragePath("/tmp/srv".to_string()));
    assert_eq!(shown(&actions), lines(&["ask storage SetStoragePath /tmp/srv"]));
    let actions = session.on_command(Commands::RemoveRepository("alpha".to_string()));
    assert_eq!(
        shown(&actions),
        lines(&["tell log Not connected to alpha", "ask removed(alpha) RemoveRepository alpha"])
    );
    let actions = session.on_command(Commands::Log("x".to_string()));
    assert!(actions.is_empty());
    let actions = session.on_command(Commands::PostRepos(Vec::new()));
    assert!(actions.is_empty());
}

#[test]
fn creating_a_repository_keeps_an_empty_tree() {
    let mut session = ClientSession::new(configured("/tmp/srv"));
    let actions = session.on_created("alpha".to_string(), &ok("Successfully created new repository | alpha"));
    assert_eq!(
        shown(&actions)[2..].to_vec(),
        lines(&["ask repos GetRepos ", "save tree alpha", "save config"])
    );
    let tree = session.tree("alpha").expect("a tree");
    assert_eq!(tree.version(), 0);
    assert_eq!(tree.path(), "trees/alpha.tree");
    let options = session.config.repo("alpha").expect("options");
    assert_eq!(options.watch_directory, "");
    assert!(!options.auto_connect);
}

#[test]
fn a_refused_creation_keeps_no_tree() {
    let mut session = ClientSession::new(configured("/tmp/srv"));
    let answer = Response::with_text(ResponseCodes::Duplicate, "Err", "A repo with the same name already exists");
    let actions = session.on_created("alpha".to_string(), &answer);
    assert_eq!(shown(&actions)[2..].to_vec(), lines(&["save config"]));
    assert!(session.tree("alpha").is_none());
    assert!(session.config.repo("alpha").is_some());
}

#[test]
fn tree_request_says_what_is_held() {
    let mut session = ClientSession::new(configured("/tmp/srv"));
    assert!(session.tree_request("alpha").is_none());
    let mut tree = Tree::new("alpha".to_string(), "trees/alpha.tree".to_string());
    tree.record("+a/0".to_string());
    tree.record("+a/1".to_string());
    tree.record("+a/2".to_string());
    session.keep_tree(tree);
    let request = session.tree_request("alpha").expect("a request");
    assert_eq!(request.request_type, RequestTypes::GetRepoTree);
    assert_eq!(
        String::from_utf8(request.body.clone()).expect("text"),
        "{\"repo_name\":\"alpha\",\"version\":3}"
    );
    let read = photo_backup::server::parse_tree_request(&request.body).expect("an object");
    assert_eq!(read.repo_name, "alpha");
    assert_eq!(read.version, 3);
    let actions = session.on_command(Commands::GetRepoTree("alpha".to_string()));
    assert_eq!(
        shown(&actions),
        lines(&["ask tree(alpha) GetRepoTree {\"repo_name\":\"alpha\",\"version\":3}"])
    );
}

#[test]
fn a_tree_that_is_not_held_is_not_asked_for() {
    let mut session = ClientSession::new(configured("/tmp/srv"));
    let actions = session.on_command(Commands::GetRepoTree("alpha".to_string()));
    assert_eq!(shown(&actions), lines(&["tell log tree alpha not found"]));
    assert!(session.tree("alpha").is_none());
    let actions = session.on_tree("alpha".to_string(), &ok(""));
    assert_eq!(shown(&actions).len(), 2);
    assert!(session.tree("alpha").is_none());
}

fn tree_of(entries: &[&str]) -> Tree {
    let mut tree = Tree::new("alpha".to_string(), "trees/alpha.tree".to_string());
    for e in entries {
        tree.record(e.to_string());
    }
    tree
}

#[test]
fn tree_catch_up_through_the_session() {
    let server = tree_of(&["+r/a", "+r/b", "+r/c", "+r/d", "+r/s/e"]);
    let mut session = ClientSession::new(configured("/tmp/srv"));
    session.keep_tree(tree_of(&["+r/a", "+r/b", "+r/c"]));
    let answer = get_repo_tree(&server, 3);
    assert_eq!(String::from_utf8(answer.body.clone()).expect("text"), "{\"4\":\"+r/s/e\"}");
    let actions = session.on_tree("alpha".to_string(), &answer);
    assert_eq!(
        shown(&actions)[2..].to_vec(),
        lines(&["save tree alpha", "tell tree alpha v4 +r/a,+r/b,+r/c,+r/s/e"])
    );
    let held = session.tree("alpha").expect("a tree");
    assert_eq!(held.version(), 4);
    // The contents are those of a replay of the history from its start.
    let again = Tree::from_history(
        "alpha".to_string(),
        "trees/alpha.tree".to_string(),
        held.history_entries(),
    )
    .expect("short");
    assert_eq!(held.directories(), again.directories());
    for dir in held.directories() {
        assert_eq!(held.children(&dir), again.children(&dir));
    }
    assert_eq!(
        held.children("r"),
        Some(lines(&["a", "b", "c", "s"]))
    );
    assert_eq!(held.children("s"), Some(lines(&["e"])));
}

#[test]
fn catching_up_from_nothing_takes_every_entry_in_order() {
    let entries = ["+r/a", "+r/b", "+r/c", "+r/d", "+r/e", "+r/f", "+r/g", "+r/h", "+r/i", "+r/j", "+r/k"];
    let server = tree_of(&entries);
    let mut session = ClientSession::new(configured("/tmp/srv"));
    session.keep_tree(tree_of(&[]));
    let answer = get_repo_tree(&server, 0);
    session.on_tree("alpha".to_string(), &answer);
    let held = session.tree("alpha").expect("a tree");
    // Index 10 comes after index 2, though "10" sorts before "2" as a text.
    assert_eq!(held.history_entries(), lines(&entries));
    assert_eq!(held.children("r"), server.children("r"));
}

#[test]
fn an_answer_without_updates_posts_the_tree_as_it_is() {
    let mut session = ClientSession::new(configured("/tmp/srv"));
    session.keep_tree(tree_of(&["+r/a"]));
    let answer = Response { status_code: ResponseCodes::OK, status_message: "No updates".to_string(), body: Vec::new() };
    let actions = session.on_tree("alpha".to_string(), &answer);
    assert_eq!(shown(&actions)[2..].to_vec(), lines(&["tell tree alpha v1 +r/a"]));
    let refused = Response::with_text(ResponseCodes::NotFound, "Tree not found", "x");
    let actions = session.on_tree("alpha".to_string(), &refused);
    assert_eq!(shown(&actions).len(), 2);
    let broken = ok("not json");
    let actions = session.on_tree("alpha".to_string(), &broken);
    assert_eq!(shown(&actions)[2..].to_vec(), lines(&["abort"]));
    assert_eq!(session.tree("alpha").expect("a tree").version(), 1);
}

#[test]
fn removing_a_repository_forgets_it() {
    let mut session = ClientSession::new(configured("/tmp/srv"));
    session.on_created("alpha".to_string(), &ok("made"));
    session.on_created("beta".to_string(), &ok("made"));
    let actions = session.on_removed("alpha".to_string(), &ok("alpha repo successfully deleted"));
    assert_eq!(
        shown(&actions),
        lines(&[
            "tell log OK | [ alpha repo successfully deleted ]",
            "delete trees/alpha.tree",
            "save config",
            "tell removed alpha",
            "ask repos GetRepos ",
        ])
    );
    assert!(session.tree("alpha").is_none());
    assert!(session.tree("beta").is_some());
    assert!(session.config.repo("alpha").is_none());
    assert!(session.config.repo("beta").is_some());
    let refused = Response::with_text(ResponseCodes::InternalError, "Err", "no");
    let actions = session.on_removed("beta".to_string(), &refused);
    assert_eq!(shown(&actions).len(), 1);
    assert!(session.tree("beta").is_some());
}

#[test]
fn listeners_start_and_stop() {
    let mut config = configured("/tmp/srv");
    config.set_repo(
        "alpha".to_string(),
        RepoConfig { watch_directory: "/w".to_string(), auto_connect: false, track_modifications: true },
    );
    let mut session = ClientSession::new(config);
    let actions = session.on_command(Commands::StartEventListener("alpha".to_string(), "/tmp/cli/alpha".to_string()));
    assert_eq!(
        shown(&actions),
        lines(&["listen alpha /tmp/cli/alpha true", "tell repo alpha Connected"])
    );
    assert_eq!(session.listeners, lines(&["alpha"]));
    session.on_command(Commands::StartEventListener("alpha".to_string(), "/tmp/cli/alpha".to_string()));
    assert_eq!(session.listeners, lines(&["alpha"]));
    let actions = session.on_command(Commands::StartEventListener("beta".to_string(), "/b".to_string()));
    assert_eq!(shown(&actions)[0], "listen beta /b false");
    let actions = session.on_command(Commands::DisconnectStream("alpha".to_string()));
    assert_eq!(shown(&actions), lines(&["stop alpha", "tell repo alpha Disconnected"]));
    assert_eq!(session.listeners, lines(&["beta"]));
    let actions = session.on_command(Commands::DisconnectStream("alpha".to_string()));
    assert_eq!(shown(&actions), lines(&["tell log Not connected to alpha"]));
}

#[test]
fn graceful_disconnect() {
    let mut session = ClientSession::new(configured("/tmp/srv"));
    session.step(SessionEvent::ConnectRequested);
    session.on_greeting(&ok("hello"));
    session.on_file_channel(&ok("ready"));
    session.on_command(Commands::StartEventListener("alpha".to_string(), "/a".to_string()));
    session.on_command(Commands::StartEventListener("beta".to_string(), "/b".to_string()));
    let actions = session.begin_disconnect();
    assert_eq!(session.status, ConnectionStatus::Disconnecting);
    assert_eq!(shown(&actions), lines(&["stop alpha", "stop beta", "close"]));
    assert!(session.listeners.is_empty());
    assert!(!session.loader_ready);
    let actions = session.finish_disconnect();
    assert_eq!(session.status, ConnectionStatus::Disconnected);
    assert_eq!(
        shown(&actions),
        lines(&["tell status Disconnected", "tell notify Client stopped."])
    );
    // A disconnected session can connect again.
    assert!(session.step(SessionEvent::ConnectRequested));
}

#[test]
fn scans_are_planned() {
    let mut config = configured("/tmp/srv");
    config.set_repo(
        "beta".to_string(),
        RepoConfig { watch_directory: "/tmp/cli/beta".to_string(), auto_connect: false, track_modifications: false },
    );
    config.set_repo("bare".to_string(), RepoConfig::default());
    let mut session = ClientSession::new(config);
    let scan = |s: &mut ClientSession, name: &str| shown(&s.on_command(Commands::DiscoverUntracked(name.to_string())));
    assert!(scan(&mut session, "unknown").is_empty());
    assert_eq!(scan(&mut session, "beta"), lines(&["tell log unable to locate tree for beta"]));
    session.keep_tree(Tree::new("beta".to_string(), "trees/beta.tree".to_string()));
    assert_eq!(scan(&mut session, "beta"), lines(&["tell log batch loader is not available"]));
    session.on_file_channel(&ok("ready"));
    assert_eq!(scan(&mut session, "beta"), lines(&["scan beta /tmp/cli/beta"]));
    assert_eq!(scan(&mut session, "bare"), lines(&["tell log unable to locate tree for bare"]));
    session.keep_tree(Tree::new("bare".to_string(), "trees/bare.tree".to_string()));
    assert_eq!(scan(&mut session, "bare"), lines(&["tell log watch directory is not saved in the config"]));
}

#[test]
fn a_list_of_repositories_that_was_read_is_posted() {
    let mut config = configured("/tmp/srv");
    config.set_repo("alpha".to_string(), RepoConfig::default());
    let actions = repos_listed(&config, &ok("ignored"), Some(lines(&["x", "y"])));
    assert_eq!(shown(&actions)[2..].to_vec(), lines(&["tell repos x,y", "load tree alpha"]));
    let actions = repos_listed(&config, &ok("ignored"), None);
    assert_eq!(shown(&actions)[2..].to_vec(), lines(&["abort"]));
    let empty = Response::with_text(ResponseCodes::Empty, "Empty config", "none");
    let actions = repos_listed(&config, &empty, Some(lines(&["x"])));
    assert_eq!(shown(&actions)[2..].to_vec(), lines(&["tell repos "]));
}

#[test]
fn updates_that_were_read_are_appended_in_the_order_given() {
    let mut session = ClientSession::new(configured("/tmp/srv"));
    session.keep_tree(tree_of(&["+r/a"]));
    let updates = vec![(7, "+r/b".to_string()), (9, "+r/s/c".to_string())];
    let actions = session.tree_answered("alpha".to_string(), &ok("{..}"), Some(updates));
    assert_eq!(
        shown(&actions)[2..].to_vec(),
        lines(&["save tree alpha", "tell tree alpha v3 +r/a,+r/b,+r/s/c"])
    );
    let held = session.tree("alpha").expect("a tree");
    assert_eq!(held.children("r"), Some(lines(&["a", "b", "s"])));
    let actions = session.tree_answered("alpha".to_string(), &ok("{..}"), None);
    assert_eq!(shown(&actions)[2..].to_vec(), lines(&["abort"]));
    let actions = session.tree_answered("alpha".to_string(), &ok(""), None);
    assert_eq!(shown(&actions)[2..].to_vec(), lines(&["tell tree alpha v3 +r/a,+r/b,+r/s/c"]));
}

#[test]
fn a_tree_request_carries_the_body_written_for_it() {
    assert!(tree_request_with(None).is_none());
    let request = tree_request_with(Some(vec![b'{', b'}'])).expect("a request");
    assert_eq!(request.request_type, RequestTypes::GetRepoTree);
    assert_eq!(request.body, vec![b'{', b'}']);
}

#[test]
fn the_tree_is_asked_for_only_after_the_loader_is_done() {
    let mut session = ClientSession::new(configured("/tmp/srv"));
    session.keep_tree(tree_of(&["+r/a", "+r/b"]));
    let actions = session.on_scanned("alpha".to_string(), Some(BatchLoaderCallback::Done));
    assert_eq!(
        shown(&actions),
        lines(&["ask tree(alpha) GetRepoTree {\"repo_name\":\"alpha\",\"version\":2}"])
    );
    let actions = session.on_scanned("alpha".to_string(), Some(BatchLoaderCallback::Failed));
    assert!(actions.is_empty());
    let actions = session.on_scanned("alpha".to_string(), None);
    assert!(actions.is_empty());
    // The scan changed nothing of the tree that the session holds.
    let held = session.tree("alpha").expect("a tree");
    assert_eq!(held.version(), 2);
    assert_eq!(held.children("r"), Some(lines(&["a", "b"])));
    let actions = session.on_scanned("gone".to_string(), Some(BatchLoaderCallback::Done));
    assert_eq!(shown(&actions), lines(&["tell log tree gone not found"]));
}
